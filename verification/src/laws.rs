//! Laws of the library that relate several operations.

use vstd::prelude::*;

use crate::app::{self, AppView, Command, Outcome};
use crate::network::{self, ShareView};
use crate::i18n;
use crate::text;
use crate::types::{Message, PortForwarderView};

verus! {

/// An element of the right part of a concatenation is in the whole.
proof fn lemma_contains_right<A>(a: Seq<A>, b: Seq<A>, x: A)
    requires
        b.contains(x),
    ensures
        (a + b).contains(x),
{
    let k = choose|k: int| 0 <= k < b.len() && b[k] == x;
    assert((a + b)[a.len() + k] == x);
}

/// An element of the left part of a concatenation is in the whole.
proof fn lemma_contains_left<A>(a: Seq<A>, b: Seq<A>, x: A)
    requires
        a.contains(x),
    ensures
        (a + b).contains(x),
{
    let k = choose|k: int| 0 <= k < a.len() && a[k] == x;
    assert((a + b)[k] == x);
}

/// An element of one part of a flattened sequence is in the flattened sequence.
proof fn lemma_flatten_contains<A>(s: Seq<Seq<A>>, i: int, x: A)
    requires
        0 <= i < s.len(),
        s[i].contains(x),
    ensures
        s.flatten().contains(x),
    decreases s.len(),
{
    if i == 0 {
        lemma_contains_left(s[0], s.drop_first().flatten(), x);
    } else {
        lemma_flatten_contains(s.drop_first(), i - 1, x);
        lemma_contains_right(s[0], s.drop_first().flatten(), x);
    }
}

/// Where an element of a flattened sequence comes from: the part and the
/// position in it; the element before it in the same part comes just before
/// it in the whole.
proof fn lemma_flatten_index<A>(ss: Seq<Seq<A>>, k: int) -> (r: (int, int))
    requires
        0 <= k < ss.flatten().len(),
    ensures
        0 <= r.0 < ss.len(),
        0 <= r.1 < ss[r.0].len(),
        r.1 <= k,
        ss.flatten()[k] == ss[r.0][r.1],
        r.1 > 0 ==> ss.flatten()[k - 1] == ss[r.0][r.1 - 1],
    decreases ss.len(),
{
    if ss.len() == 0 {
        assert(false);
        (0, 0)
    } else if k < ss[0].len() {
        (0, k)
    } else {
        let rest = ss.drop_first();
        let r0 = lemma_flatten_index(rest, k - ss[0].len());
        assert(rest[r0.0] == ss[r0.0 + 1]);
        (r0.0 + 1, r0.1)
    }
}

/// A quiet command appends no rule.
proof fn lemma_quiet_appends_nothing(c: Seq<char>)
    ensures
        !network::appends_rule(network::quiet(c)),
{
    reveal_strlit("(");
    reveal_strlit("iptables -t nat -A ");
    reveal_strlit("iptables -A ");
    let q = network::quiet(c);
    assert(q[0] == '(');
    if text::starts_with_seq(q, "iptables -t nat -A "@) {
        assert(q.subrange(0, 19)[0] == q[0]);
    }
    if text::starts_with_seq(q, "iptables -A "@) {
        assert(q.subrange(0, 12)[0] == q[0]);
    }
}

/// In the commands that set up one outgoing interface, each appending
/// command comes right after the quiet deletion of the same rule.
proof fn lemma_wan_block_deletes_first(lan: Seq<char>, wan: Seq<char>, m: int)
    requires
        0 <= m < 6,
        network::appends_rule(network::start_wan_cmds(lan, wan)[m]),
    ensures
        m > 0,
        network::start_wan_cmds(lan, wan)[m - 1] == network::quiet(
            network::delete_of(network::start_wan_cmds(lan, wan)[m]),
        ),
{
    reveal_strlit("iptables -t nat -A ");
    reveal_strlit("iptables -t nat -D ");
    reveal_strlit("iptables -A ");
    reveal_strlit("iptables -D ");
    reveal_strlit("iptables -t nat ");
    reveal_strlit("iptables ");
    reveal_strlit("-A");
    reveal_strlit("-D");
    reveal_strlit(" POSTROUTING -o ");
    reveal_strlit(" FORWARD -i ");
    let b = network::start_wan_cmds(lan, wan);
    if m % 2 == 0 {
        lemma_quiet_appends_nothing(b[m + 1 - 1]);
        assert(b[m] == network::quiet(if m == 0 {
            network::masquerade_cmd("-D"@, wan)
        } else if m == 2 {
            network::return_cmd("-D"@, wan, lan)
        } else {
            network::outbound_cmd("-D"@, lan, wan)
        }));
        if m == 0 {
            lemma_quiet_appends_nothing(network::masquerade_cmd("-D"@, wan));
        } else if m == 2 {
            lemma_quiet_appends_nothing(network::return_cmd("-D"@, wan, lan));
        } else {
            lemma_quiet_appends_nothing(network::outbound_cmd("-D"@, lan, wan));
        }
    } else if m == 1 {
        let a = network::masquerade_cmd("-A"@, wan);
        assert(a.subrange(0, 19) == "iptables -t nat -A "@);
        assert(network::delete_of(a) == network::masquerade_cmd("-D"@, wan));
    } else if m == 3 {
        let a = network::return_cmd("-A"@, wan, lan);
        assert(a.subrange(0, 12) == "iptables -A "@);
        assert(a[10] != "iptables -t nat -A "@[10]);
        assert(!text::starts_with_seq(a, "iptables -t nat -A "@)) by {
            if text::starts_with_seq(a, "iptables -t nat -A "@) {
                assert(a.subrange(0, 19)[10] == a[10]);
            }
        }
        assert(network::delete_of(a) == network::return_cmd("-D"@, wan, lan));
    } else {
        let a = network::outbound_cmd("-A"@, lan, wan);
        assert(a.subrange(0, 12) == "iptables -A "@);
        assert(!text::starts_with_seq(a, "iptables -t nat -A "@)) by {
            if text::starts_with_seq(a, "iptables -t nat -A "@) {
                assert(a.subrange(0, 19)[10] == a[10]);
            }
        }
        assert(network::delete_of(a) == network::outbound_cmd("-D"@, lan, wan));
    }
}

/// In the commands that start one share, each appending command comes right
/// after the quiet deletion of the same rule.
proof fn lemma_share_block_deletes_first(share: ShareView, j: int)
    requires
        0 <= j < network::start_share_cmds(share).len(),
        network::appends_rule(network::start_share_cmds(share)[j]),
    ensures
        j > 0,
        network::start_share_cmds(share)[j - 1] == network::quiet(
            network::delete_of(network::start_share_cmds(share)[j]),
        ),
{
    reveal_strlit("ip link set ");
    reveal_strlit("iptables -t nat -A ");
    reveal_strlit("iptables -A ");
    let lan = share.0;
    let head = seq![network::quiet(network::address_cmd("add"@, lan, share.1, share.2)), network::link_up_cmd(lan)];
    let blocks = share.3.map_values(|wan: Seq<char>| network::start_wan_cmds(lan, wan));
    let all = network::start_share_cmds(share);
    assert(all == head + blocks.flatten());
    if j == 0 {
        lemma_quiet_appends_nothing(network::address_cmd("add"@, lan, share.1, share.2));
    } else if j == 1 {
        let c = network::link_up_cmd(lan);
        assert(c[2] == ' ');
        if text::starts_with_seq(c, "iptables -t nat -A "@) {
            assert(c.subrange(0, 19)[2] == c[2]);
        }
        if text::starts_with_seq(c, "iptables -A "@) {
            assert(c.subrange(0, 12)[2] == c[2]);
        }
    } else {
        let (w, m) = lemma_flatten_index(blocks, j - 2);
        assert(all[j] == blocks.flatten()[j - 2]);
        assert(blocks[w] == network::start_wan_cmds(lan, share.3[w]));
        lemma_wan_block_deletes_first(lan, share.3[w], m);
        assert(all[j - 1] == blocks.flatten()[j - 3]);
    }
}

/// Starting is safe to repeat: in the commands that start sharing, each
/// command that appends a rule comes right after the quiet deletion of that
/// same rule, so running them again leaves one copy of each rule.
pub proof fn lemma_start_deletes_before_append(shares: Seq<ShareView>, k: int)
    requires
        0 <= k < network::start_commands(shares).len(),
        network::appends_rule(network::start_commands(shares)[k]),
    ensures
        k > 0,
        network::start_commands(shares)[k - 1] == network::quiet(
            network::delete_of(network::start_commands(shares)[k]),
        ),
{
    reveal_strlit("echo 1 > /proc/sys/net/ipv4/ip_forward");
    reveal_strlit("iptables -t nat -A ");
    reveal_strlit("iptables -A ");
    let blocks = shares.map_values(|s: ShareView| network::start_share_cmds(s));
    let all = network::start_commands(shares);
    assert(all == seq![network::enable_forwarding_cmd()] + blocks.flatten());
    if k == 0 {
        let c = network::enable_forwarding_cmd();
        assert(c[0] == 'e');
        if text::starts_with_seq(c, "iptables -t nat -A "@) {
            assert(c.subrange(0, 19)[0] == c[0]);
        }
        if text::starts_with_seq(c, "iptables -A "@) {
            assert(c.subrange(0, 12)[0] == c[0]);
        }
    } else {
        let (i, j) = lemma_flatten_index(blocks, k - 1);
        assert(all[k] == blocks.flatten()[k - 1]);
        assert(blocks[i] == network::start_share_cmds(shares[i]));
        lemma_share_block_deletes_first(shares[i], j);
        assert(all[k - 1] == blocks.flatten()[k - 2]);
    }
}

/// Stopping undoes starting, rule by rule: for every share and each of its
/// outgoing interfaces, each rule that starting appends is deleted by
/// stopping.
pub proof fn lemma_stop_deletes_started_rules(shares: Seq<ShareView>, i: int, j: int)
    requires
        0 <= i < shares.len(),
        0 <= j < shares[i].3.len(),
    ensures
        ({
            let lan = shares[i].0;
            let wan = shares[i].3[j];
            &&& network::start_commands(shares).contains(network::masquerade_cmd("-A"@, wan))
            &&& network::stop_commands(shares).contains(network::silenced(network::masquerade_cmd("-D"@, wan)))
            &&& network::start_commands(shares).contains(network::return_cmd("-A"@, wan, lan))
            &&& network::stop_commands(shares).contains(network::silenced(network::return_cmd("-D"@, wan, lan)))
            &&& network::start_commands(shares).contains(network::outbound_cmd("-A"@, lan, wan))
            &&& network::stop_commands(shares).contains(network::silenced(network::outbound_cmd("-D"@, lan, wan)))
        }),
{
    let s = shares[i];
    let lan = s.0;
    let wan = s.3[j];
    let start_wans = s.3.map_values(|w: Seq<char>| network::start_wan_cmds(lan, w));
    let stop_wans = s.3.map_values(|w: Seq<char>| network::stop_wan_cmds(lan, w));
    let starts = shares.map_values(|x: ShareView| network::start_share_cmds(x));
    let stops = shares.map_values(|x: ShareView| network::stop_share_cmds(x));
    let head = seq![network::quiet(network::address_cmd("add"@, lan, s.1, s.2)), network::link_up_cmd(lan)];
    let tail = seq![network::silenced(network::address_cmd("del"@, lan, s.1, s.2))];
    let started = network::start_wan_cmds(lan, wan);
    let stopped = network::stop_wan_cmds(lan, wan);
    let wanted_start = seq![
        network::masquerade_cmd("-A"@, wan),
        network::return_cmd("-A"@, wan, lan),
        network::outbound_cmd("-A"@, lan, wan),
    ];
    let wanted_stop = seq![
        network::silenced(network::masquerade_cmd("-D"@, wan)),
        network::silenced(network::return_cmd("-D"@, wan, lan)),
        network::silenced(network::outbound_cmd("-D"@, lan, wan)),
    ];
    assert forall|k: int| 0 <= k < 3 implies network::start_commands(shares).contains(#[trigger] wanted_start[k]) by {
        assert(started[2 * k + 1] == wanted_start[k]);
        assert(start_wans[j] == started);
        lemma_flatten_contains(start_wans, j, wanted_start[k]);
        lemma_contains_right(head, start_wans.flatten(), wanted_start[k]);
        assert(starts[i] == head + start_wans.flatten());
        lemma_flatten_contains(starts, i, wanted_start[k]);
        lemma_contains_right(seq![network::enable_forwarding_cmd()], starts.flatten(), wanted_start[k]);
    }
    assert forall|k: int| 0 <= k < 3 implies network::stop_commands(shares).contains(#[trigger] wanted_stop[k]) by {
        assert(stopped[k] == wanted_stop[k]);
        assert(stop_wans[j] == stopped);
        lemma_flatten_contains(stop_wans, j, wanted_stop[k]);
        lemma_contains_left(stop_wans.flatten(), tail, wanted_stop[k]);
        assert(stops[i] == stop_wans.flatten() + tail);
        lemma_flatten_contains(stops, i, wanted_stop[k]);
        lemma_contains_left(stops.flatten(), seq![network::disable_forwarding_cmd()], wanted_stop[k]);
    }
    assert(wanted_start[0] == network::masquerade_cmd("-A"@, wan));
    assert(wanted_start[1] == network::return_cmd("-A"@, wan, lan));
    assert(wanted_start[2] == network::outbound_cmd("-A"@, lan, wan));
    assert(wanted_stop[0] == network::silenced(network::masquerade_cmd("-D"@, wan)));
    assert(wanted_stop[1] == network::silenced(network::return_cmd("-D"@, wan, lan)));
    assert(wanted_stop[2] == network::silenced(network::outbound_cmd("-D"@, lan, wan)));
}

/// Stopping undoes starting for addresses: the address that starting adds to
/// a share's interface is removed by stopping, and forwarding that starting
/// turns on is turned off last.
pub proof fn lemma_stop_removes_started_address(shares: Seq<ShareView>, i: int)
    requires
        0 <= i < shares.len(),
    ensures
        ({
            let s = shares[i];
            &&& network::start_commands(shares).contains(network::quiet(network::address_cmd("add"@, s.0, s.1, s.2)))
            &&& network::stop_commands(shares).contains(network::silenced(network::address_cmd("del"@, s.0, s.1, s.2)))
        }),
        network::start_commands(shares)[0] == network::enable_forwarding_cmd(),
        network::stop_commands(shares).last() == network::disable_forwarding_cmd(),
{
    let s = shares[i];
    let lan = s.0;
    let starts = shares.map_values(|x: ShareView| network::start_share_cmds(x));
    let stops = shares.map_values(|x: ShareView| network::stop_share_cmds(x));
    let stop_wans = s.3.map_values(|w: Seq<char>| network::stop_wan_cmds(lan, w));
    let add = network::quiet(network::address_cmd("add"@, lan, s.1, s.2));
    let del = network::silenced(network::address_cmd("del"@, lan, s.1, s.2));
    assert(starts[i][0] == add);
    lemma_flatten_contains(starts, i, add);
    lemma_contains_right(seq![network::enable_forwarding_cmd()], starts.flatten(), add);
    assert(stops[i] == stop_wans.flatten() + seq![del]);
    assert(stops[i][stops[i].len() - 1] == del);
    lemma_flatten_contains(stops, i, del);
    lemma_contains_left(stops.flatten(), seq![network::disable_forwarding_cmd()], del);
}


/// Replacing a rule by one with the same identity keeps where each identity
/// is first found.
pub proof fn lemma_position_after_update(fs: Seq<PortForwarderView>, i: int, f: PortForwarderView, id: u128)
    requires
        0 <= i < fs.len(),
        f.id == fs[i].id,
    ensures
        app::position_of_id(fs.update(i, f), id) == app::position_of_id(fs, id),
{
    let gs = fs.update(i, f);
    assert forall|k: int| app::is_first_with_id(gs, id, k) == app::is_first_with_id(fs, id, k) by {
        assert forall|j: int| 0 <= j < gs.len() implies gs[j].id == fs[j].id by {}
    }
    if exists|k: int| app::is_first_with_id(fs, id, k) {
        let a = choose|k: int| app::is_first_with_id(fs, id, k);
        let b = choose|k: int| app::is_first_with_id(gs, id, k);
        app::lemma_first_position_unique(fs, id, a, b);
    }
}

/// Adding a rule and then removing it by its identity gives back the state
/// before, when the random identity drawn for it was new.
pub proof fn lemma_add_then_remove_forwarder(
    s0: AppView,
    s1: AppView,
    s2: AppView,
    o1: Outcome,
    o2: Outcome,
    id: u128,
)
    requires
        app::step(s0, Message::AddForwarder, s1, o1),
        id == s1.port_forwarders.last().id,
        forall|k: int| 0 <= k < s0.port_forwarders.len() ==> s0.port_forwarders[k].id != id,
        app::step(s1, Message::RemoveForwarder(id), s2, o2),
    ensures
        s2 == s0,
        o2.stop_forwarder is None,
{
    let n = s0.port_forwarders.len() as int;
    assert(app::is_first_with_id(s1.port_forwarders, id, n));
    let p = choose|k: int| app::is_first_with_id(s1.port_forwarders, id, k);
    app::lemma_first_position_unique(s1.port_forwarders, id, p, n);
    assert(s1.port_forwarders.remove(n) =~= s0.port_forwarders);
}

/// A filter keeps every element when all of them pass.
proof fn lemma_filter_keeps_all<A>(s: Seq<A>, p: spec_fn(A) -> bool)
    requires
        forall|i: int| 0 <= i < s.len() ==> p(#[trigger] s[i]),
    ensures
        s.filter(p) == s,
    decreases s.len(),
{
    reveal(Seq::filter);
    if s.len() > 0 {
        lemma_filter_keeps_all(s.drop_last(), p);
        assert(p(s[s.len() - 1]));
        assert(s.drop_last().push(s.last()) =~= s);
    }
}

/// Choosing an outgoing interface and then dropping it gives back the
/// selection before, when it was not selected.
pub proof fn lemma_choose_then_drop_wan(
    s0: AppView,
    s1: AppView,
    s2: AppView,
    o1: Outcome,
    o2: Outcome,
    name: String,
)
    requires
        !s0.selected_wans.contains(name@),
        app::step(s0, Message::WanToggled(name, true), s1, o1),
        app::step(s1, Message::WanToggled(name, false), s2, o2),
    ensures
        s2 == s0,
{
    let p = |n: Seq<char>| n != name@;
    let w = s0.selected_wans;
    assert forall|i: int| 0 <= i < w.len() implies p(#[trigger] w[i]) by {
        if w[i] == name@ {
            assert(w.contains(name@));
        }
    }
    lemma_filter_keeps_all(w, p);
    reveal(Seq::filter);
    assert(w.push(name@).drop_last() == w);
    assert(w.push(name@).filter(p) == w.filter(p));
}

/// Adding a LAN share and then removing the last one gives back the state
/// before.
pub proof fn lemma_add_then_remove_lan_share(
    s0: AppView,
    s1: AppView,
    s2: AppView,
    o1: Outcome,
    o2: Outcome,
    idx: usize,
)
    requires
        idx == s0.lan_shares.len(),
        app::step(s0, Message::AddLanShare, s1, o1),
        app::step(s1, Message::RemoveLanShare(idx), s2, o2),
    ensures
        s2 == s0,
{
    assert(s0.lan_shares.push(app::new_lan_share(s0.language)).remove(idx as int) =~= s0.lan_shares);
}

/// Toggling a LAN share and then receiving the success of the commands it
/// asked for flips whether the share is active.
pub proof fn lemma_share_toggle_then_success(
    s0: AppView,
    s1: AppView,
    s2: AppView,
    o1: Outcome,
    o2: Outcome,
    idx: usize,
)
    requires
        idx < s0.lan_shares.len() <= usize::MAX,
        app::step(s0, Message::ToggleLanShare(idx), s1, o1),
        match o1.command {
            Command::RunShareCommands { index, target, commands: _ } => app::step(
                s1,
                Message::SysForwardingResult(index, target, Ok(())),
                s2,
                o2,
            ),
            _ => false,
        },
    ensures
        s2.lan_shares.len() == s0.lan_shares.len(),
        s2.lan_shares[idx as int].is_active == !s0.lan_shares[idx as int].is_active,
{
}

/// Toggling all sharing and then receiving the success of the commands it
/// asked for flips whether sharing is on.
pub proof fn lemma_sharing_toggle_then_success(
    s0: AppView,
    s1: AppView,
    s2: AppView,
    o1: Outcome,
    o2: Outcome,
)
    requires
        app::step(s0, Message::ToggleSysForwarding, s1, o1),
        match o1.command {
            Command::RunShareCommands { index, target, commands: _ } => app::step(
                s1,
                Message::SysForwardingResult(index, target, Ok(())),
                s2,
                o2,
            ),
            _ => false,
        },
    ensures
        s2.sys_active == !s0.sys_active,
{
}

/// Starting a rule and toggling it again stops it: the rule is inactive
/// again, unchanged apart from its status, and its forwarder is told to stop.
pub proof fn lemma_start_then_stop_forwarder(
    s0: AppView,
    s1: AppView,
    s2: AppView,
    o1: Outcome,
    o2: Outcome,
    id: u128,
)
    requires
        app::step(s0, Message::TogglePortForwarding(id), s1, o1),
        o1.command is StartForwarder,
        app::step(s1, Message::TogglePortForwarding(id), s2, o2),
    ensures
        app::position_of_id(s0.port_forwarders, id) is Some,
        ({
            let i = app::position_of_id(s0.port_forwarders, id)->0;
            &&& s2.port_forwarders == s0.port_forwarders.update(i, PortForwarderView {
                status: s2.port_forwarders[i].status,
                ..s0.port_forwarders[i]
            })
            &&& !s2.port_forwarders[i].is_active
        }),
        o2.stop_forwarder == Some(id),
{
    let i = app::position_of_id(s0.port_forwarders, id)->0;
    let f = s0.port_forwarders[i];
    let started = PortForwarderView { is_active: true, status: s1.port_forwarders[i].status, ..f };
    lemma_position_after_update(s0.port_forwarders, i, started, id);
    assert(s2.port_forwarders =~= s0.port_forwarders.update(i, PortForwarderView {
        status: s2.port_forwarders[i].status,
        ..s0.port_forwarders[i]
    }));
}

/// Rules read from a configuration save back as they were read, and none of
/// them runs.
pub proof fn lemma_loaded_rules_saved_back(
    cfg: crate::types::AppConfigView,
    fs: Seq<PortForwarderView>,
)
    requires
        app::ends_with_imported(fs, 0, cfg.forwarders, cfg.language),
    ensures
        fs.map_values(|f: PortForwarderView| app::saved_forwarder(f)) == cfg.forwarders,
        forall|k: int| 0 <= k < fs.len() ==> !#[trigger] fs[k].is_active,
{
    assert forall|k: int| 0 <= k < fs.len() implies !#[trigger] fs[k].is_active by {
        assert(fs[0 + k] == app::imported_forwarder(cfg.forwarders[k], fs[0 + k].id, cfg.language));
    }
    assert forall|k: int| 0 <= k < fs.len() implies #[trigger] app::saved_forwarder(fs[k]) == cfg.forwarders[k] by {
        assert(fs[0 + k] == app::imported_forwarder(cfg.forwarders[k], fs[0 + k].id, cfg.language));
    }
    assert(fs.map_values(|f: PortForwarderView| app::saved_forwarder(f)) =~= cfg.forwarders);
}


/// Rules with the same identities, position by position, keep them distinct.
proof fn lemma_same_ids(a: Seq<PortForwarderView>, b: Seq<PortForwarderView>)
    requires
        app::ids_distinct(a),
        a.len() == b.len(),
        forall|k: int| 0 <= k < a.len() ==> #[trigger] a[k].id == b[k].id,
    ensures
        app::ids_distinct(b),
{
    assert forall|i: int, j: int| 0 <= i < j < b.len() implies b[i].id != b[j].id by {
        assert(a[i].id == b[i].id && a[j].id == b[j].id);
    }
}

/// Editing the first rule of an identity keeps the identities distinct when
/// the edit keeps the identity.
proof fn lemma_edit_keeps_ids(
    fs: Seq<PortForwarderView>,
    id: u128,
    g: spec_fn(PortForwarderView) -> PortForwarderView,
)
    requires
        app::ids_distinct(fs),
        forall|f: PortForwarderView| #[trigger] g(f).id == f.id,
    ensures
        app::ids_distinct(app::edit_rule(fs, id, g)),
{
    match app::position_of_id(fs, id) {
        Some(i) => {
            let c = choose|k: int| app::is_first_with_id(fs, id, k);
            assert(app::is_first_with_id(fs, id, c));
            assert(g(fs[i]).id == fs[i].id);
            lemma_same_ids(fs, fs.update(i, g(fs[i])));
        },
        None => {},
    }
}

/// Every event keeps the identities of the forwarding rules distinct, as
/// long as each random identity drawn for a new rule differs from those
/// before it.
pub proof fn lemma_step_keeps_ids_distinct(old: AppView, msg: Message, new: AppView, out: Outcome)
    requires
        app::step(old, msg, new, out),
        app::ids_distinct(old.port_forwarders),
        forall|i: int, j: int|
            0 <= i < j < new.port_forwarders.len() && j >= old.port_forwarders.len()
                ==> new.port_forwarders[i].id != new.port_forwarders[j].id,
    ensures
        app::ids_distinct(new.port_forwarders),
{
    let fs = old.port_forwarders;
    let gs = new.port_forwarders;
    match msg {
        Message::AddForwarder => {
            assert forall|i: int, j: int| 0 <= i < j < gs.len() implies gs[i].id != gs[j].id by {
                if j < fs.len() {
                    assert(gs[i] == fs[i] && gs[j] == fs[j]);
                }
            }
        },
        Message::ConfigFileSelected(Some(_)) => {
            assert forall|i: int, j: int| 0 <= i < j < gs.len() implies gs[i].id != gs[j].id by {
                if j < fs.len() {
                    assert(gs.take(fs.len() as int)[i] == gs[i]);
                    assert(gs.take(fs.len() as int)[j] == gs[j]);
                }
            }
        },
        Message::RemoveForwarder(id) => {
            match app::position_of_id(fs, id) {
                Some(p) => {
                    let c = choose|k: int| app::is_first_with_id(fs, id, k);
                    assert(app::is_first_with_id(fs, id, c));
                    assert forall|i: int, j: int| 0 <= i < j < gs.len() implies gs[i].id != gs[j].id by {
                        let a = if i < p { i } else { i + 1 };
                        let b = if j < p { j } else { j + 1 };
                        assert(gs[i] == fs[a] && gs[j] == fs[b]);
                    }
                },
                None => {},
            }
        },
        Message::SrcAddrChanged(id, v) => {
            lemma_edit_keeps_ids(fs, id, |f: PortForwarderView| PortForwarderView { src_addr: v@, ..f });
        },
        Message::SrcPortChanged(id, v) => {
            lemma_edit_keeps_ids(fs, id, |f: PortForwarderView| PortForwarderView { src_port: v@, ..f });
        },
        Message::DstAddrChanged(id, v) => {
            lemma_edit_keeps_ids(fs, id, |f: PortForwarderView| PortForwarderView { dst_addr: v@, ..f });
        },
        Message::DstPortChanged(id, v) => {
            lemma_edit_keeps_ids(fs, id, |f: PortForwarderView| PortForwarderView { dst_port: v@, ..f });
        },
        Message::ProtocolChanged(id, p) => {
            lemma_edit_keeps_ids(fs, id, |f: PortForwarderView| PortForwarderView { protocol: p, ..f });
        },
        Message::PortForwardingResult(id, res) => {
            match res {
                Err(e) => lemma_edit_keeps_ids(fs, id, |f: PortForwarderView| PortForwarderView {
                    is_active: false,
                    status: app::error_text(old.language, e@),
                    ..f
                }),
                Ok(_) => {},
            }
        },
        Message::TogglePortForwarding(id) => {
            match app::position_of_id(fs, id) {
                Some(p) => {
                    let c = choose|k: int| app::is_first_with_id(fs, id, k);
                    assert(app::is_first_with_id(fs, id, c));
                    lemma_same_ids(fs, gs);
                },
                None => {},
            }
        },
        Message::LanguageChanged(lang) => {
            lemma_same_ids(fs, gs);
        },
        _ => {},
    }
}


/// Toggling a stopped rule whose two ports are valid starts a forwarder for
/// exactly that rule: its own protocol, its source address and port, its
/// destination address and port, under its identity; the rule then runs.
/// Toggling a running rule stops its forwarder and the rule.
pub proof fn lemma_toggle_starts_rule_as_configured(
    old: AppView,
    id: u128,
    new: AppView,
    out: Outcome,
    i: int,
)
    requires
        app::step(old, Message::TogglePortForwarding(id), new, out),
        0 <= i < old.port_forwarders.len(),
        old.port_forwarders[i].id == id,
        forall|j: int| 0 <= j < i ==> old.port_forwarders[j].id != id,
    ensures
        ({
            let f = old.port_forwarders[i];
            &&& !f.is_active && text::parse_u16_spec(f.src_port) is Some && text::parse_u16_spec(f.dst_port) is Some
                ==> {
                &&& new.port_forwarders[i].is_active
                &&& match out.command {
                    Command::StartForwarder { id: cid, protocol, src_addr, src_port, dst_addr, dst_port } => {
                        &&& cid == f.id
                        &&& protocol == f.protocol
                        &&& src_addr@ == f.src_addr
                        &&& Some(src_port) == text::parse_u16_spec(f.src_port)
                        &&& dst_addr@ == f.dst_addr
                        &&& Some(dst_port) == text::parse_u16_spec(f.dst_port)
                    },
                    _ => false,
                }
            }
            &&& f.is_active ==> out.stop_forwarder == Some(f.id) && !new.port_forwarders[i].is_active
                && out.command is Nothing
        }),
{
    let fs = old.port_forwarders;
    assert(app::is_first_with_id(fs, id, i));
    let c = choose|k: int| app::is_first_with_id(fs, id, k);
    app::lemma_first_position_unique(fs, id, c, i);
    assert(app::position_of_id(fs, id) == Some(i));
}

/// Toggling a LAN share sets it up, or tears it down, with its own outgoing
/// interfaces when it has any, whatever the global selection; only a share
/// without outgoing interfaces of its own uses the selected ones.
pub proof fn lemma_share_toggle_uses_its_own_wans(old: AppView, idx: usize, new: AppView, out: Outcome)
    requires
        app::step(old, Message::ToggleLanShare(idx), new, out),
        idx < old.lan_shares.len(),
        old.lan_shares[idx as int].is_active || old.lan_shares[idx as int].config.interface.len() > 0,
        old.lan_shares[idx as int].is_active || old.lan_shares[idx as int].config.wans.len() > 0
            || old.selected_wans.len() > 0,
    ensures
        ({
            let c = old.lan_shares[idx as int].config;
            let active = old.lan_shares[idx as int].is_active;
            let wans = if c.wans.len() > 0 {
                c.wans
            } else {
                old.selected_wans
            };
            &&& c.wans.len() > 0 ==> wans == c.wans
            &&& c.wans.len() == 0 ==> wans == old.selected_wans
            &&& match out.command {
                Command::RunShareCommands { index, target, commands } => {
                    &&& index == idx
                    &&& target == !active
                    &&& text::views(commands@) == if active {
                        network::stop_commands(seq![(c.interface, c.ip, c.mask, wans)])
                    } else {
                        network::start_commands(seq![(c.interface, c.ip, c.mask, wans)])
                    }
                },
                _ => false,
            }
        }),
{
}

/// `shares` are the LAN shares of `old` in order, each with its interface,
/// address and prefix, and with its own outgoing interfaces when it has
/// any, the selected ones otherwise.
pub open spec fn shares_as_configured(old: AppView, shares: Seq<ShareView>) -> bool {
    &&& shares.len() == old.lan_shares.len()
    &&& forall|i: int| #![trigger shares[i]] 0 <= i < shares.len() ==> {
        let c = old.lan_shares[i].config;
        &&& shares[i].0 == c.interface
        &&& shares[i].1 == c.ip
        &&& shares[i].2 == c.mask
        &&& (c.wans.len() > 0 ==> shares[i].3 == c.wans)
        &&& (c.wans.len() == 0 ==> shares[i].3 == old.selected_wans)
    }
}

/// Toggling all sharing sets up, or tears down, every share, in order, each
/// with its own outgoing interfaces when it has any and with the selected
/// ones otherwise.
pub proof fn lemma_sharing_toggle_uses_own_wans(old: AppView, new: AppView, out: Outcome)
    requires
        app::step(old, Message::ToggleSysForwarding, new, out),
        out.command is RunShareCommands,
    ensures
        exists|shares: Seq<ShareView>| #[trigger] shares_as_configured(old, shares) && match out.command {
            Command::RunShareCommands { index, target, commands } => {
                &&& index == usize::MAX
                &&& target == !old.sys_active
                &&& text::views(commands@) == if old.sys_active {
                    network::stop_commands(shares)
                } else {
                    network::start_commands(shares)
                }
            },
            _ => false,
        },
{
    let shares = app::all_shares(old);
    assert(shares_as_configured(old, shares));
}

/// `s` keeping only the LAN shares that have an interface, in order.
pub open spec fn with_interface_only(s: AppView) -> AppView {
    AppView {
        lan_shares: s.lan_shares.filter(|x: crate::types::LanShareView| x.config.interface.len() > 0),
        ..s
    }
}

/// Quitting with shares configured tears down every share that has an
/// interface, in order, each with its own outgoing interfaces when it has
/// any and with the selected ones otherwise, and then quits.
pub proof fn lemma_quit_stops_configured_shares(old: AppView, new: AppView, out: Outcome)
    requires
        app::step(old, Message::CloseRequested, new, out),
        old.close_behavior == crate::types::CloseBehavior::Quit,
        exists|i: int| 0 <= i < old.lan_shares.len() && #[trigger] old.lan_shares[i].config.interface.len() > 0,
    ensures
        new == old,
        exists|shares: Seq<ShareView>| #[trigger] shares_as_configured(with_interface_only(old), shares)
            && match out.command {
            Command::StopSharingThenExit(commands) => text::views(commands@) == network::stop_commands(shares),
            _ => false,
        },
{
    let ls = old.lan_shares;
    let p = |s: crate::types::LanShareView| s.config.interface.len() > 0;
    let i = choose|i: int| 0 <= i < ls.len() && #[trigger] ls[i].config.interface.len() > 0;
    ls.lemma_filter_contains(p, i);
    assert(ls.filter(p).len() > 0);
    let filtered = with_interface_only(old);
    let shares = app::configured_shares(old);
    assert(shares == app::all_shares(filtered));
    assert(shares_as_configured(filtered, shares));
}

/// A detection that could read iptables sets the sharing state from the
/// report: sharing is on exactly when IPv4 forwarding is enabled
/// and some outgoing interface is masqueraded; with forwarding off it is
/// off. The masqueraded interfaces become the selected ones only when
/// sharing is on; a failed read changes neither.
pub proof fn lemma_detection_follows_report(old: AppView, r: crate::network::SystemReport, new: AppView, out: Outcome)
    requires
        app::step(old, Message::DetectSystemForward(r), new, out),
    ensures
        ({
            let wans = network::masqueraded_wans(r@.nat_masquerade);
            &&& !r@.iptables_failed ==> new.sys_active == (r@.ip_forward_enabled && wans.len() > 0)
            &&& !r@.iptables_failed && !r@.ip_forward_enabled ==> !new.sys_active
            &&& !r@.iptables_failed && new.sys_active ==> new.selected_wans == wans
            &&& !new.sys_active ==> new.selected_wans == old.selected_wans
            &&& r@.iptables_failed ==> new.sys_active == old.sys_active
            &&& !r@.iptables_failed ==> new.sys_status == i18n::translate(
                old.language,
                if new.sys_active {
                    "status_active"@
                } else {
                    "status_ready"@
                },
            )
            &&& r@.iptables_failed ==> new.sys_status == i18n::translate(old.language, "msg_det_failed"@)
        }),
        out.command is Nothing,
{
}

/// Imported rules carry their configuration entries field by field: the
/// protocol, the source address and port and the destination address and
/// port each come from the same field of the entry; none of them runs.
pub proof fn lemma_imported_rules_keep_fields(
    fs: Seq<PortForwarderView>,
    start: int,
    cs: Seq<crate::types::PortForwarderConfigView>,
    lang: crate::types::Language,
    k: int,
)
    requires
        app::ends_with_imported(fs, start, cs, lang),
        0 <= k < cs.len(),
    ensures
        fs[start + k].protocol == cs[k].protocol,
        fs[start + k].src_addr == cs[k].src_addr,
        fs[start + k].src_port == cs[k].src_port,
        fs[start + k].dst_addr == cs[k].dst_addr,
        fs[start + k].dst_port == cs[k].dst_port,
        !fs[start + k].is_active,
{
    assert(fs[start + k] == app::imported_forwarder(cs[k], fs[start + k].id, lang));
}

/// Importing rules from a file appends them after the existing ones, each
/// with the fields of its entry, and asks for a save.
pub proof fn lemma_import_appends_entries(
    old: AppView,
    cs: Vec<crate::types::PortForwarderConfig>,
    new: AppView,
    out: Outcome,
    k: int,
)
    requires
        app::step(old, Message::ConfigFileSelected(Some(cs)), new, out),
        0 <= k < cs@.len(),
    ensures
        new.port_forwarders.len() == old.port_forwarders.len() + cs@.len(),
        new.port_forwarders.take(old.port_forwarders.len() as int) == old.port_forwarders,
        new.port_forwarders[old.port_forwarders.len() + k].protocol == cs@[k]@.protocol,
        new.port_forwarders[old.port_forwarders.len() + k].src_addr == cs@[k]@.src_addr,
        new.port_forwarders[old.port_forwarders.len() + k].src_port == cs@[k]@.src_port,
        new.port_forwarders[old.port_forwarders.len() + k].dst_addr == cs@[k]@.dst_addr,
        new.port_forwarders[old.port_forwarders.len() + k].dst_port == cs@[k]@.dst_port,
        out.save_config,
{
    let views = cs@.map_values(|c: crate::types::PortForwarderConfig| c@);
    assert(views[k] == cs@[k]@);
    lemma_imported_rules_keep_fields(new.port_forwarders, old.port_forwarders.len() as int, views, old.language, k);
}

/// A rule is saved with its own fields: the saved entry has the rule's
/// protocol, source address and port and destination address and port.
pub proof fn lemma_saved_rule_keeps_fields(f: PortForwarderView)
    ensures
        app::saved_forwarder(f).protocol == f.protocol,
        app::saved_forwarder(f).src_addr == f.src_addr,
        app::saved_forwarder(f).src_port == f.src_port,
        app::saved_forwarder(f).dst_addr == f.dst_addr,
        app::saved_forwarder(f).dst_port == f.dst_port,
{
}

/// The report lists exactly this program's sockets that are established,
/// listening or unconnected: a line of the socket listing is among them if
/// and only if it names `conduit` and one of the states `ESTAB`, `LISTEN`
/// or `UNCONN`.
pub proof fn lemma_own_sockets_listed(sockets: Seq<char>, l: Seq<char>)
    requires
        text::lines(sockets).contains(l),
    ensures
        network::lines_where(sockets, |x: Seq<char>| network::is_own_socket(x)).contains(l) <==> (
        text::contains_seq(l, "conduit"@) && (text::contains_seq(l, "ESTAB"@) || text::contains_seq(l, "LISTEN"@)
            || text::contains_seq(l, "UNCONN"@))),
{
    let ls = text::lines(sockets);
    let p = |x: Seq<char>| network::is_own_socket(x);
    let k = choose|k: int| 0 <= k < ls.len() && ls[k] == l;
    if p(l) {
        ls.lemma_filter_contains(p, k);
    }
    if ls.filter(p).contains(l) {
        let j = choose|j: int| 0 <= j < ls.filter(p).len() && ls.filter(p)[j] == l;
        ls.lemma_filter_pred(p, j);
    }
}

/// Every line of the report's own sockets is a line of the listing that
/// names `conduit` and one of the states `ESTAB`, `LISTEN` or `UNCONN`.
pub proof fn lemma_listed_sockets_are_own(sockets: Seq<char>, k: int)
    requires
        0 <= k < network::lines_where(sockets, |x: Seq<char>| network::is_own_socket(x)).len(),
    ensures
        ({
            let l = network::lines_where(sockets, |x: Seq<char>| network::is_own_socket(x))[k];
            &&& text::lines(sockets).contains(l)
            &&& text::contains_seq(l, "conduit"@)
            &&& (text::contains_seq(l, "ESTAB"@) || text::contains_seq(l, "LISTEN"@) || text::contains_seq(l, "UNCONN"@))
        }),
{
    let ls = text::lines(sockets);
    let p = |x: Seq<char>| network::is_own_socket(x);
    ls.lemma_filter_pred(p, k);
    ls.lemma_filter_contains_rev(p, ls.filter(p)[k]);
}

} // verus!
