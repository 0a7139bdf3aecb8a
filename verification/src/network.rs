use vstd::prelude::*;

use crate::text;

verus! {

/// What the system reports on forwarding: whether IPv4 forwarding is on, the
/// NAT rules, the listening ports, the sockets of this program, and whether
/// iptables could not be read.
#[derive(Clone, Debug)]
pub struct SystemReport {
    pub ip_forward_enabled: bool,
    pub nat_masquerade: Vec<String>,
    pub port_forwards: Vec<String>,
    pub listening_ports: Vec<String>,
    pub active_connections: Vec<String>,
    pub iptables_failed: bool,
}

/// The content of a system report.
pub struct SystemReportView {
    pub ip_forward_enabled: bool,
    pub nat_masquerade: Seq<Seq<char>>,
    pub port_forwards: Seq<Seq<char>>,
    pub listening_ports: Seq<Seq<char>>,
    pub active_connections: Seq<Seq<char>>,
    pub iptables_failed: bool,
}

impl View for SystemReport {
    type V = SystemReportView;

    open spec fn view(&self) -> SystemReportView {
        SystemReportView {
            ip_forward_enabled: self.ip_forward_enabled,
            nat_masquerade: text::views(self.nat_masquerade@),
            port_forwards: text::views(self.port_forwards@),
            listening_ports: text::views(self.listening_ports@),
            active_connections: text::views(self.active_connections@),
            iptables_failed: self.iptables_failed,
        }
    }
}

/// A network interface of this machine: its name, its MAC address as text
/// (when it has one) and its IP networks as text (`address/prefix`).
#[derive(Clone, Debug)]
pub struct InterfaceInfo {
    pub name: String,
    pub mac: Option<String>,
    pub ips: Vec<String>,
}

/// The content of an interface.
pub struct InterfaceView {
    pub name: Seq<char>,
    pub mac: Option<Seq<char>>,
    pub ips: Seq<Seq<char>>,
}

impl View for InterfaceInfo {
    type V = InterfaceView;

    open spec fn view(&self) -> InterfaceView {
        InterfaceView {
            name: self.name@,
            mac: match self.mac {
                Some(m) => Some(m@),
                None => None,
            },
            ips: text::views(self.ips@),
        }
    }
}

/// An interface as the system reports it: its name, the six bytes of its
/// MAC address (when it has one) and its IP networks as text.
pub struct RawInterface {
    pub name: String,
    pub mac: Option<[u8; 6]>,
    pub ips: Vec<String>,
}

/// pnet's `datalink::interfaces`, each interface with its name, the octets of
/// its MAC address and each of its IP networks printed by `ipnetwork`
/// (`address/prefix`). Nothing is stated of the result: which interfaces the
/// machine has, and their addresses, depend on the machine.
#[verifier::external_body]
fn system_interfaces() -> Vec<RawInterface> {
    pnet::datalink::interfaces()
        .into_iter()
        .map(|i| RawInterface {
            name: i.name,
            mac: i.mac.map(|m| m.octets()),
            ips: i.ips.iter().map(|n| n.to_string()).collect(),
        })
        .collect()
}

/// The lowercase hexadecimal digit for `d` (below 16).
pub open spec fn hex_digit(d: int) -> char {
    if d < 10 {
        (d + 48) as char
    } else {
        (d + 87) as char
    }
}

/// A byte as two lowercase hexadecimal digits.
pub open spec fn hex_byte(b: u8) -> Seq<char> {
    seq![hex_digit(b as int / 16), hex_digit(b as int % 16)]
}

/// A MAC address as it is printed: its six bytes as two lowercase
/// hexadecimal digits each, separated by colons (as pnet's `MacAddr` prints
/// it).
pub open spec fn mac_text(b: Seq<u8>) -> Seq<char> {
    hex_byte(b[0]) + ":"@ + hex_byte(b[1]) + ":"@ + hex_byte(b[2]) + ":"@ + hex_byte(b[3]) + ":"@
        + hex_byte(b[4]) + ":"@ + hex_byte(b[5])
}

fn push_hex_byte(s: &mut String, b: u8)
    ensures
        final(s)@ == old(s)@ + hex_byte(b),
{
    let hi: u8 = b / 16;
    let lo: u8 = b % 16;
    let c1: char = if hi < 10 {
        (hi + 48) as char
    } else {
        (hi + 87) as char
    };
    let c2: char = if lo < 10 {
        (lo + 48) as char
    } else {
        (lo + 87) as char
    };
    s.push(c1);
    s.push(c2);
}

/// The text of the MAC address with the bytes `b`.
pub fn mac_string(b: &[u8; 6]) -> (r: String)
    ensures
        r@ == mac_text(b@),
{
    proof {
        reveal_strlit(":");
    }
    let mut s = String::new();
    push_hex_byte(&mut s, b[0]);
    s.push(':');
    push_hex_byte(&mut s, b[1]);
    s.push(':');
    push_hex_byte(&mut s, b[2]);
    s.push(':');
    push_hex_byte(&mut s, b[3]);
    s.push(':');
    push_hex_byte(&mut s, b[4]);
    s.push(':');
    push_hex_byte(&mut s, b[5]);
    assert(s@ =~= mac_text(b@));
    s
}

/// `info` is the interface `raw` as the library holds it: the same name and
/// IP networks, and the MAC address as text when there is one.
pub open spec fn holds_interface(raw: RawInterface, info: InterfaceInfo) -> bool {
    &&& info.name@ == raw.name@
    &&& info.ips@ == raw.ips@
    &&& match raw.mac {
        Some(b) => info.mac is Some && info.mac->0@ == mac_text(b@),
        None => info.mac is None,
    }
}

/// `infos` holds the interfaces `raws`, one for one and in the same order.
pub open spec fn holds_interfaces(raws: Seq<RawInterface>, infos: Seq<InterfaceInfo>) -> bool {
    &&& infos.len() == raws.len()
    &&& forall|k: int| 0 <= k < raws.len() ==> #[trigger] holds_interface(raws[k], infos[k])
}

/// An interface as the library holds it: its name, its MAC address as text
/// and its IP networks.
pub fn interface_of(raw: &RawInterface) -> (r: InterfaceInfo)
    ensures
        holds_interface(*raw, r),
{
    let mac = match &raw.mac {
        Some(b) => Some(mac_string(b)),
        None => None,
    };
    InterfaceInfo { name: raw.name.clone(), mac, ips: crate::types::clone_strings(&raw.ips) }
}

/// The interfaces `raw` as the library holds them, in their order.
pub fn interfaces_of(raw: &Vec<RawInterface>) -> (r: Vec<InterfaceInfo>)
    ensures
        holds_interfaces(raw@, r@),
{
    let mut r: Vec<InterfaceInfo> = Vec::new();
    let mut i: usize = 0;
    while i < raw.len()
        invariant
            i <= raw@.len(),
            holds_interfaces(raw@.take(i as int), r@),
        decreases raw@.len() - i,
    {
        let info = interface_of(&raw[i]);
        let ghost before = r@;
        r.push(info);
        proof {
            let t = raw@.take(i + 1);
            assert forall|k: int| 0 <= k < t.len() implies #[trigger] holds_interface(t[k], r@[k]) by {
                if k < i {
                    assert(t[k] == raw@.take(i as int)[k]);
                    assert(r@[k] == before[k]);
                }
            }
        }
        i += 1;
    }
    assert(raw@.take(raw@.len() as int) == raw@);
    r
}

/// The network interfaces of this machine (pnet's `datalink::interfaces`),
/// in the order the system reports them, as `interfaces_of` holds them:
/// each with its name, its MAC address printed as six colon-separated pairs
/// of hexadecimal digits, and its IP networks. Which interfaces there are
/// depends on the machine; what is stated holds whatever the system reports.
pub fn get_interfaces() -> (r: Vec<InterfaceInfo>)
    ensures
        exists|raw: Seq<RawInterface>| #[trigger] holds_interfaces(raw, r@),
        forall|k: int| #![trigger r@[k]]
            0 <= k < r@.len() && r@[k].mac is Some ==> exists|b: Seq<u8>|
                b.len() == 6 && r@[k].mac->0@ == #[trigger] mac_text(b),
{
    let raw = system_interfaces();
    let r = interfaces_of(&raw);
    proof {
        assert(holds_interfaces(raw@, r@));
        assert forall|k: int| 0 <= k < r@.len() && r@[k].mac is Some implies exists|b: Seq<u8>|
            b.len() == 6 && r@[k].mac->0@ == #[trigger] mac_text(b) by {
            assert(holds_interface(raw@[k], r@[k]));
            match raw@[k].mac {
                Some(b) => {
                    assert(b@.len() == 6 && r@[k].mac->0@ == mac_text(b@));
                },
                None => {},
            }
        }
    }
    r
}

/// An interface that is offered for sharing: not the loopback device and not
/// a virtual device of containers or bridges.
pub open spec fn interface_is_offered(name: Seq<char>) -> bool {
    &&& name != "lo"@
    &&& !text::starts_with_seq(name, "veth"@)
    &&& !text::starts_with_seq(name, "docker"@)
    &&& !text::starts_with_seq(name, "br-"@)
}

/// The contents of a list of interfaces.
pub open spec fn interface_views(v: Seq<InterfaceInfo>) -> Seq<InterfaceView> {
    v.map_values(|i: InterfaceInfo| i@)
}

/// The interfaces that are offered for sharing, in their order.
pub open spec fn offered_interfaces(ifaces: Seq<InterfaceInfo>) -> Seq<InterfaceInfo> {
    ifaces.filter(|i: InterfaceInfo| interface_is_offered(i.name@))
}

/// One step of a filter over a growing prefix.
pub proof fn lemma_filter_take_step<A>(s: Seq<A>, p: spec_fn(A) -> bool, i: int)
    requires
        0 <= i < s.len(),
    ensures
        s.take(i + 1).filter(p) == (if p(s[i]) {
            s.take(i).filter(p).push(s[i])
        } else {
            s.take(i).filter(p)
        }),
{
    reveal(Seq::filter);
    assert(s.take(i + 1).drop_last() == s.take(i));
}

/// A copy of an interface.
fn copy_interface(i: &InterfaceInfo) -> (r: InterfaceInfo)
    ensures
        r@ == i@,
{
    let mac = match &i.mac {
        Some(m) => Some(m.clone()),
        None => None,
    };
    InterfaceInfo { name: i.name.clone(), mac, ips: crate::types::clone_strings(&i.ips) }
}

/// Keeps the interfaces that are offered for sharing.
pub fn filter_interfaces(ifaces: &Vec<InterfaceInfo>) -> (r: Vec<InterfaceInfo>)
    ensures
        interface_views(r@) == interface_views(offered_interfaces(ifaces@)),
{
    let ghost p = |i: InterfaceInfo| interface_is_offered(i.name@);
    let mut r: Vec<InterfaceInfo> = Vec::new();
    let mut i: usize = 0;
    while i < ifaces.len()
        invariant
            i <= ifaces@.len(),
            p == (|i: InterfaceInfo| interface_is_offered(i.name@)),
            interface_views(r@) == interface_views(ifaces@.take(i as int).filter(p)),
        decreases ifaces@.len() - i,
    {
        proof {
            lemma_filter_take_step(ifaces@, p, i as int);
        }
        let name = ifaces[i].name.as_str();
        let offered = !name.eq("lo") && !text::starts_with_str(name, "veth") && !text::starts_with_str(
            name,
            "docker",
        ) && !text::starts_with_str(name, "br-");
        if offered {
            let ghost before = r@;
            let c = copy_interface(&ifaces[i]);
            r.push(c);
            assert(interface_views(r@) =~= interface_views(before).push(ifaces@[i as int]@));
            assert(interface_views(ifaces@.take(i as int).filter(p).push(ifaces@[i as int]))
                =~= interface_views(ifaces@.take(i as int).filter(p)).push(ifaces@[i as int]@));
        }
        i += 1;
    }
    assert(ifaces@.take(ifaces@.len() as int) == ifaces@);
    r
}


/// A NAT rule that masquerades outgoing traffic.
pub open spec fn is_masquerade_rule(line: Seq<char>) -> bool {
    text::contains_seq(line, "MASQUERADE"@)
}

/// A NAT rule that forwards or redirects a port (and does not masquerade).
pub open spec fn is_port_forward_rule(line: Seq<char>) -> bool {
    &&& !is_masquerade_rule(line)
    &&& (text::contains_seq(line, "DNAT"@) || text::contains_seq(line, "REDIRECT"@))
}

/// A socket line of this program that is established, listening or unconnected.
pub open spec fn is_own_socket(line: Seq<char>) -> bool {
    &&& text::contains_seq(line, "conduit"@)
    &&& (text::contains_seq(line, "ESTAB"@) || text::contains_seq(line, "LISTEN"@)
        || text::contains_seq(line, "UNCONN"@))
}

/// The lines of a listing without its heading line.
pub open spec fn without_heading(lines: Seq<Seq<char>>) -> Seq<Seq<char>> {
    if lines.len() > 0 {
        lines.drop_first()
    } else {
        lines
    }
}

/// The lines of `output` that satisfy `p`.
pub open spec fn lines_where(output: Seq<char>, p: spec_fn(Seq<char>) -> bool) -> Seq<Seq<char>> {
    text::lines(output).filter(p)
}

/// Keeps the lines of `output` that are masquerade rules, and apart from
/// them those that forward ports.
fn nat_rules(output: &str) -> (r: (Vec<String>, Vec<String>))
    ensures
        text::views(r.0@) == lines_where(output@, |l: Seq<char>| is_masquerade_rule(l)),
        text::views(r.1@) == lines_where(output@, |l: Seq<char>| is_port_forward_rule(l)),
{
    let ghost pm = |l: Seq<char>| is_masquerade_rule(l);
    let ghost pf = |l: Seq<char>| is_port_forward_rule(l);
    let lines = text::split_lines(output);
    let ghost ls = text::views(lines@);
    let mut masq: Vec<String> = Vec::new();
    let mut fwd: Vec<String> = Vec::new();
    let mut i: usize = 0;
    while i < lines.len()
        invariant
            i <= lines@.len(),
            ls == text::views(lines@),
            pm == (|l: Seq<char>| is_masquerade_rule(l)),
            pf == (|l: Seq<char>| is_port_forward_rule(l)),
            text::views(masq@) == ls.take(i as int).filter(pm),
            text::views(fwd@) == ls.take(i as int).filter(pf),
        decreases lines@.len() - i,
    {
        proof {
            lemma_filter_take_step(ls, pm, i as int);
            lemma_filter_take_step(ls, pf, i as int);
        }
        let line = &lines[i];
        if text::contains_str(line.as_str(), "MASQUERADE") {
            let ghost old_v = masq@;
            masq.push(line.clone());
            assert(text::views(masq@) == text::views(old_v).push(line@));
        } else if text::contains_str(line.as_str(), "DNAT") || text::contains_str(line.as_str(), "REDIRECT") {
            let ghost old_v = fwd@;
            fwd.push(line.clone());
            assert(text::views(fwd@) == text::views(old_v).push(line@));
        }
        i += 1;
    }
    assert(ls.take(ls.len() as int) == ls);
    (masq, fwd)
}

/// Keeps the lines of `output` that are sockets of this program.
fn own_sockets(output: &str) -> (r: Vec<String>)
    ensures
        text::views(r@) == lines_where(output@, |l: Seq<char>| is_own_socket(l)),
{
    let ghost p = |l: Seq<char>| is_own_socket(l);
    let lines = text::split_lines(output);
    let ghost ls = text::views(lines@);
    let mut out: Vec<String> = Vec::new();
    let mut i: usize = 0;
    while i < lines.len()
        invariant
            i <= lines@.len(),
            ls == text::views(lines@),
            p == (|l: Seq<char>| is_own_socket(l)),
            text::views(out@) == ls.take(i as int).filter(p),
        decreases lines@.len() - i,
    {
        proof {
            lemma_filter_take_step(ls, p, i as int);
        }
        let line = &lines[i];
        let s = line.as_str();
        if text::contains_str(s, "conduit") && (text::contains_str(s, "ESTAB") || text::contains_str(s, "LISTEN")
            || text::contains_str(s, "UNCONN")) {
            let ghost old_v = out@;
            out.push(line.clone());
            assert(text::views(out@) == text::views(old_v).push(line@));
        }
        i += 1;
    }
    assert(ls.take(ls.len() as int) == ls);
    out
}

/// The lines of a listing after its heading line.
fn listing_entries(output: &str) -> (r: Vec<String>)
    ensures
        text::views(r@) == without_heading(text::lines(output@)),
{
    let mut lines = text::split_lines(output);
    if lines.len() > 0 {
        let ghost old_v = lines@;
        lines.remove(0);
        assert(text::views(lines@) =~= text::views(old_v).drop_first());
    }
    lines
}

/// Builds the report from what the system gave: the content of the IPv4
/// forwarding switch, the NAT table as `iptables -t nat -S` lists it
/// (nothing when iptables failed), the listening sockets as `ss -tlnpu`
/// lists them and all sockets as `ss -apn` lists them (nothing when `ss`
/// failed).
pub fn build_system_report(
    ip_forward: &str,
    nat_table: Option<&str>,
    listening: Option<&str>,
    sockets: Option<&str>,
) -> (r: SystemReport)
    ensures
        r.ip_forward_enabled == (text::trim(ip_forward@) == "1"@),
        r.iptables_failed == (nat_table is None),
        text::views(r.nat_masquerade@) == (match nat_table {
            Some(t) => lines_where(t@, |l: Seq<char>| is_masquerade_rule(l)),
            None => Seq::empty(),
        }),
        text::views(r.port_forwards@) == (match nat_table {
            Some(t) => lines_where(t@, |l: Seq<char>| is_port_forward_rule(l)),
            None => Seq::empty(),
        }),
        text::views(r.listening_ports@) == (match listening {
            Some(t) => without_heading(text::lines(t@)),
            None => Seq::empty(),
        }),
        text::views(r.active_connections@) == (match sockets {
            Some(t) => lines_where(t@, |l: Seq<char>| is_own_socket(l)),
            None => Seq::empty(),
        }),
{
    let trimmed = text::trimmed(ip_forward);
    let ip_forward_enabled = trimmed.as_str().eq("1");
    let (nat_masquerade, port_forwards, iptables_failed) = match nat_table {
        Some(t) => {
            let (m, f) = nat_rules(t);
            (m, f, false)
        },
        None => (Vec::new(), Vec::new(), true),
    };
    let listening_ports = match listening {
        Some(t) => listing_entries(t),
        None => Vec::new(),
    };
    let active_connections = match sockets {
        Some(t) => own_sockets(t),
        None => Vec::new(),
    };
    proof {
        assert(text::views(Seq::<String>::empty()) =~= Seq::<Seq<char>>::empty());
    }
    SystemReport {
        ip_forward_enabled,
        nat_masquerade,
        port_forwards,
        listening_ports,
        active_connections,
        iptables_failed,
    }
}


/// `i` is the first position of `w` in `ws`.
pub open spec fn is_first_position(ws: Seq<Seq<char>>, w: Seq<char>, i: int) -> bool {
    &&& 0 <= i < ws.len()
    &&& ws[i] == w
    &&& forall|j: int| 0 <= j < i ==> ws[j] != w
}

/// The outgoing interface that a masquerade rule names: the word after the
/// first `-o`, when there is one.
pub open spec fn wan_of_rule(rule: Seq<char>) -> Option<Seq<char>> {
    let ws = text::words(rule);
    if exists|i: int| is_first_position(ws, "-o"@, i) {
        let p = choose|i: int| is_first_position(ws, "-o"@, i);
        if p + 1 < ws.len() {
            Some(ws[p + 1])
        } else {
            None
        }
    } else {
        None
    }
}

/// The outgoing interfaces that the masquerade rules name, in rule order.
pub open spec fn masqueraded_wans(rules: Seq<Seq<char>>) -> Seq<Seq<char>> {
    rules.filter_map(|r: Seq<char>| wan_of_rule(r))
}

/// The outgoing interface that one masquerade rule names.
pub fn wan_of(rule: &str) -> (r: Option<String>)
    ensures
        match r {
            Some(w) => wan_of_rule(rule@) == Some(w@),
            None => wan_of_rule(rule@) is None,
        },
{
    let words = text::split_words(rule);
    let ghost ws = text::views(words@);
    let mut i: usize = 0;
    while i < words.len()
        invariant
            i <= words@.len(),
            ws == text::views(words@),
            ws == text::words(rule@),
            forall|j: int| 0 <= j < i ==> ws[j] != "-o"@,
        decreases words@.len() - i,
    {
        if words[i].as_str().eq("-o") {
            assert(is_first_position(ws, "-o"@, i as int));
            let ghost p = choose|k: int| is_first_position(ws, "-o"@, k);
            assert(p == i) by {
                if p < i {
                    assert(ws[p] != "-o"@);
                } else if p > i {
                    assert(ws[i as int] != "-o"@);
                }
            }
            if i + 1 < words.len() {
                return Some(words[i + 1].clone());
            } else {
                return None;
            }
        }
        i += 1;
    }
    assert(!exists|k: int| is_first_position(ws, "-o"@, k));
    None
}

/// Reads from a report whether sharing is on, which outgoing interfaces are
/// masqueraded, and whether iptables could not be read. Sharing is on when
/// IPv4 forwarding is enabled and at least one interface is masqueraded.
pub fn detect_system_forward_status(report: &SystemReport) -> (r: (bool, Vec<String>, bool))
    ensures
        text::views(r.1@) == masqueraded_wans(text::views(report.nat_masquerade@)),
        r.0 == (report.ip_forward_enabled && r.1@.len() > 0),
        r.2 == report.iptables_failed,
{
    let ghost rules = text::views(report.nat_masquerade@);
    let ghost f = |r: Seq<char>| wan_of_rule(r);
    let mut wans: Vec<String> = Vec::new();
    let mut i: usize = 0;
    while i < report.nat_masquerade.len()
        invariant
            i <= rules.len(),
            rules == text::views(report.nat_masquerade@),
            f == (|r: Seq<char>| wan_of_rule(r)),
            text::views(wans@) == rules.take(i as int).filter_map(f),
        decreases rules.len() - i,
    {
        assert(rules.take(i + 1).drop_last() == rules.take(i as int));
        assert(rules.take(i + 1).last() == rules[i as int]);
        match wan_of(report.nat_masquerade[i].as_str()) {
            Some(w) => {
                let ghost old_v = wans@;
                wans.push(w);
                assert(text::views(wans@) == text::views(old_v) + seq![w@]);
            },
            None => {},
        }
        i += 1;
    }
    assert(rules.take(rules.len() as int) == rules);
    let active = report.ip_forward_enabled && wans.len() > 0;
    (active, wans, report.iptables_failed)
}


/// A LAN share as the commands take it: the LAN interface, the address given
/// to it, the prefix length of its network, and the outgoing interfaces.
pub type ShareSpec = (String, String, String, Vec<String>);

/// The content of a LAN share as the commands take it.
pub type ShareView = (Seq<char>, Seq<char>, Seq<char>, Seq<Seq<char>>);

/// The content of a share given to the commands.
pub open spec fn share_view(s: ShareSpec) -> ShareView {
    (s.0@, s.1@, s.2@, text::views(s.3@))
}

/// A command whose failure is ignored and whose errors are not shown, as the
/// stop commands give it.
pub open spec fn silenced(cmd: Seq<char>) -> Seq<char> {
    cmd + " 2>/dev/null || true"@
}

/// A silenced command grouped, as the start commands give it: in a chain
/// joined by `&&` it hides its own failure and no earlier one.
pub open spec fn quiet(cmd: Seq<char>) -> Seq<char> {
    "("@ + silenced(cmd) + ")"@
}

/// A command that appends a firewall rule (to the NAT table or the filter
/// table).
pub open spec fn appends_rule(cmd: Seq<char>) -> bool {
    text::starts_with_seq(cmd, "iptables -t nat -A "@) || text::starts_with_seq(cmd, "iptables -A "@)
}

/// The command that deletes the rule that the appending command `cmd` adds.
pub open spec fn delete_of(cmd: Seq<char>) -> Seq<char> {
    if text::starts_with_seq(cmd, "iptables -t nat -A "@) {
        "iptables -t nat -D "@ + cmd.skip(19)
    } else {
        "iptables -D "@ + cmd.skip(12)
    }
}

/// Adds (`"add"`) or removes (`"del"`) the address `ip/mask` on `lan`.
pub open spec fn address_cmd(op: Seq<char>, lan: Seq<char>, ip: Seq<char>, mask: Seq<char>) -> Seq<char> {
    "ip addr "@ + op + " "@ + ip + "/"@ + mask + " dev "@ + lan
}

/// Brings the interface `lan` up.
pub open spec fn link_up_cmd(lan: Seq<char>) -> Seq<char> {
    "ip link set "@ + lan + " up"@
}

/// Appends (`"-A"`) or deletes (`"-D"`) the rule that masquerades traffic leaving by `wan`.
pub open spec fn masquerade_cmd(action: Seq<char>, wan: Seq<char>) -> Seq<char> {
    "iptables -t nat "@ + action + " POSTROUTING -o "@ + wan + " -j MASQUERADE"@
}

/// Appends or deletes the rule that accepts replies coming from `wan` for `lan`.
pub open spec fn return_cmd(action: Seq<char>, wan: Seq<char>, lan: Seq<char>) -> Seq<char> {
    "iptables "@ + action + " FORWARD -i "@ + wan + " -o "@ + lan
        + " -m state --state RELATED,ESTABLISHED -j ACCEPT"@
}

/// Appends or deletes the rule that accepts traffic from `lan` out by `wan`.
pub open spec fn outbound_cmd(action: Seq<char>, lan: Seq<char>, wan: Seq<char>) -> Seq<char> {
    "iptables "@ + action + " FORWARD -i "@ + lan + " -o "@ + wan + " -j ACCEPT"@
}

/// Turns IPv4 forwarding on.
pub open spec fn enable_forwarding_cmd() -> Seq<char> {
    "echo 1 > /proc/sys/net/ipv4/ip_forward"@
}

/// Turns IPv4 forwarding off.
pub open spec fn disable_forwarding_cmd() -> Seq<char> {
    "echo 0 > /proc/sys/net/ipv4/ip_forward"@
}

/// Sets up forwarding from `lan` out by `wan`: each rule is first deleted
/// (quietly), then appended, so that it stands once.
pub open spec fn start_wan_cmds(lan: Seq<char>, wan: Seq<char>) -> Seq<Seq<char>> {
    seq![
        quiet(masquerade_cmd("-D"@, wan)),
        masquerade_cmd("-A"@, wan),
        quiet(return_cmd("-D"@, wan, lan)),
        return_cmd("-A"@, wan, lan),
        quiet(outbound_cmd("-D"@, lan, wan)),
        outbound_cmd("-A"@, lan, wan),
    ]
}

/// Removes the forwarding from `lan` out by `wan`.
pub open spec fn stop_wan_cmds(lan: Seq<char>, wan: Seq<char>) -> Seq<Seq<char>> {
    seq![
        silenced(masquerade_cmd("-D"@, wan)),
        silenced(return_cmd("-D"@, wan, lan)),
        silenced(outbound_cmd("-D"@, lan, wan)),
    ]
}

/// The commands that start one share.
pub open spec fn start_share_cmds(share: ShareView) -> Seq<Seq<char>> {
    let lan = share.0;
    seq![quiet(address_cmd("add"@, lan, share.1, share.2)), link_up_cmd(lan)]
        + share.3.map_values(|wan: Seq<char>| start_wan_cmds(lan, wan)).flatten()
}

/// The commands that stop one share.
pub open spec fn stop_share_cmds(share: ShareView) -> Seq<Seq<char>> {
    let lan = share.0;
    share.3.map_values(|wan: Seq<char>| stop_wan_cmds(lan, wan)).flatten()
        + seq![silenced(address_cmd("del"@, lan, share.1, share.2))]
}

/// The commands that start sharing: forwarding on, then each share.
pub open spec fn start_commands(shares: Seq<ShareView>) -> Seq<Seq<char>> {
    seq![enable_forwarding_cmd()] + shares.map_values(|s: ShareView| start_share_cmds(s)).flatten()
}

/// The commands that stop sharing: each share, then forwarding off.
pub open spec fn stop_commands(shares: Seq<ShareView>) -> Seq<Seq<char>> {
    shares.map_values(|s: ShareView| stop_share_cmds(s)).flatten() + seq![disable_forwarding_cmd()]
}

/// The contents of the shares given to the commands.
pub open spec fn share_views(shares: Seq<ShareSpec>) -> Seq<ShareView> {
    shares.map_values(|s: ShareSpec| share_view(s))
}

fn silenced_string(mut cmd: String) -> (r: String)
    ensures
        r@ == silenced(cmd@),
{
    cmd.append(" 2>/dev/null || true");
    cmd
}

fn quiet_string(cmd: String) -> (r: String)
    ensures
        r@ == quiet(cmd@),
{
    let mut r = String::from_str("(");
    r.append(silenced_string(cmd).as_str());
    r.append(")");
    r
}

fn address_string(op: &str, lan: &String, ip: &String, mask: &String) -> (r: String)
    ensures
        r@ == address_cmd(op@, lan@, ip@, mask@),
{
    let mut c = String::from_str("ip addr ");
    c.append(op);
    c.append(" ");
    c.append(ip.as_str());
    c.append("/");
    c.append(mask.as_str());
    c.append(" dev ");
    c.append(lan.as_str());
    c
}

fn link_up_string(lan: &String) -> (r: String)
    ensures
        r@ == link_up_cmd(lan@),
{
    let mut c = String::from_str("ip link set ");
    c.append(lan.as_str());
    c.append(" up");
    c
}

fn masquerade_string(action: &str, wan: &String) -> (r: String)
    ensures
        r@ == masquerade_cmd(action@, wan@),
{
    let mut c = String::from_str("iptables -t nat ");
    c.append(action);
    c.append(" POSTROUTING -o ");
    c.append(wan.as_str());
    c.append(" -j MASQUERADE");
    c
}

fn return_string(action: &str, wan: &String, lan: &String) -> (r: String)
    ensures
        r@ == return_cmd(action@, wan@, lan@),
{
    let mut c = String::from_str("iptables ");
    c.append(action);
    c.append(" FORWARD -i ");
    c.append(wan.as_str());
    c.append(" -o ");
    c.append(lan.as_str());
    c.append(" -m state --state RELATED,ESTABLISHED -j ACCEPT");
    c
}

fn outbound_string(action: &str, lan: &String, wan: &String) -> (r: String)
    ensures
        r@ == outbound_cmd(action@, lan@, wan@),
{
    let mut c = String::from_str("iptables ");
    c.append(action);
    c.append(" FORWARD -i ");
    c.append(lan.as_str());
    c.append(" -o ");
    c.append(wan.as_str());
    c.append(" -j ACCEPT");
    c
}

/// Appends the commands `cmds` (with views `c`) to `out`.
fn push_all(out: &mut Vec<String>, cmds: Vec<String>)
    ensures
        text::views(final(out)@) == text::views(old(out)@) + text::views(cmds@),
{
    let ghost start = text::views(out@);
    let mut i: usize = 0;
    while i < cmds.len()
        invariant
            i <= cmds@.len(),
            text::views(out@) == start + text::views(cmds@).take(i as int),
        decreases cmds@.len() - i,
    {
        let ghost old_v = out@;
        out.push(cmds[i].clone());
        assert(text::views(out@) == text::views(old_v).push(cmds@[i as int]@));
        assert(text::views(cmds@).take(i + 1) == text::views(cmds@).take(i as int).push(cmds@[i as int]@));
        i += 1;
    }
    assert(text::views(cmds@).take(cmds@.len() as int) == text::views(cmds@));
}

fn start_wan_strings(lan: &String, wan: &String) -> (r: Vec<String>)
    ensures
        text::views(r@) == start_wan_cmds(lan@, wan@),
{
    let mut r: Vec<String> = Vec::new();
    r.push(quiet_string(masquerade_string("-D", wan)));
    r.push(masquerade_string("-A", wan));
    r.push(quiet_string(return_string("-D", wan, lan)));
    r.push(return_string("-A", wan, lan));
    r.push(quiet_string(outbound_string("-D", lan, wan)));
    r.push(outbound_string("-A", lan, wan));
    assert(text::views(r@) =~= start_wan_cmds(lan@, wan@));
    r
}

fn stop_wan_strings(lan: &String, wan: &String) -> (r: Vec<String>)
    ensures
        text::views(r@) == stop_wan_cmds(lan@, wan@),
{
    let mut r: Vec<String> = Vec::new();
    r.push(silenced_string(masquerade_string("-D", wan)));
    r.push(silenced_string(return_string("-D", wan, lan)));
    r.push(silenced_string(outbound_string("-D", lan, wan)));
    assert(text::views(r@) =~= stop_wan_cmds(lan@, wan@));
    r
}

/// Flattening one more element at the end.
proof fn lemma_flatten_push<A>(s: Seq<Seq<A>>, x: Seq<A>)
    ensures
        s.push(x).flatten() == s.flatten() + x,
{
    s.lemma_flatten_and_flatten_alt_are_equivalent();
    s.push(x).lemma_flatten_and_flatten_alt_are_equivalent();
    assert(s.push(x).drop_last() == s);
}

/// The wan commands of one share, in wan order.
fn wan_strings(lan: &String, wans: &Vec<String>, start: bool) -> (r: Vec<String>)
    ensures
        text::views(r@) == (if start {
            text::views(wans@).map_values(|wan: Seq<char>| start_wan_cmds(lan@, wan)).flatten()
        } else {
            text::views(wans@).map_values(|wan: Seq<char>| stop_wan_cmds(lan@, wan)).flatten()
        }),
{
    let ghost f = if start {
        |wan: Seq<char>| start_wan_cmds(lan@, wan)
    } else {
        |wan: Seq<char>| stop_wan_cmds(lan@, wan)
    };
    let ghost ws = text::views(wans@);
    let mut r: Vec<String> = Vec::new();
    let mut i: usize = 0;
    while i < wans.len()
        invariant
            i <= wans@.len(),
            ws == text::views(wans@),
            f == (if start {
                |wan: Seq<char>| start_wan_cmds(lan@, wan)
            } else {
                |wan: Seq<char>| stop_wan_cmds(lan@, wan)
            }),
            text::views(r@) == ws.take(i as int).map_values(f).flatten(),
        decreases wans@.len() - i,
    {
        let cmds = if start {
            start_wan_strings(lan, &wans[i])
        } else {
            stop_wan_strings(lan, &wans[i])
        };
        proof {
            assert(ws.take(i + 1).map_values(f) == ws.take(i as int).map_values(f).push(f(ws[i as int])));
            lemma_flatten_push(ws.take(i as int).map_values(f), f(ws[i as int]));
        }
        push_all(&mut r, cmds);
        i += 1;
    }
    assert(ws.take(ws.len() as int) == ws);
    r
}

fn start_share_strings(share: &ShareSpec) -> (r: Vec<String>)
    ensures
        text::views(r@) == start_share_cmds(share_view(*share)),
{
    let mut r: Vec<String> = Vec::new();
    r.push(quiet_string(address_string("add", &share.0, &share.1, &share.2)));
    r.push(link_up_string(&share.0));
    let ghost head = r@;
    push_all(&mut r, wan_strings(&share.0, &share.3, true));
    assert(text::views(head) =~= seq![quiet(address_cmd("add"@, share.0@, share.1@, share.2@)), link_up_cmd(share.0@)]);
    assert(text::views(share.3@) == share_view(*share).3);
    r
}

fn stop_share_strings(share: &ShareSpec) -> (r: Vec<String>)
    ensures
        text::views(r@) == stop_share_cmds(share_view(*share)),
{
    let mut r = wan_strings(&share.0, &share.3, false);
    let ghost old_r = r@;
    r.push(silenced_string(address_string("del", &share.0, &share.1, &share.2)));
    assert(text::views(r@) == text::views(old_r).push(r@.last()@));
    r
}

/// The commands of every share, in share order.
fn share_strings(shares: &[ShareSpec], start: bool) -> (r: Vec<String>)
    ensures
        text::views(r@) == (if start {
            share_views(shares@).map_values(|s: ShareView| start_share_cmds(s)).flatten()
        } else {
            share_views(shares@).map_values(|s: ShareView| stop_share_cmds(s)).flatten()
        }),
{
    let ghost f = if start {
        |s: ShareSpec| start_share_cmds(share_view(s))
    } else {
        |s: ShareSpec| stop_share_cmds(share_view(s))
    };
    let mut r: Vec<String> = Vec::new();
    let mut i: usize = 0;
    while i < shares.len()
        invariant
            i <= shares@.len(),
            f == (if start {
                |s: ShareSpec| start_share_cmds(share_view(s))
            } else {
                |s: ShareSpec| stop_share_cmds(share_view(s))
            }),
            text::views(r@) == shares@.take(i as int).map_values(f).flatten(),
        decreases shares@.len() - i,
    {
        let cmds = if start {
            start_share_strings(&shares[i])
        } else {
            stop_share_strings(&shares[i])
        };
        proof {
            assert(shares@.take(i + 1).map_values(f) == shares@.take(i as int).map_values(f).push(
                f(shares@[i as int]),
            ));
            lemma_flatten_push(shares@.take(i as int).map_values(f), f(shares@[i as int]));
        }
        push_all(&mut r, cmds);
        i += 1;
    }
    assert(shares@.take(shares@.len() as int) == shares@);
    if start {
        assert(shares@.map_values(f) =~= share_views(shares@).map_values(|s: ShareView| start_share_cmds(s)));
    } else {
        assert(shares@.map_values(f) =~= share_views(shares@).map_values(|s: ShareView| stop_share_cmds(s)));
    }
    r
}

/// The commands that start sharing for `lan_shares`: IPv4 forwarding on;
/// for each share its address and link up; for each of its outgoing
/// interfaces the masquerade rule and the two forward rules.
pub fn start_system_forwarding(lan_shares: &[ShareSpec]) -> (r: Vec<String>)
    ensures
        text::views(r@) == start_commands(share_views(lan_shares@)),
{
    let mut r: Vec<String> = Vec::new();
    r.push(String::from_str("echo 1 > /proc/sys/net/ipv4/ip_forward"));
    push_all(&mut r, share_strings(lan_shares, true));
    r
}

/// The commands that stop sharing for `lan_shares`: for each share the rules
/// of each outgoing interface deleted and its address removed; then IPv4
/// forwarding off.
pub fn stop_system_forwarding(lan_shares: &[ShareSpec]) -> (r: Vec<String>)
    ensures
        text::views(r@) == stop_commands(share_views(lan_shares@)),
{
    let mut r = share_strings(lan_shares, false);
    let ghost old_r = r@;
    r.push(String::from_str("echo 0 > /proc/sys/net/ipv4/ip_forward"));
    assert(text::views(r@) == text::views(old_r).push(r@.last()@));
    r
}

/// The words of `list` joined by `sep`.
pub open spec fn join(list: Seq<Seq<char>>, sep: Seq<char>) -> Seq<char>
    decreases list.len(),
{
    if list.len() == 0 {
        Seq::empty()
    } else if list.len() == 1 {
        list[0]
    } else {
        join(list.drop_last(), sep) + sep + list.last()
    }
}

/// The shell script that runs `commands` one after another, stopping at the
/// first that fails; nothing when there is no command.
pub fn batch_script(commands: &Vec<String>) -> (r: Option<String>)
    ensures
        match r {
            Some(script) => commands@.len() > 0 && script@ == join(text::views(commands@), " && "@),
            None => commands@.len() == 0,
        },
{
    if commands.len() == 0 {
        return None;
    }
    let ghost cs = text::views(commands@);
    let mut script = commands[0].clone();
    let mut i: usize = 1;
    assert(cs.take(1).drop_last().len() == 0);
    while i < commands.len()
        invariant
            1 <= i <= commands@.len(),
            cs == text::views(commands@),
            script@ == join(cs.take(i as int), " && "@),
        decreases commands@.len() - i,
    {
        assert(cs.take(i + 1).drop_last() == cs.take(i as int));
        script.append(" && ");
        script.append(commands[i].as_str());
        i += 1;
    }
    assert(cs.take(cs.len() as int) == cs);
    Some(script)
}

} // verus!
