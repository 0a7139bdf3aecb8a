use vstd::prelude::*;

use crate::i18n;
use crate::network::{self, InterfaceInfo, ShareSpec, SystemReport};
use crate::text;
use crate::types::{
    AppConfig, CloseBehavior, LanShare, LanShareConfig, Language, Message, Page, PortForwarder,
    PortForwarderConfig, Protocol,
};

verus! {

/// uuid's `Uuid::new_v4` as a 128-bit number: a random identity for a
/// forwarding rule. Of the value only the version (4) and variant (RFC 4122)
/// bits that `new_v4` sets are stated; the rest is random.
#[verifier::external_body]
fn new_forwarder_id() -> (r: u128)
    ensures
        is_random_identity(r),
{
    uuid::Uuid::new_v4().as_u128()
}

/// An identity drawn as a random (version 4) UUID: its version bits are 4
/// and its variant bits those of RFC 4122.
pub open spec fn is_random_identity(id: u128) -> bool {
    id & 0xF000_C000_0000_0000_0000u128 == 0x4000_8000_0000_0000_0000u128
}

/// What the user interface shows and edits.
pub struct ForwarderApp {
    pub current_page: Page,
    pub language: Language,
    pub close_behavior: CloseBehavior,
    pub interfaces: Vec<InterfaceInfo>,
    pub selected_wans: Vec<String>,
    pub lan_shares: Vec<LanShare>,
    pub sys_active: bool,
    pub sys_status: String,
    pub system_report: Option<SystemReport>,
    pub refresh_interval: u64,
    pub port_forwarders: Vec<PortForwarder>,
}

/// The content of the application state.
pub struct AppView {
    pub current_page: Page,
    pub language: Language,
    pub close_behavior: CloseBehavior,
    pub interfaces: Seq<network::InterfaceView>,
    pub selected_wans: Seq<Seq<char>>,
    pub lan_shares: Seq<crate::types::LanShareView>,
    pub sys_active: bool,
    pub sys_status: Seq<char>,
    pub system_report: Option<network::SystemReportView>,
    pub refresh_interval: u64,
    pub port_forwarders: Seq<crate::types::PortForwarderView>,
}


/// The contents of a list of LAN shares.
pub open spec fn share_views(v: Seq<LanShare>) -> Seq<crate::types::LanShareView> {
    v.map_values(|s: LanShare| s@)
}

/// The contents of a list of forwarding rules.
pub open spec fn forwarder_views(v: Seq<PortForwarder>) -> Seq<crate::types::PortForwarderView> {
    v.map_values(|f: PortForwarder| f@)
}

impl View for ForwarderApp {
    type V = AppView;

    open spec fn view(&self) -> AppView {
        AppView {
            current_page: self.current_page,
            language: self.language,
            close_behavior: self.close_behavior,
            interfaces: network::interface_views(self.interfaces@),
            selected_wans: text::views(self.selected_wans@),
            lan_shares: share_views(self.lan_shares@),
            sys_active: self.sys_active,
            sys_status: self.sys_status@,
            system_report: match self.system_report {
                Some(r) => Some(r@),
                None => None,
            },
            refresh_interval: self.refresh_interval,
            port_forwarders: forwarder_views(self.port_forwarders@),
        }
    }
}

/// What the program around the state is asked to do after an event.
pub enum Command {
    /// Nothing.
    Nothing,
    /// Close the window and end the program.
    CloseWindow,
    /// Show the window again.
    RestoreWindow,
    /// Hide the window to the tray.
    HideToTray,
    /// Run these commands as root, then end the program.
    StopSharingThenExit(Vec<String>),
    /// Run these commands as root and report the outcome as
    /// `SysForwardingResult(index, target, ..)`.
    RunShareCommands { index: usize, target: bool, commands: Vec<String> },
    /// Read a fresh system report and hand it back as `SystemReportReceived`.
    FetchSystemReport,
    /// Start forwarding `src_addr:src_port` to `dst_addr:dst_port` for the
    /// rule `id`, and report its end as `PortForwardingResult(id, ..)`.
    StartForwarder {
        id: u128,
        protocol: Protocol,
        src_addr: String,
        src_port: u16,
        dst_addr: String,
        dst_port: u16,
    },
    /// Let the user choose a file of rules to import.
    PickImportFile,
    /// Let the user choose where to export the rules.
    PickExportFile,
}

/// The effects of one event: a command, the rule whose running forwarder
/// must be told to stop, and whether the configuration must be saved.
pub struct Outcome {
    pub command: Command,
    pub stop_forwarder: Option<u128>,
    pub save_config: bool,
}

/// The text of `key` in `lang`.
pub open spec fn tr(lang: Language, key: Seq<char>) -> Seq<char> {
    i18n::translate(lang, key)
}

/// The status of a rule read from a saved or imported configuration.
pub open spec fn imported_status(lang: Language) -> Seq<char> {
    tr(lang, "status_ready"@) + " ("@ + tr(lang, "status_imported"@) + ")"@
}

/// An error message as it is shown: the word for "error", a colon, the error.
pub open spec fn error_text(lang: Language, e: Seq<char>) -> Seq<char> {
    i18n::in_language(lang, "错误"@, "Error"@) + ": "@ + e
}

/// The content of a rule read from a configuration, with identity `id`.
pub open spec fn imported_forwarder(
    c: crate::types::PortForwarderConfigView,
    id: u128,
    lang: Language,
) -> crate::types::PortForwarderView {
    crate::types::PortForwarderView {
        id,
        protocol: c.protocol,
        src_addr: c.src_addr,
        src_port: c.src_port,
        dst_addr: c.dst_addr,
        dst_port: c.dst_port,
        is_active: false,
        status: imported_status(lang),
    }
}

/// `fs` ends with the rules of `cs` as read from a configuration, whatever
/// their identities, after the first `start` rules.
pub open spec fn ends_with_imported(
    fs: Seq<crate::types::PortForwarderView>,
    start: int,
    cs: Seq<crate::types::PortForwarderConfigView>,
    lang: Language,
) -> bool {
    &&& fs.len() == start + cs.len()
    &&& forall|k: int|
        0 <= k < cs.len() ==> #[trigger] fs[start + k] == imported_forwarder(cs[k], fs[start + k].id, lang)
}

/// The status of the whole sharing when it is on or off.
pub open spec fn sharing_status(lang: Language, active: bool) -> Seq<char> {
    if active {
        tr(lang, "status_active"@)
    } else {
        tr(lang, "status_ready"@)
    }
}

/// A new LAN share: default configuration, not shared, ready.
pub open spec fn new_lan_share(lang: Language) -> crate::types::LanShareView {
    crate::types::LanShareView {
        config: crate::types::default_lan_share_config(),
        is_active: false,
        status: tr(lang, "status_ready"@),
    }
}

/// The saved form of a forwarding rule.
pub open spec fn saved_forwarder(f: crate::types::PortForwarderView) -> crate::types::PortForwarderConfigView {
    crate::types::PortForwarderConfigView {
        protocol: f.protocol,
        src_addr: f.src_addr,
        src_port: f.src_port,
        dst_addr: f.dst_addr,
        dst_port: f.dst_port,
    }
}

/// The status text of `key`, as an owned string.
fn status_text(lang: Language, key: &str) -> (r: String)
    ensures
        r@ == tr(lang, key@),
{
    String::from_str(lang.get(key))
}

fn imported_status_text(lang: Language) -> (r: String)
    ensures
        r@ == imported_status(lang),
{
    let mut s = String::from_str(lang.get("status_ready"));
    s.append(" (");
    s.append(lang.get("status_imported"));
    s.append(")");
    s
}

fn error_status_text(lang: Language, e: &String) -> (r: String)
    ensures
        r@ == error_text(lang, e@),
{
    let mut s = match lang {
        Language::Chinese => String::from_str("错误"),
        Language::English => String::from_str("Error"),
    };
    s.append(": ");
    s.append(e.as_str());
    s
}

/// Appends the rules of `configs` as read from a configuration, each with a
/// fresh random identity.
fn push_imported(forwarders: &mut Vec<PortForwarder>, configs: &Vec<PortForwarderConfig>, lang: Language)
    ensures
        forwarder_views(final(forwarders)@).take(old(forwarders)@.len() as int) == forwarder_views(
            old(forwarders)@,
        ),
        ends_with_imported(
            forwarder_views(final(forwarders)@),
            old(forwarders)@.len() as int,
            configs@.map_values(|c: PortForwarderConfig| c@),
            lang,
        ),
{
    let ghost start = forwarder_views(forwarders@);
    let ghost cs = configs@.map_values(|c: PortForwarderConfig| c@);
    let mut i: usize = 0;
    while i < configs.len()
        invariant
            i <= configs@.len(),
            cs == configs@.map_values(|c: PortForwarderConfig| c@),
            forwarder_views(forwarders@).take(start.len() as int) == start,
            ends_with_imported(forwarder_views(forwarders@), start.len() as int, cs.take(i as int), lang),
        decreases configs@.len() - i,
    {
        let c = &configs[i];
        let f = PortForwarder {
            id: new_forwarder_id(),
            protocol: c.protocol,
            src_addr: c.src_addr.clone(),
            src_port: c.src_port.clone(),
            dst_addr: c.dst_addr.clone(),
            dst_port: c.dst_port.clone(),
            is_active: false,
            status: imported_status_text(lang),
        };
        let ghost before = forwarder_views(forwarders@);
        forwarders.push(f);
        proof {
            let after = forwarder_views(forwarders@);
            assert(after == before.push(f@));
            assert(after.take(start.len() as int) == before.take(start.len() as int));
            assert forall|k: int| 0 <= k < cs.take(i + 1).len() implies #[trigger] after[start.len() + k]
                == imported_forwarder(cs.take(i + 1)[k], after[start.len() + k].id, lang) by {
                if k < i {
                    assert(after[start.len() + k] == before[start.len() + k]);
                    assert(cs.take(i + 1)[k] == cs.take(i as int)[k]);
                }
            }
        }
        i += 1;
    }
    assert(cs.take(cs.len() as int) == cs);
}

impl ForwarderApp {
    /// The state at start: the offered interfaces among `interfaces`, the
    /// sharing detected from `report`, the language, close behavior and rules
    /// of `cfg` (each rule with a fresh identity, not running), and one new
    /// LAN share.
    pub fn new(cfg: &AppConfig, interfaces: &Vec<InterfaceInfo>, report: SystemReport) -> (r: Self)
        ensures
            r@.current_page == Page::SystemForward,
            r@.language == cfg.language,
            r@.close_behavior == cfg.close_behavior,
            r@.interfaces == network::interface_views(network::offered_interfaces(interfaces@)),
            r@.selected_wans == network::masqueraded_wans(report@.nat_masquerade),
            r@.sys_active == (report@.ip_forward_enabled && r@.selected_wans.len() > 0),
            r@.sys_status == sharing_status(cfg.language, r@.sys_active),
            r@.lan_shares == seq![new_lan_share(cfg.language)],
            r@.system_report == Some(report@),
            r@.refresh_interval == 1,
            ends_with_imported(r@.port_forwarders, 0, cfg@.forwarders, cfg.language),
    {
        let offered = network::filter_interfaces(interfaces);
        let (sys_active, active_wans, _) = network::detect_system_forward_status(&report);
        let lang = cfg.language;
        let mut port_forwarders: Vec<PortForwarder> = Vec::new();
        push_imported(&mut port_forwarders, &cfg.forwarders, lang);
        let mut lan_shares: Vec<LanShare> = Vec::new();
        lan_shares.push(
            LanShare {
                config: LanShareConfig::default(),
                is_active: false,
                status: status_text(lang, "status_ready"),
            },
        );
        let sys_status = if sys_active {
            status_text(lang, "status_active")
        } else {
            status_text(lang, "status_ready")
        };
        let r = ForwarderApp {
            current_page: Page::SystemForward,
            language: lang,
            close_behavior: cfg.close_behavior,
            interfaces: offered,
            selected_wans: active_wans,
            lan_shares,
            sys_active,
            sys_status,
            system_report: Some(report),
            refresh_interval: 1,
            port_forwarders,
        };
        assert(r@.lan_shares =~= seq![new_lan_share(cfg.language)]);
        assert(forwarder_views(r.port_forwarders@).take(0) =~= Seq::<crate::types::PortForwarderView>::empty());
        r
    }

    /// The configuration to save: language, close behavior, the rules
    /// without their identity and status, and the configurations of the LAN
    /// shares.
    pub fn config(&self) -> (r: AppConfig)
        ensures
            r@.language == self@.language,
            r@.close_behavior == self@.close_behavior,
            r@.forwarders == self@.port_forwarders.map_values(
                |f: crate::types::PortForwarderView| saved_forwarder(f),
            ),
            r@.lan_shares == self@.lan_shares.map_values(|s: crate::types::LanShareView| s.config),
    {
        let mut forwarders: Vec<PortForwarderConfig> = Vec::new();
        let mut i: usize = 0;
        while i < self.port_forwarders.len()
            invariant
                i <= self.port_forwarders@.len(),
                forwarders@.map_values(|c: PortForwarderConfig| c@) == forwarder_views(
                    self.port_forwarders@,
                ).take(i as int).map_values(|f: crate::types::PortForwarderView| saved_forwarder(f)),
            decreases self.port_forwarders@.len() - i,
        {
            let f = &self.port_forwarders[i];
            let ghost before = forwarders@;
            forwarders.push(
                PortForwarderConfig {
                    protocol: f.protocol,
                    src_addr: f.src_addr.clone(),
                    src_port: f.src_port.clone(),
                    dst_addr: f.dst_addr.clone(),
                    dst_port: f.dst_port.clone(),
                },
            );
            assert(forwarders@.map_values(|c: PortForwarderConfig| c@) =~= before.map_values(
                |c: PortForwarderConfig| c@,
            ).push(saved_forwarder(f@)));
            assert(forwarder_views(self.port_forwarders@).take(i + 1) =~= forwarder_views(
                self.port_forwarders@,
            ).take(i as int).push(f@));
            i += 1;
        }
        let mut lan_shares: Vec<LanShareConfig> = Vec::new();
        let mut j: usize = 0;
        while j < self.lan_shares.len()
            invariant
                j <= self.lan_shares@.len(),
                lan_shares@.map_values(|c: LanShareConfig| c@) == share_views(self.lan_shares@).take(
                    j as int,
                ).map_values(|s: crate::types::LanShareView| s.config),
            decreases self.lan_shares@.len() - j,
        {
            let ghost before = lan_shares@;
            let c = self.lan_shares[j].config.clone();
            lan_shares.push(c);
            assert(lan_shares@.map_values(|c: LanShareConfig| c@) =~= before.map_values(
                |c: LanShareConfig| c@,
            ).push(self.lan_shares@[j as int]@.config));
            assert(share_views(self.lan_shares@).take(j + 1) =~= share_views(self.lan_shares@).take(
                j as int,
            ).push(self.lan_shares@[j as int]@));
            j += 1;
        }
        assert(forwarder_views(self.port_forwarders@).take(self.port_forwarders@.len() as int)
            == forwarder_views(self.port_forwarders@));
        assert(share_views(self.lan_shares@).take(self.lan_shares@.len() as int) == share_views(
            self.lan_shares@,
        ));
        AppConfig { language: self.language, close_behavior: self.close_behavior, forwarders, lan_shares }
    }
}


/// `i` is the first position of a rule with identity `id` in `fs`.
pub open spec fn is_first_with_id(fs: Seq<crate::types::PortForwarderView>, id: u128, i: int) -> bool {
    &&& 0 <= i < fs.len()
    &&& fs[i].id == id
    &&& forall|j: int| 0 <= j < i ==> fs[j].id != id
}

/// The position of the first rule with identity `id`, if there is one.
pub open spec fn position_of_id(fs: Seq<crate::types::PortForwarderView>, id: u128) -> Option<int> {
    if exists|i: int| is_first_with_id(fs, id, i) {
        Some(choose|i: int| is_first_with_id(fs, id, i))
    } else {
        None
    }
}

/// No two forwarding rules have the same identity.
pub open spec fn ids_distinct(fs: Seq<crate::types::PortForwarderView>) -> bool {
    forall|i: int, j: int| 0 <= i < j < fs.len() ==> fs[i].id != fs[j].id
}

/// There is at most one first position of an identity.
pub proof fn lemma_first_position_unique(fs: Seq<crate::types::PortForwarderView>, id: u128, a: int, b: int)
    requires
        is_first_with_id(fs, id, a),
        is_first_with_id(fs, id, b),
    ensures
        a == b,
{
    if a < b {
        assert(fs[a].id != id);
    } else if b < a {
        assert(fs[b].id != id);
    }
}

/// `fs` with `g` applied to the first rule with identity `id`, if any.
pub open spec fn edit_rule(
    fs: Seq<crate::types::PortForwarderView>,
    id: u128,
    g: spec_fn(crate::types::PortForwarderView) -> crate::types::PortForwarderView,
) -> Seq<crate::types::PortForwarderView> {
    match position_of_id(fs, id) {
        Some(i) => fs.update(i, g(fs[i])),
        None => fs,
    }
}

/// The effects are only `save` or not: no command, no forwarder to stop.
pub open spec fn only_saves(out: Outcome, save: bool) -> bool {
    &&& out.command is Nothing
    &&& out.stop_forwarder is None
    &&& out.save_config == save
}

/// The effects are only the command `pred` holds of.
pub open spec fn only_command(out: Outcome, pred: spec_fn(Command) -> bool) -> bool {
    &&& pred(out.command)
    &&& out.stop_forwarder is None
    &&& !out.save_config
}

/// `wans` with `name` chosen (added) or not chosen (every occurrence removed).
pub open spec fn toggled(wans: Seq<Seq<char>>, name: Seq<char>, chosen: bool) -> Seq<Seq<char>> {
    if chosen {
        wans.push(name)
    } else {
        wans.filter(|n: Seq<char>| n != name)
    }
}

/// A LAN share with the outgoing interface `name` chosen (added once) or not
/// chosen (removed).
pub open spec fn share_with_wan(s: crate::types::LanShareView, name: Seq<char>, chosen: bool) -> crate::types::LanShareView {
    let wans = s.config.wans;
    let new_wans = if chosen {
        if wans.contains(name) {
            wans
        } else {
            wans.push(name)
        }
    } else {
        wans.filter(|n: Seq<char>| n != name)
    };
    crate::types::LanShareView {
        config: crate::types::LanShareConfigView { wans: new_wans, ..s.config },
        ..s
    }
}

/// The LAN shares with the field `field` ("interface", "ip" or "mask") of
/// share `idx` set to `value`; unchanged for another field or index.
pub open spec fn with_share_field(
    shares: Seq<crate::types::LanShareView>,
    idx: usize,
    field: Seq<char>,
    value: Seq<char>,
) -> Seq<crate::types::LanShareView> {
    if idx < shares.len() {
        let s = shares[idx as int];
        if field == "interface"@ {
            shares.update(idx as int, crate::types::LanShareView {
                config: crate::types::LanShareConfigView { interface: value, ..s.config },
                ..s
            })
        } else if field == "ip"@ {
            shares.update(idx as int, crate::types::LanShareView {
                config: crate::types::LanShareConfigView { ip: value, ..s.config },
                ..s
            })
        } else if field == "mask"@ {
            shares.update(idx as int, crate::types::LanShareView {
                config: crate::types::LanShareConfigView { mask: value, ..s.config },
                ..s
            })
        } else {
            shares
        }
    } else {
        shares
    }
}

/// A LAN share as its commands take it: its own outgoing interfaces, or the
/// globally selected ones when it has none.
pub open spec fn share_of(s: crate::types::LanShareView, selected: Seq<Seq<char>>) -> network::ShareView {
    (s.config.interface, s.config.ip, s.config.mask, if s.config.wans.len() == 0 {
        selected
    } else {
        s.config.wans
    })
}

/// All LAN shares as their commands take them.
pub open spec fn all_shares(old: AppView) -> Seq<network::ShareView> {
    old.lan_shares.map_values(|s: crate::types::LanShareView| share_of(s, old.selected_wans))
}

/// The LAN shares with an interface, as their commands take them: those
/// that are stopped when the program quits.
pub open spec fn configured_shares(old: AppView) -> Seq<network::ShareView> {
    old.lan_shares.filter(|s: crate::types::LanShareView| s.config.interface.len() > 0).map_values(
        |s: crate::types::LanShareView| share_of(s, old.selected_wans),
    )
}

/// What closing the window asks for: hiding to the tray, or stopping the
/// configured shares and then quitting, or quitting at once when there is
/// none.
pub open spec fn closes(old: AppView, out: Outcome) -> bool {
    &&& out.stop_forwarder is None
    &&& !out.save_config
    &&& if old.close_behavior == CloseBehavior::Minimize {
        out.command is HideToTray
    } else if configured_shares(old).len() > 0 {
        match out.command {
            Command::StopSharingThenExit(cmds) => text::views(cmds@) == network::stop_commands(
                configured_shares(old),
            ),
            _ => false,
        }
    } else {
        out.command is CloseWindow
    }
}

/// The commands that start (`start`) or stop the shares `shares`, to be run
/// with the outcome reported for `index` and `target`.
pub open spec fn runs_share_commands(
    cmd: Command,
    index: usize,
    target: bool,
    shares: Seq<network::ShareView>,
) -> bool {
    match cmd {
        Command::RunShareCommands { index: i, target: t, commands } => {
            &&& i == index
            &&& t == target
            &&& text::views(commands@) == if target {
                network::start_commands(shares)
            } else {
                network::stop_commands(shares)
            }
        },
        _ => false,
    }
}

/// Toggling one LAN share: starting it is refused with a message in its
/// status when it has no interface, or no outgoing interface (neither its
/// own nor selected ones); otherwise its status says it is starting or
/// stopping, and its commands are asked for. An unknown index changes
/// nothing.
pub open spec fn toggles_share(old: AppView, idx: usize, new: AppView, out: Outcome) -> bool {
    if idx < old.lan_shares.len() {
        let s = old.lan_shares[idx as int];
        let share = share_of(s, old.selected_wans);
        if !s.is_active && (share.0.len() == 0 || share.3.len() == 0) {
            &&& new == AppView {
                lan_shares: old.lan_shares.update(idx as int, crate::types::LanShareView {
                    status: tr(old.language, if share.0.len() == 0 {
                        "msg_select_lan"@
                    } else {
                        "msg_select_wan"@
                    }),
                    ..s
                }),
                ..old
            }
            &&& only_saves(out, false)
        } else {
            &&& new == AppView {
                lan_shares: old.lan_shares.update(idx as int, crate::types::LanShareView {
                    status: tr(old.language, if s.is_active {
                        "msg_stopping"@
                    } else {
                        "msg_starting"@
                    }),
                    ..s
                }),
                ..old
            }
            &&& out.stop_forwarder is None
            &&& !out.save_config
            &&& runs_share_commands(out.command, idx, !s.is_active, seq![share])
        }
    } else {
        new == old && only_saves(out, false)
    }
}

/// Toggling all sharing: refused with a message when a share has no
/// interface (or there is none), or when no share has an outgoing
/// interface; otherwise the status says it is starting or stopping and the
/// commands of all shares are asked for.
pub open spec fn toggles_sharing(old: AppView, new: AppView, out: Outcome) -> bool {
    let shares = all_shares(old);
    if shares.len() == 0 || exists|i: int| 0 <= i < shares.len() && #[trigger] shares[i].0.len() == 0 {
        new == AppView { sys_status: tr(old.language, "msg_select_lan"@), ..old } && only_saves(out, false)
    } else if forall|i: int| 0 <= i < shares.len() ==> #[trigger] shares[i].3.len() == 0 {
        new == AppView { sys_status: tr(old.language, "msg_select_wan"@), ..old } && only_saves(out, false)
    } else {
        &&& new == AppView {
            sys_status: tr(old.language, if old.sys_active {
                "msg_stopping"@
            } else {
                "msg_starting"@
            }),
            ..old
        }
        &&& out.stop_forwarder is None
        &&& !out.save_config
        &&& runs_share_commands(out.command, usize::MAX, !old.sys_active, shares)
    }
}

/// The state after the commands for `idx` (all sharing when it is
/// `usize::MAX`) ended with `res`, aiming at the sharing state `target`.
pub open spec fn after_sharing_result(old: AppView, idx: usize, target: bool, res: Result<(), String>) -> AppView {
    match res {
        Ok(_) => if idx == usize::MAX {
            AppView {
                sys_active: target,
                sys_status: tr(old.language, if target {
                    "msg_active_bang"@
                } else {
                    "msg_stopped"@
                }),
                ..old
            }
        } else if idx < old.lan_shares.len() {
            AppView {
                lan_shares: old.lan_shares.update(idx as int, crate::types::LanShareView {
                    is_active: target,
                    status: tr(old.language, if target {
                        "status_running"@
                    } else {
                        "status_stopped"@
                    }),
                    ..old.lan_shares[idx as int]
                }),
                ..old
            }
        } else {
            old
        },
        Err(e) => if idx == usize::MAX {
            AppView { sys_status: error_text(old.language, e@), ..old }
        } else if idx < old.lan_shares.len() {
            AppView {
                lan_shares: old.lan_shares.update(idx as int, crate::types::LanShareView {
                    status: error_text(old.language, e@),
                    ..old.lan_shares[idx as int]
                }),
                ..old
            }
        } else {
            old
        },
    }
}

/// The state after a detection on the report `r`: a failed read of iptables
/// is only reported; otherwise the sharing state and status follow the
/// report, and the masqueraded interfaces become the selected ones when
/// sharing is on.
pub open spec fn after_detection(old: AppView, r: network::SystemReportView) -> AppView {
    let wans = network::masqueraded_wans(r.nat_masquerade);
    let active = r.ip_forward_enabled && wans.len() > 0;
    if r.iptables_failed {
        AppView { sys_status: tr(old.language, "msg_det_failed"@), ..old }
    } else {
        AppView {
            sys_active: active,
            selected_wans: if active && wans.len() > 0 {
                wans
            } else {
                old.selected_wans
            },
            sys_status: sharing_status(old.language, active),
            ..old
        }
    }
}

/// A new forwarding rule: TCP from 0.0.0.0 to 127.0.0.1, ports empty, not
/// running, ready.
pub open spec fn new_forwarder(id: u128, lang: Language) -> crate::types::PortForwarderView {
    crate::types::PortForwarderView {
        id,
        protocol: Protocol::Tcp,
        src_addr: "0.0.0.0"@,
        src_port: Seq::empty(),
        dst_addr: "127.0.0.1"@,
        dst_port: Seq::empty(),
        is_active: false,
        status: tr(lang, "status_ready"@),
    }
}

/// Removing the rule `id`: its running forwarder is told to stop.
pub open spec fn removes_forwarder(old: AppView, id: u128, new: AppView, out: Outcome) -> bool {
    &&& out.command is Nothing
    &&& out.save_config
    &&& match position_of_id(old.port_forwarders, id) {
        Some(i) => {
            &&& new == AppView { port_forwarders: old.port_forwarders.remove(i), ..old }
            &&& out.stop_forwarder == if old.port_forwarders[i].is_active {
                Some(id)
            } else {
                None
            }
        },
        None => new == old && out.stop_forwarder is None,
    }
}

/// Toggling the rule `id`: a running rule is stopped; a stopped one starts
/// when both ports parse, and otherwise shows that a port is invalid.
pub open spec fn toggles_forwarder(old: AppView, id: u128, new: AppView, out: Outcome) -> bool {
    &&& !out.save_config
    &&& match position_of_id(old.port_forwarders, id) {
        None => new == old && out.command is Nothing && out.stop_forwarder is None,
        Some(i) => {
            let f = old.port_forwarders[i];
            if f.is_active {
                &&& new == AppView {
                    port_forwarders: old.port_forwarders.update(i, crate::types::PortForwarderView {
                        is_active: false,
                        status: tr(old.language, "status_stopped"@),
                        ..f
                    }),
                    ..old
                }
                &&& out.stop_forwarder == Some(id)
                &&& out.command is Nothing
            } else {
                match (text::parse_u16_spec(f.src_port), text::parse_u16_spec(f.dst_port)) {
                    (Some(sp), Some(dp)) => {
                        &&& new == AppView {
                            port_forwarders: old.port_forwarders.update(i, crate::types::PortForwarderView {
                                is_active: true,
                                status: tr(old.language, "status_running"@),
                                ..f
                            }),
                            ..old
                        }
                        &&& out.stop_forwarder is None
                        &&& match out.command {
                            Command::StartForwarder { id: cid, protocol, src_addr, src_port, dst_addr, dst_port } => {
                                &&& cid == id
                                &&& protocol == f.protocol
                                &&& src_addr@ == f.src_addr
                                &&& src_port == sp
                                &&& dst_addr@ == f.dst_addr
                                &&& dst_port == dp
                            },
                            _ => false,
                        }
                    },
                    _ => {
                        &&& new == AppView {
                            port_forwarders: old.port_forwarders.update(i, crate::types::PortForwarderView {
                                status: tr(old.language, "status_invalid_port"@),
                                ..f
                            }),
                            ..old
                        }
                        &&& out.command is Nothing
                        &&& out.stop_forwarder is None
                    },
                }
            }
        },
    }
}

/// The rules after the forwarder of `id` ended with `res`: an error stops
/// the rule and is shown.
pub open spec fn after_forwarder_result(old: AppView, id: u128, res: Result<(), String>) -> Seq<crate::types::PortForwarderView> {
    match res {
        Err(e) => edit_rule(old.port_forwarders, id, |f: crate::types::PortForwarderView| crate::types::PortForwarderView {
            is_active: false,
            status: error_text(old.language, e@),
            ..f
        }),
        Ok(_) => old.port_forwarders,
    }
}

/// A rule's status shown again in `lang`: running, stopped after an error,
/// or ready.
pub open spec fn relabeled(f: crate::types::PortForwarderView, lang: Language) -> crate::types::PortForwarderView {
    crate::types::PortForwarderView {
        status: if f.is_active {
            tr(lang, "status_running"@)
        } else if text::contains_seq(f.status, "Error"@) || text::contains_seq(f.status, "错误"@) {
            tr(lang, "status_stopped"@)
        } else {
            tr(lang, "status_ready"@)
        },
        ..f
    }
}

/// What one event does: `new` is the state after `msg` in state `old`, and
/// `out` the effects asked for.
pub open spec fn step(old: AppView, msg: Message, new: AppView, out: Outcome) -> bool {
    match msg {
        Message::SwitchPage(p) => new == AppView { current_page: p, ..old } && only_saves(out, false),
        Message::SetCloseBehavior(b) => new == AppView { close_behavior: b, ..old } && only_saves(out, true),
        Message::CloseRequested => new == old && closes(old, out),
        Message::TrayClicked => new == old && only_command(out, |c: Command| c is RestoreWindow),
        Message::WanToggled(name, chosen) => {
            &&& new == AppView { selected_wans: toggled(old.selected_wans, name@, chosen), ..old }
            &&& only_saves(out, false)
        },
        Message::AddLanShare => {
            &&& new == AppView { lan_shares: old.lan_shares.push(new_lan_share(old.language)), ..old }
            &&& only_saves(out, true)
        },
        Message::RemoveLanShare(idx) => {
            &&& new == AppView {
                lan_shares: if idx < old.lan_shares.len() {
                    old.lan_shares.remove(idx as int)
                } else {
                    old.lan_shares
                },
                ..old
            }
            &&& only_saves(out, true)
        },
        Message::UpdateLanShare(idx, field, value) => {
            &&& new == AppView { lan_shares: with_share_field(old.lan_shares, idx, field@, value@), ..old }
            &&& only_saves(out, true)
        },
        Message::LanWanToggled(idx, name, chosen) => {
            &&& new == AppView {
                lan_shares: if idx < old.lan_shares.len() {
                    old.lan_shares.update(idx as int, share_with_wan(old.lan_shares[idx as int], name@, chosen))
                } else {
                    old.lan_shares
                },
                ..old
            }
            &&& only_saves(out, true)
        },
        Message::ToggleLanShare(idx) => toggles_share(old, idx, new, out),
        Message::ToggleSysForwarding => toggles_sharing(old, new, out),
        Message::SysForwardingResult(idx, target, res) => {
            new == after_sharing_result(old, idx, target, res) && only_saves(out, false)
        },
        Message::DetectSystemForward(r) => new == after_detection(old, r@) && only_saves(out, false),
        Message::RefreshInterfaces => {
            &&& new == AppView { interfaces: new.interfaces, ..old }
            &&& exists|raw: Seq<InterfaceInfo>|
                new.interfaces == network::interface_views(#[trigger] network::offered_interfaces(raw))
            &&& forall|i: int|
                0 <= i < new.interfaces.len() ==> network::interface_is_offered(#[trigger] new.interfaces[i].name)
            &&& only_saves(out, false)
        },
        Message::RefreshSystemReport => new == old && only_command(out, |c: Command| c is FetchSystemReport),
        Message::SystemReportReceived(r) => {
            new == AppView { system_report: Some(r@), ..old } && only_saves(out, false)
        },
        Message::SetRefreshInterval(secs) => {
            new == AppView { refresh_interval: secs, ..old } && only_saves(out, false)
        },
        Message::AddForwarder => {
            &&& new == AppView {
                port_forwarders: old.port_forwarders.push(
                    new_forwarder(new.port_forwarders.last().id, old.language),
                ),
                ..old
            }
            &&& is_random_identity(new.port_forwarders.last().id)
            &&& only_saves(out, true)
        },
        Message::RemoveForwarder(id) => removes_forwarder(old, id, new, out),
        Message::SrcAddrChanged(id, v) => {
            &&& new == AppView {
                port_forwarders: edit_rule(old.port_forwarders, id, |f: crate::types::PortForwarderView|
                    crate::types::PortForwarderView { src_addr: v@, ..f }),
                ..old
            }
            &&& only_saves(out, true)
        },
        Message::SrcPortChanged(id, v) => {
            &&& new == AppView {
                port_forwarders: edit_rule(old.port_forwarders, id, |f: crate::types::PortForwarderView|
                    crate::types::PortForwarderView { src_port: v@, ..f }),
                ..old
            }
            &&& only_saves(out, true)
        },
        Message::DstAddrChanged(id, v) => {
            &&& new == AppView {
                port_forwarders: edit_rule(old.port_forwarders, id, |f: crate::types::PortForwarderView|
                    crate::types::PortForwarderView { dst_addr: v@, ..f }),
                ..old
            }
            &&& only_saves(out, true)
        },
        Message::DstPortChanged(id, v) => {
            &&& new == AppView {
                port_forwarders: edit_rule(old.port_forwarders, id, |f: crate::types::PortForwarderView|
                    crate::types::PortForwarderView { dst_port: v@, ..f }),
                ..old
            }
            &&& only_saves(out, true)
        },
        Message::ProtocolChanged(id, p) => {
            &&& new == AppView {
                port_forwarders: edit_rule(old.port_forwarders, id, |f: crate::types::PortForwarderView|
                    crate::types::PortForwarderView { protocol: p, ..f }),
                ..old
            }
            &&& only_saves(out, true)
        },
        Message::TogglePortForwarding(id) => toggles_forwarder(old, id, new, out),
        Message::PortForwardingResult(id, res) => {
            &&& new == AppView { port_forwarders: after_forwarder_result(old, id, res), ..old }
            &&& only_saves(out, false)
        },
        Message::ImportConfig => new == old && only_command(out, |c: Command| c is PickImportFile),
        Message::ConfigFileSelected(configs) => {
            &&& only_saves(out, configs is Some)
            &&& match configs {
                Some(cs) => {
                    &&& new == AppView { port_forwarders: new.port_forwarders, ..old }
                    &&& new.port_forwarders.take(old.port_forwarders.len() as int) == old.port_forwarders
                    &&& ends_with_imported(
                        new.port_forwarders,
                        old.port_forwarders.len() as int,
                        cs@.map_values(|c: PortForwarderConfig| c@),
                        old.language,
                    )
                },
                None => new == old,
            }
        },
        Message::ExportConfig => new == old && only_command(out, |c: Command| c is PickExportFile),
        Message::LanguageChanged(lang) => {
            &&& new == AppView {
                language: lang,
                sys_status: sharing_status(lang, old.sys_active),
                port_forwarders: old.port_forwarders.map_values(
                    |f: crate::types::PortForwarderView| relabeled(f, lang),
                ),
                ..old
            }
            &&& only_saves(out, true)
        },
        Message::Exit => new == old && only_command(out, |c: Command| c is CloseWindow),
    }
}


/// A copy of a forwarding rule.
fn copy_forwarder(f: &PortForwarder) -> (r: PortForwarder)
    ensures
        r@ == f@,
{
    PortForwarder {
        id: f.id,
        protocol: f.protocol,
        src_addr: f.src_addr.clone(),
        src_port: f.src_port.clone(),
        dst_addr: f.dst_addr.clone(),
        dst_port: f.dst_port.clone(),
        is_active: f.is_active,
        status: f.status.clone(),
    }
}

/// A copy of a LAN share.
fn copy_share(s: &LanShare) -> (r: LanShare)
    ensures
        r@ == s@,
{
    LanShare { config: s.config.clone(), is_active: s.is_active, status: s.status.clone() }
}

/// Whether `name` is among `v`.
fn contains_name(v: &Vec<String>, name: &String) -> (r: bool)
    ensures
        r == text::views(v@).contains(name@),
{
    let mut i: usize = 0;
    while i < v.len()
        invariant
            i <= v@.len(),
            forall|j: int| 0 <= j < i ==> v@[j]@ != name@,
        decreases v@.len() - i,
    {
        if v[i] == *name {
            assert(text::views(v@)[i as int] == name@);
            return true;
        }
        i += 1;
    }
    assert(!text::views(v@).contains(name@)) by {
        if text::views(v@).contains(name@) {
            let k = choose|k: int| 0 <= k < text::views(v@).len() && text::views(v@)[k] == name@;
            assert(v@[k]@ == name@);
        }
    }
    false
}

/// `v` without the occurrences of `name`.
fn without_name(v: &Vec<String>, name: &String) -> (r: Vec<String>)
    ensures
        text::views(r@) == text::views(v@).filter(|n: Seq<char>| n != name@),
{
    let ghost p = |n: Seq<char>| n != name@;
    let ghost vs = text::views(v@);
    let mut r: Vec<String> = Vec::new();
    let mut i: usize = 0;
    while i < v.len()
        invariant
            i <= v@.len(),
            vs == text::views(v@),
            p == (|n: Seq<char>| n != name@),
            text::views(r@) == vs.take(i as int).filter(p),
        decreases v@.len() - i,
    {
        proof {
            network::lemma_filter_take_step(vs, p, i as int);
        }
        if !(v[i] == *name) {
            let ghost before = r@;
            r.push(v[i].clone());
            assert(text::views(r@) == text::views(before).push(v@[i as int]@));
        }
        i += 1;
    }
    assert(vs.take(vs.len() as int) == vs);
    r
}

/// A LAN share as its commands take it, with `selected` when it has no
/// outgoing interface of its own.
fn share_spec_of(s: &LanShare, selected: &Vec<String>) -> (r: ShareSpec)
    ensures
        network::share_view(r) == share_of(s@, text::views(selected@)),
{
    let wans = if s.config.wans.len() == 0 {
        crate::types::clone_strings(selected)
    } else {
        crate::types::clone_strings(&s.config.wans)
    };
    (s.config.interface.clone(), s.config.ip.clone(), s.config.mask.clone(), wans)
}

impl ForwarderApp {
    /// The position of the first rule with identity `id`.
    pub fn find_forwarder(&self, id: u128) -> (r: Option<usize>)
        ensures
            match r {
                Some(i) => i < self.port_forwarders@.len() && position_of_id(self@.port_forwarders, id) == Some(i as int),
                None => position_of_id(self@.port_forwarders, id) is None,
            },
    {
        let ghost fs = self@.port_forwarders;
        let mut i: usize = 0;
        while i < self.port_forwarders.len()
            invariant
                i <= self.port_forwarders@.len(),
                fs == forwarder_views(self.port_forwarders@),
                forall|j: int| 0 <= j < i ==> fs[j].id != id,
            decreases self.port_forwarders@.len() - i,
        {
            if self.port_forwarders[i].id == id {
                assert(is_first_with_id(fs, id, i as int));
                let ghost c = choose|k: int| is_first_with_id(fs, id, k);
                assert(c == i) by {
                    if c < i {
                        assert(fs[c].id != id);
                    } else if c > i {
                        assert(fs[i as int].id != id);
                    }
                }
                return Some(i);
            }
            i += 1;
        }
        assert(!exists|k: int| is_first_with_id(fs, id, k));
        None
    }

    /// Replaces rule `i` by `f`.
    fn set_forwarder(&mut self, i: usize, f: PortForwarder)
        requires
            i < old(self).port_forwarders@.len(),
        ensures
            final(self)@ == (AppView {
                port_forwarders: old(self)@.port_forwarders.update(i as int, f@),
                ..old(self)@
            }),
    {
        self.port_forwarders.set(i, f);
        assert(forwarder_views(self.port_forwarders@) =~= old(self)@.port_forwarders.update(i as int, f@));
    }

    /// Replaces LAN share `i` by `s`.
    fn set_share(&mut self, i: usize, s: LanShare)
        requires
            i < old(self).lan_shares@.len(),
        ensures
            final(self)@ == (AppView { lan_shares: old(self)@.lan_shares.update(i as int, s@), ..old(self)@ }),
    {
        self.lan_shares.set(i, s);
        assert(share_views(self.lan_shares@) =~= old(self)@.lan_shares.update(i as int, s@));
    }

    /// Chooses or drops an outgoing interface for all sharing.
    pub fn toggle_wan(&mut self, name: String, chosen: bool)
        ensures
            final(self)@ == (AppView { selected_wans: toggled(old(self)@.selected_wans, name@, chosen), ..old(self)@ }),
    {
        if chosen {
            let ghost before = self.selected_wans@;
            self.selected_wans.push(name);
            assert(text::views(self.selected_wans@) == text::views(before).push(name@));
        } else {
            self.selected_wans = without_name(&self.selected_wans, &name);
        }
    }

    /// Chooses or drops an outgoing interface of LAN share `idx`.
    pub fn toggle_share_wan(&mut self, idx: usize, name: String, chosen: bool)
        ensures
            final(self)@ == (AppView {
                lan_shares: if idx < old(self)@.lan_shares.len() {
                    old(self)@.lan_shares.update(idx as int, share_with_wan(old(self)@.lan_shares[idx as int], name@, chosen))
                } else {
                    old(self)@.lan_shares
                },
                ..old(self)@
            }),
    {
        if idx < self.lan_shares.len() {
            let mut s = copy_share(&self.lan_shares[idx]);
            if chosen {
                if !contains_name(&s.config.wans, &name) {
                    let ghost before = s.config.wans@;
                    s.config.wans.push(name);
                    assert(text::views(s.config.wans@) == text::views(before).push(name@));
                }
            } else {
                s.config.wans = without_name(&s.config.wans, &name);
            }
            self.set_share(idx, s);
        }
    }

    /// Sets the field `field` ("interface", "ip" or "mask") of LAN share `idx`.
    pub fn update_share_field(&mut self, idx: usize, field: &str, value: String)
        ensures
            final(self)@ == (AppView {
                lan_shares: with_share_field(old(self)@.lan_shares, idx, field@, value@),
                ..old(self)@
            }),
    {
        if idx < self.lan_shares.len() {
            let mut s = copy_share(&self.lan_shares[idx]);
            if field.eq("interface") {
                s.config.interface = value;
                self.set_share(idx, s);
            } else if field.eq("ip") {
                s.config.ip = value;
                self.set_share(idx, s);
            } else if field.eq("mask") {
                s.config.mask = value;
                self.set_share(idx, s);
            }
        }
    }

    /// Toggles one LAN share: refuses to start it without an interface or an
    /// outgoing interface; otherwise marks it starting or stopping and asks
    /// for its commands.
    pub fn toggle_share(&mut self, idx: usize) -> (out: Outcome)
        ensures
            toggles_share(old(self)@, idx, final(self)@, out),
    {
        if idx < self.lan_shares.len() {
            let active = self.lan_shares[idx].is_active;
            let spec = share_spec_of(&self.lan_shares[idx], &self.selected_wans);
            let mut s = copy_share(&self.lan_shares[idx]);
            if !active && (spec.0.as_str().is_empty() || spec.3.len() == 0) {
                s.status = if spec.0.as_str().is_empty() {
                    status_text(self.language, "msg_select_lan")
                } else {
                    status_text(self.language, "msg_select_wan")
                };
                self.set_share(idx, s);
                return Outcome { command: Command::Nothing, stop_forwarder: None, save_config: false };
            }
            s.status = if active {
                status_text(self.language, "msg_stopping")
            } else {
                status_text(self.language, "msg_starting")
            };
            self.set_share(idx, s);
            let mut shares: Vec<ShareSpec> = Vec::new();
            shares.push(spec);
            assert(network::share_views(shares@) =~= seq![network::share_view(spec)]);
            let commands = if active {
                network::stop_system_forwarding(shares.as_slice())
            } else {
                network::start_system_forwarding(shares.as_slice())
            };
            Outcome {
                command: Command::RunShareCommands { index: idx, target: !active, commands },
                stop_forwarder: None,
                save_config: false,
            }
        } else {
            Outcome { command: Command::Nothing, stop_forwarder: None, save_config: false }
        }
    }

    /// All LAN shares as their commands take them.
    fn all_share_specs(&self) -> (r: Vec<ShareSpec>)
        ensures
            network::share_views(r@) == all_shares(self@),
    {
        let ghost target = all_shares(self@);
        let mut r: Vec<ShareSpec> = Vec::new();
        let mut i: usize = 0;
        while i < self.lan_shares.len()
            invariant
                i <= self.lan_shares@.len(),
                target == all_shares(self@),
                network::share_views(r@) == target.take(i as int),
            decreases self.lan_shares@.len() - i,
        {
            let spec = share_spec_of(&self.lan_shares[i], &self.selected_wans);
            let ghost before = r@;
            r.push(spec);
            assert(network::share_views(r@) == network::share_views(before).push(network::share_view(spec)));
            assert(target.take(i + 1) == target.take(i as int).push(target[i as int]));
            i += 1;
        }
        assert(target.take(target.len() as int) == target);
        r
    }

    /// The LAN shares with an interface, as their commands take them.
    fn configured_share_specs(&self) -> (r: Vec<ShareSpec>)
        ensures
            network::share_views(r@) == configured_shares(self@),
    {
        let ghost p = |s: crate::types::LanShareView| s.config.interface.len() > 0;
        let ghost g = |s: crate::types::LanShareView| share_of(s, self@.selected_wans);
        let ghost all = self@.lan_shares;
        let mut r: Vec<ShareSpec> = Vec::new();
        let mut i: usize = 0;
        while i < self.lan_shares.len()
            invariant
                i <= self.lan_shares@.len(),
                all == self@.lan_shares,
                p == (|s: crate::types::LanShareView| s.config.interface.len() > 0),
                g == (|s: crate::types::LanShareView| share_of(s, self@.selected_wans)),
                network::share_views(r@) == all.take(i as int).filter(p).map_values(g),
            decreases self.lan_shares@.len() - i,
        {
            proof {
                network::lemma_filter_take_step(all, p, i as int);
            }
            if !self.lan_shares[i].config.interface.as_str().is_empty() {
                let spec = share_spec_of(&self.lan_shares[i], &self.selected_wans);
                let ghost before = r@;
                r.push(spec);
                assert(network::share_views(r@) == network::share_views(before).push(network::share_view(spec)));
                assert(all.take(i as int).filter(p).push(all[i as int]).map_values(g)
                    == all.take(i as int).filter(p).map_values(g).push(g(all[i as int])));
            } else {
                assert(self@.lan_shares[i as int].config.interface.len() == 0);
            }
            i += 1;
        }
        assert(all.take(all.len() as int) == all);
        r
    }

    /// Toggles all sharing, after checking that every share has an interface
    /// and some share has an outgoing interface.
    pub fn toggle_sharing(&mut self) -> (out: Outcome)
        ensures
            toggles_sharing(old(self)@, final(self)@, out),
    {
        let shares = self.all_share_specs();
        let ghost sv = network::share_views(shares@);
        let mut missing_lan = shares.len() == 0;
        let mut any_wan = false;
        let mut i: usize = 0;
        while i < shares.len()
            invariant
                i <= shares@.len(),
                sv == network::share_views(shares@),
                missing_lan == (shares@.len() == 0 || exists|j: int| 0 <= j < i && #[trigger] sv[j].0.len() == 0),
                any_wan == (exists|j: int| 0 <= j < i && #[trigger] sv[j].3.len() > 0),
            decreases shares@.len() - i,
        {
            assert(sv[i as int] == network::share_view(shares@[i as int]));
            if shares[i].0.as_str().is_empty() {
                missing_lan = true;
            }
            if shares[i].3.len() > 0 {
                any_wan = true;
            }
            proof {
                let k = i as int;
                assert(missing_lan == (shares@.len() == 0 || exists|j: int| 0 <= j < k + 1 && #[trigger] sv[j].0.len() == 0)) by {
                    if sv[k].0.len() == 0 {
                        assert(0 <= k < k + 1 && sv[k].0.len() == 0);
                    }
                }
                assert(any_wan == (exists|j: int| 0 <= j < k + 1 && #[trigger] sv[j].3.len() > 0)) by {
                    if sv[k].3.len() > 0 {
                        assert(0 <= k < k + 1 && sv[k].3.len() > 0);
                    }
                }
            }
            i += 1;
        }
        let lang = self.language;
        if missing_lan {
            self.sys_status = status_text(lang, "msg_select_lan");
            return Outcome { command: Command::Nothing, stop_forwarder: None, save_config: false };
        }
        if !any_wan {
            assert forall|j: int| 0 <= j < sv.len() implies #[trigger] sv[j].3.len() == 0 by {
                if sv[j].3.len() > 0 {
                    assert(exists|k: int| 0 <= k < i && #[trigger] sv[k].3.len() > 0);
                }
            }
            self.sys_status = status_text(lang, "msg_select_wan");
            return Outcome { command: Command::Nothing, stop_forwarder: None, save_config: false };
        }
        let active = self.sys_active;
        self.sys_status = if active {
            status_text(lang, "msg_stopping")
        } else {
            status_text(lang, "msg_starting")
        };
        let commands = if active {
            network::stop_system_forwarding(shares.as_slice())
        } else {
            network::start_system_forwarding(shares.as_slice())
        };
        Outcome {
            command: Command::RunShareCommands { index: usize::MAX, target: !active, commands },
            stop_forwarder: None,
            save_config: false,
        }
    }
}


impl ForwarderApp {
    /// Records the end of the commands for share `idx` (all sharing when it is
    /// `usize::MAX`) that aimed at the sharing state `target`.
    pub fn apply_sharing_result(&mut self, idx: usize, target: bool, res: Result<(), String>)
        ensures
            final(self)@ == after_sharing_result(old(self)@, idx, target, res),
    {
        let lang = self.language;
        match res {
            Ok(_) => {
                if idx == usize::MAX {
                    self.sys_active = target;
                    self.sys_status = if target {
                        status_text(lang, "msg_active_bang")
                    } else {
                        status_text(lang, "msg_stopped")
                    };
                } else if idx < self.lan_shares.len() {
                    let mut s = copy_share(&self.lan_shares[idx]);
                    s.is_active = target;
                    s.status = if target {
                        status_text(lang, "status_running")
                    } else {
                        status_text(lang, "status_stopped")
                    };
                    self.set_share(idx, s);
                }
            },
            Err(e) => {
                let msg = error_status_text(lang, &e);
                if idx == usize::MAX {
                    self.sys_status = msg;
                } else if idx < self.lan_shares.len() {
                    let mut s = copy_share(&self.lan_shares[idx]);
                    s.status = msg;
                    self.set_share(idx, s);
                }
            },
        }
    }

    /// Records a detection of the sharing state on `report`.
    pub fn apply_detection(&mut self, report: &SystemReport)
        ensures
            final(self)@ == after_detection(old(self)@, report@),
    {
        let (active, wans, failed) = network::detect_system_forward_status(report);
        let lang = self.language;
        if failed {
            self.sys_status = status_text(lang, "msg_det_failed");
        } else {
            self.sys_active = active;
            if active && wans.len() > 0 {
                self.selected_wans = wans;
            }
            self.sys_status = if active {
                status_text(lang, "status_active")
            } else {
                status_text(lang, "status_ready")
            };
        }
    }

    /// Shows the offered interfaces among `raw`.
    pub fn set_interfaces(&mut self, raw: &Vec<InterfaceInfo>)
        ensures
            final(self)@ == (AppView {
                interfaces: network::interface_views(network::offered_interfaces(raw@)),
                ..old(self)@
            }),
    {
        self.interfaces = network::filter_interfaces(raw);
    }

    /// Adds a new LAN share.
    pub fn add_lan_share(&mut self)
        ensures
            final(self)@ == (AppView {
                lan_shares: old(self)@.lan_shares.push(new_lan_share(old(self)@.language)),
                ..old(self)@
            }),
    {
        let s = LanShare {
            config: LanShareConfig::default(),
            is_active: false,
            status: status_text(self.language, "status_ready"),
        };
        let ghost before = self.lan_shares@;
        self.lan_shares.push(s);
        assert(share_views(self.lan_shares@) == share_views(before).push(s@));
    }

    /// Removes LAN share `idx`, if there is one.
    pub fn remove_lan_share(&mut self, idx: usize)
        ensures
            final(self)@ == (AppView {
                lan_shares: if idx < old(self)@.lan_shares.len() {
                    old(self)@.lan_shares.remove(idx as int)
                } else {
                    old(self)@.lan_shares
                },
                ..old(self)@
            }),
    {
        if idx < self.lan_shares.len() {
            let ghost before = self.lan_shares@;
            self.lan_shares.remove(idx);
            assert(share_views(self.lan_shares@) =~= share_views(before).remove(idx as int));
        }
    }

    /// Adds a new forwarding rule with a fresh random identity.
    pub fn add_forwarder(&mut self)
        ensures
            final(self)@ == (AppView {
                port_forwarders: old(self)@.port_forwarders.push(
                    new_forwarder(final(self)@.port_forwarders.last().id, old(self)@.language),
                ),
                ..old(self)@
            }),
            is_random_identity(final(self)@.port_forwarders.last().id),
    {
        let f = PortForwarder {
            id: new_forwarder_id(),
            protocol: Protocol::Tcp,
            src_addr: String::from_str("0.0.0.0"),
            src_port: String::new(),
            dst_addr: String::from_str("127.0.0.1"),
            dst_port: String::new(),
            is_active: false,
            status: status_text(self.language, "status_ready"),
        };
        let ghost before = self.port_forwarders@;
        self.port_forwarders.push(f);
        assert(forwarder_views(self.port_forwarders@) == forwarder_views(before).push(f@));
    }

    /// Removes the rule `id`; its forwarder is to be stopped when it runs.
    pub fn remove_forwarder(&mut self, id: u128) -> (out: Outcome)
        ensures
            removes_forwarder(old(self)@, id, final(self)@, out),
    {
        match self.find_forwarder(id) {
            Some(i) => {
                let active = self.port_forwarders[i].is_active;
                let ghost before = self.port_forwarders@;
                self.port_forwarders.remove(i);
                assert(forwarder_views(self.port_forwarders@) =~= forwarder_views(before).remove(i as int));
                Outcome {
                    command: Command::Nothing,
                    stop_forwarder: if active {
                        Some(id)
                    } else {
                        None
                    },
                    save_config: true,
                }
            },
            None => Outcome { command: Command::Nothing, stop_forwarder: None, save_config: true },
        }
    }

    /// Sets one address or port of the rule `id`: `which` is 0 for the source
    /// address, 1 for the source port, 2 for the destination address and 3
    /// for the destination port.
    fn edit_forwarder(&mut self, id: u128, which: u8, value: String)
        requires
            which < 4,
        ensures
            final(self)@ == (AppView {
                port_forwarders: edit_rule(old(self)@.port_forwarders, id,
                    |f: crate::types::PortForwarderView| if which == 0 {
                        crate::types::PortForwarderView { src_addr: value@, ..f }
                    } else if which == 1 {
                        crate::types::PortForwarderView { src_port: value@, ..f }
                    } else if which == 2 {
                        crate::types::PortForwarderView { dst_addr: value@, ..f }
                    } else {
                        crate::types::PortForwarderView { dst_port: value@, ..f }
                    }),
                ..old(self)@
            }),
    {
        match self.find_forwarder(id) {
            Some(i) => {
                let mut f = copy_forwarder(&self.port_forwarders[i]);
                if which == 0 {
                    f.src_addr = value;
                } else if which == 1 {
                    f.src_port = value;
                } else if which == 2 {
                    f.dst_addr = value;
                } else {
                    f.dst_port = value;
                }
                self.set_forwarder(i, f);
            },
            None => {},
        }
    }

    /// Sets the protocol of the rule `id`.
    fn set_protocol(&mut self, id: u128, p: Protocol)
        ensures
            final(self)@ == (AppView {
                port_forwarders: edit_rule(old(self)@.port_forwarders, id,
                    |f: crate::types::PortForwarderView| crate::types::PortForwarderView { protocol: p, ..f }),
                ..old(self)@
            }),
    {
        match self.find_forwarder(id) {
            Some(i) => {
                let mut f = copy_forwarder(&self.port_forwarders[i]);
                f.protocol = p;
                self.set_forwarder(i, f);
            },
            None => {},
        }
    }

    /// Starts or stops the rule `id`.
    pub fn toggle_forwarder(&mut self, id: u128) -> (out: Outcome)
        ensures
            toggles_forwarder(old(self)@, id, final(self)@, out),
    {
        let lang = self.language;
        match self.find_forwarder(id) {
            None => Outcome { command: Command::Nothing, stop_forwarder: None, save_config: false },
            Some(i) => {
                let mut f = copy_forwarder(&self.port_forwarders[i]);
                if f.is_active {
                    f.is_active = false;
                    f.status = status_text(lang, "status_stopped");
                    self.set_forwarder(i, f);
                    Outcome { command: Command::Nothing, stop_forwarder: Some(id), save_config: false }
                } else {
                    match (text::parse_u16(f.src_port.as_str()), text::parse_u16(f.dst_port.as_str())) {
                        (Some(sp), Some(dp)) => {
                            let command = Command::StartForwarder {
                                id,
                                protocol: f.protocol,
                                src_addr: f.src_addr.clone(),
                                src_port: sp,
                                dst_addr: f.dst_addr.clone(),
                                dst_port: dp,
                            };
                            f.is_active = true;
                            f.status = status_text(lang, "status_running");
                            self.set_forwarder(i, f);
                            Outcome { command, stop_forwarder: None, save_config: false }
                        },
                        _ => {
                            f.status = status_text(lang, "status_invalid_port");
                            self.set_forwarder(i, f);
                            Outcome { command: Command::Nothing, stop_forwarder: None, save_config: false }
                        },
                    }
                }
            },
        }
    }

    /// Records the end of the forwarder of rule `id`.
    pub fn apply_forwarder_result(&mut self, id: u128, res: Result<(), String>)
        ensures
            final(self)@ == (AppView {
                port_forwarders: after_forwarder_result(old(self)@, id, res),
                ..old(self)@
            }),
    {
        match res {
            Ok(_) => {},
            Err(e) => match self.find_forwarder(id) {
                Some(i) => {
                    let mut f = copy_forwarder(&self.port_forwarders[i]);
                    f.is_active = false;
                    f.status = error_status_text(self.language, &e);
                    self.set_forwarder(i, f);
                },
                None => {},
            },
        }
    }

    /// Switches the language: the statuses are shown again in it.
    pub fn change_language(&mut self, lang: Language)
        ensures
            final(self)@ == (AppView {
                language: lang,
                sys_status: sharing_status(lang, old(self)@.sys_active),
                port_forwarders: old(self)@.port_forwarders.map_values(
                    |f: crate::types::PortForwarderView| relabeled(f, lang),
                ),
                ..old(self)@
            }),
    {
        self.language = lang;
        self.sys_status = if self.sys_active {
            status_text(lang, "status_active")
        } else {
            status_text(lang, "status_ready")
        };
        let ghost fs = forwarder_views(self.port_forwarders@);
        let ghost g = |f: crate::types::PortForwarderView| relabeled(f, lang);
        let mut relabeled_fs: Vec<PortForwarder> = Vec::new();
        let mut i: usize = 0;
        while i < self.port_forwarders.len()
            invariant
                i <= self.port_forwarders@.len(),
                fs == forwarder_views(self.port_forwarders@),
                g == (|f: crate::types::PortForwarderView| relabeled(f, lang)),
                forwarder_views(relabeled_fs@) == fs.take(i as int).map_values(g),
            decreases self.port_forwarders@.len() - i,
        {
            let mut f = copy_forwarder(&self.port_forwarders[i]);
            if f.is_active {
                f.status = status_text(lang, "status_running");
            } else if text::contains_str(f.status.as_str(), "Error") || text::contains_str(
                f.status.as_str(),
                "错误",
            ) {
                f.status = status_text(lang, "status_stopped");
            } else {
                f.status = status_text(lang, "status_ready");
            }
            let ghost before = relabeled_fs@;
            relabeled_fs.push(f);
            assert(forwarder_views(relabeled_fs@) == forwarder_views(before).push(f@));
            assert(fs.take(i + 1) == fs.take(i as int).push(fs[i as int]));
            i += 1;
        }
        assert(fs.take(fs.len() as int) == fs);
        self.port_forwarders = relabeled_fs;
    }

    /// Appends the rules read from a configuration file.
    pub fn import_forwarders(&mut self, configs: &Vec<PortForwarderConfig>)
        ensures
            final(self)@ == (AppView { port_forwarders: final(self)@.port_forwarders, ..old(self)@ }),
            final(self)@.port_forwarders.take(old(self)@.port_forwarders.len() as int) == old(self)@.port_forwarders,
            ends_with_imported(
                final(self)@.port_forwarders,
                old(self)@.port_forwarders.len() as int,
                configs@.map_values(|c: PortForwarderConfig| c@),
                old(self)@.language,
            ),
    {
        let lang = self.language;
        push_imported(&mut self.port_forwarders, configs, lang);
    }

    /// What closing the window asks for.
    pub fn close_request(&self) -> (out: Outcome)
        ensures
            closes(self@, out),
    {
        if self.close_behavior == CloseBehavior::Minimize {
            return Outcome { command: Command::HideToTray, stop_forwarder: None, save_config: false };
        }
        let shares = self.configured_share_specs();
        if shares.len() > 0 {
            let commands = network::stop_system_forwarding(shares.as_slice());
            Outcome { command: Command::StopSharingThenExit(commands), stop_forwarder: None, save_config: false }
        } else {
            Outcome { command: Command::CloseWindow, stop_forwarder: None, save_config: false }
        }
    }
}


/// The effects of an event that only saves or not.
fn saves(save: bool) -> (out: Outcome)
    ensures
        only_saves(out, save),
{
    Outcome { command: Command::Nothing, stop_forwarder: None, save_config: save }
}

/// The effects of an event that only asks for `command`.
fn asks(command: Command) -> (out: Outcome)
    ensures
        out.command == command,
        out.stop_forwarder is None,
        !out.save_config,
{
    Outcome { command, stop_forwarder: None, save_config: false }
}

impl ForwarderApp {
    /// Handles one event: changes the state as `step` says and returns the
    /// effects that the program around the state must carry out.
    pub fn update(&mut self, message: Message) -> (out: Outcome)
        ensures
            step(old(self)@, message, final(self)@, out),
    {
        match message {
            Message::SwitchPage(page) => {
                self.current_page = page;
                saves(false)
            },
            Message::SetCloseBehavior(behavior) => {
                self.close_behavior = behavior;
                saves(true)
            },
            Message::CloseRequested => self.close_request(),
            Message::TrayClicked => asks(Command::RestoreWindow),
            Message::WanToggled(name, chosen) => {
                self.toggle_wan(name, chosen);
                saves(false)
            },
            Message::AddLanShare => {
                self.add_lan_share();
                saves(true)
            },
            Message::RemoveLanShare(idx) => {
                self.remove_lan_share(idx);
                saves(true)
            },
            Message::UpdateLanShare(idx, field, value) => {
                self.update_share_field(idx, field.as_str(), value);
                saves(true)
            },
            Message::LanWanToggled(idx, name, chosen) => {
                self.toggle_share_wan(idx, name, chosen);
                saves(true)
            },
            Message::ToggleLanShare(idx) => self.toggle_share(idx),
            Message::ToggleSysForwarding => self.toggle_sharing(),
            Message::SysForwardingResult(idx, target, res) => {
                self.apply_sharing_result(idx, target, res);
                saves(false)
            },
            Message::DetectSystemForward(report) => {
                self.apply_detection(&report);
                saves(false)
            },
            Message::RefreshInterfaces => {
                let raw = network::get_interfaces();
                self.set_interfaces(&raw);
                proof {
                    let offered = network::offered_interfaces(raw@);
                    assert forall|i: int| 0 <= i < self@.interfaces.len() implies network::interface_is_offered(
                        #[trigger] self@.interfaces[i].name,
                    ) by {
                        raw@.lemma_filter_pred(|x: InterfaceInfo| network::interface_is_offered(x.name@), i);
                    }
                }
                saves(false)
            },
            Message::RefreshSystemReport => asks(Command::FetchSystemReport),
            Message::SystemReportReceived(report) => {
                self.system_report = Some(report);
                saves(false)
            },
            Message::SetRefreshInterval(secs) => {
                self.refresh_interval = secs;
                saves(false)
            },
            Message::AddForwarder => {
                self.add_forwarder();
                saves(true)
            },
            Message::RemoveForwarder(id) => self.remove_forwarder(id),
            Message::SrcAddrChanged(id, v) => {
                self.edit_forwarder(id, 0, v);
                saves(true)
            },
            Message::SrcPortChanged(id, v) => {
                self.edit_forwarder(id, 1, v);
                saves(true)
            },
            Message::DstAddrChanged(id, v) => {
                self.edit_forwarder(id, 2, v);
                saves(true)
            },
            Message::DstPortChanged(id, v) => {
                self.edit_forwarder(id, 3, v);
                saves(true)
            },
            Message::ProtocolChanged(id, p) => {
                self.set_protocol(id, p);
                saves(true)
            },
            Message::TogglePortForwarding(id) => self.toggle_forwarder(id),
            Message::PortForwardingResult(id, res) => {
                self.apply_forwarder_result(id, res);
                saves(false)
            },
            Message::ImportConfig => asks(Command::PickImportFile),
            Message::ConfigFileSelected(configs) => {
                match configs {
                    Some(cs) => {
                        self.import_forwarders(&cs);
                        saves(true)
                    },
                    None => saves(false),
                }
            },
            Message::ExportConfig => asks(Command::PickExportFile),
            Message::LanguageChanged(lang) => {
                self.change_language(lang);
                saves(true)
            },
            Message::Exit => asks(Command::CloseWindow),
        }
    }
}

} // verus!
