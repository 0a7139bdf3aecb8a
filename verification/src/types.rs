use vstd::prelude::*;

use crate::network::SystemReport;
use crate::text;

verus! {

/// Language of the user interface.
#[derive(Clone, Copy, Debug, PartialEq, Eq, Structural)]
pub enum Language {
    English,
    Chinese,
}

impl Language {
    /// The user-interface text of `key` in this language.
    pub fn get(&self, key: &str) -> (r: &'static str)
        ensures
            r@ == crate::i18n::translate(*self, key@),
    {
        crate::i18n::get(*self, key)
    }
}

/// What closing the window does.
#[derive(Clone, Copy, Debug, PartialEq, Eq, Structural)]
pub enum CloseBehavior {
    Minimize,
    Quit,
}

/// A page of the user interface.
#[derive(Clone, Copy, Debug, PartialEq, Eq, Structural)]
pub enum Page {
    SystemForward,
    PortForward,
    SystemMonitor,
    About,
    Settings,
}

/// Transport protocol of a port-forwarding rule.
#[derive(Clone, Copy, Debug, PartialEq, Eq, Structural)]
pub enum Protocol {
    Tcp,
    Udp,
}

/// The name under which a protocol is shown and stored ("TCP" / "UDP").
pub open spec fn protocol_name(p: Protocol) -> Seq<char> {
    match p {
        Protocol::Tcp => "TCP"@,
        Protocol::Udp => "UDP"@,
    }
}

impl Protocol {
    /// Renders the protocol as it is displayed.
    pub fn to_string(&self) -> (s: String)
        ensures
            s@ == protocol_name(*self),
    {
        match self {
            Protocol::Tcp => String::from_str("TCP"),
            Protocol::Udp => String::from_str("UDP"),
        }
    }
}

/// A port-forwarding rule as it is saved, imported and exported.
#[derive(Debug)]
pub struct PortForwarderConfig {
    pub protocol: Protocol,
    pub src_addr: String,
    pub src_port: String,
    pub dst_addr: String,
    pub dst_port: String,
}

/// The content of a saved port-forwarding rule.
pub struct PortForwarderConfigView {
    pub protocol: Protocol,
    pub src_addr: Seq<char>,
    pub src_port: Seq<char>,
    pub dst_addr: Seq<char>,
    pub dst_port: Seq<char>,
}

impl View for PortForwarderConfig {
    type V = PortForwarderConfigView;

    open spec fn view(&self) -> PortForwarderConfigView {
        PortForwarderConfigView {
            protocol: self.protocol,
            src_addr: self.src_addr@,
            src_port: self.src_port@,
            dst_addr: self.dst_addr@,
            dst_port: self.dst_port@,
        }
    }
}

impl Clone for PortForwarderConfig {
    fn clone(&self) -> (r: Self)
        ensures
            r@ == self@,
    {
        PortForwarderConfig {
            protocol: self.protocol,
            src_addr: self.src_addr.clone(),
            src_port: self.src_port.clone(),
            dst_addr: self.dst_addr.clone(),
            dst_port: self.dst_port.clone(),
        }
    }
}

/// A port-forwarding rule of the running program, with its identity, whether
/// it runs, and the status shown for it.
#[derive(Debug)]
pub struct PortForwarder {
    pub id: u128,
    pub protocol: Protocol,
    pub src_addr: String,
    pub src_port: String,
    pub dst_addr: String,
    pub dst_port: String,
    pub is_active: bool,
    pub status: String,
}

/// The content of a port-forwarding rule of the running program.
pub struct PortForwarderView {
    pub id: u128,
    pub protocol: Protocol,
    pub src_addr: Seq<char>,
    pub src_port: Seq<char>,
    pub dst_addr: Seq<char>,
    pub dst_port: Seq<char>,
    pub is_active: bool,
    pub status: Seq<char>,
}

impl View for PortForwarder {
    type V = PortForwarderView;

    open spec fn view(&self) -> PortForwarderView {
        PortForwarderView {
            id: self.id,
            protocol: self.protocol,
            src_addr: self.src_addr@,
            src_port: self.src_port@,
            dst_addr: self.dst_addr@,
            dst_port: self.dst_port@,
            is_active: self.is_active,
            status: self.status@,
        }
    }
}

/// The configuration of one LAN share: its interface, the address given to
/// it, the prefix length, and the outgoing interfaces chosen for it.
#[derive(Debug)]
pub struct LanShareConfig {
    pub interface: String,
    pub ip: String,
    pub mask: String,
    pub wans: Vec<String>,
}

/// The content of a LAN share's configuration.
pub struct LanShareConfigView {
    pub interface: Seq<char>,
    pub ip: Seq<char>,
    pub mask: Seq<char>,
    pub wans: Seq<Seq<char>>,
}

impl View for LanShareConfig {
    type V = LanShareConfigView;

    open spec fn view(&self) -> LanShareConfigView {
        LanShareConfigView {
            interface: self.interface@,
            ip: self.ip@,
            mask: self.mask@,
            wans: text::views(self.wans@),
        }
    }
}

/// The configuration a new LAN share starts with: no interface, address
/// 192.168.10.1/24, no outgoing interface.
pub open spec fn default_lan_share_config() -> LanShareConfigView {
    LanShareConfigView {
        interface: Seq::empty(),
        ip: "192.168.10.1"@,
        mask: "24"@,
        wans: Seq::empty(),
    }
}

impl Default for LanShareConfig {
    fn default() -> (r: Self)
        ensures
            r@ == default_lan_share_config(),
    {
        let r = LanShareConfig {
            interface: String::new(),
            ip: String::from_str("192.168.10.1"),
            mask: String::from_str("24"),
            wans: Vec::new(),
        };
        assert(text::views(r.wans@) =~= Seq::<Seq<char>>::empty());
        r
    }
}

/// Copies a list of strings.
pub fn clone_strings(v: &Vec<String>) -> (r: Vec<String>)
    ensures
        r@ == v@,
{
    let mut r: Vec<String> = Vec::new();
    let mut i: usize = 0;
    while i < v.len()
        invariant
            i <= v@.len(),
            r@ == v@.take(i as int),
        decreases v@.len() - i,
    {
        r.push(v[i].clone());
        assert(v@.take(i + 1) == v@.take(i as int).push(v@[i as int]));
        i += 1;
    }
    assert(v@.take(v@.len() as int) == v@);
    r
}

impl Clone for LanShareConfig {
    fn clone(&self) -> (r: Self)
        ensures
            r@ == self@,
    {
        LanShareConfig {
            interface: self.interface.clone(),
            ip: self.ip.clone(),
            mask: self.mask.clone(),
            wans: clone_strings(&self.wans),
        }
    }
}

/// A LAN share of the running program: its configuration, whether it is
/// shared now, and the status shown for it.
#[derive(Debug)]
pub struct LanShare {
    pub config: LanShareConfig,
    pub is_active: bool,
    pub status: String,
}

/// The content of a LAN share of the running program.
pub struct LanShareView {
    pub config: LanShareConfigView,
    pub is_active: bool,
    pub status: Seq<char>,
}

impl View for LanShare {
    type V = LanShareView;

    open spec fn view(&self) -> LanShareView {
        LanShareView { config: self.config@, is_active: self.is_active, status: self.status@ }
    }
}

/// What is saved between runs: language, close behavior, forwarding rules
/// and LAN shares.
#[derive(Debug)]
pub struct AppConfig {
    pub language: Language,
    pub close_behavior: CloseBehavior,
    pub forwarders: Vec<PortForwarderConfig>,
    pub lan_shares: Vec<LanShareConfig>,
}

/// The content of a saved configuration.
pub struct AppConfigView {
    pub language: Language,
    pub close_behavior: CloseBehavior,
    pub forwarders: Seq<PortForwarderConfigView>,
    pub lan_shares: Seq<LanShareConfigView>,
}

impl View for AppConfig {
    type V = AppConfigView;

    open spec fn view(&self) -> AppConfigView {
        AppConfigView {
            language: self.language,
            close_behavior: self.close_behavior,
            forwarders: self.forwarders@.map_values(|f: PortForwarderConfig| f@),
            lan_shares: self.lan_shares@.map_values(|s: LanShareConfig| s@),
        }
    }
}

impl Default for AppConfig {
    /// The configuration of a first run: Chinese, quit on close, no rule, one
    /// default LAN share.
    fn default() -> (r: Self)
        ensures
            r@.language == Language::Chinese,
            r@.close_behavior == CloseBehavior::Quit,
            r@.forwarders.len() == 0,
            r@.lan_shares == seq![default_lan_share_config()],
    {
        let mut lan_shares: Vec<LanShareConfig> = Vec::new();
        lan_shares.push(LanShareConfig::default());
        let r = AppConfig {
            language: Language::Chinese,
            close_behavior: CloseBehavior::Quit,
            forwarders: Vec::new(),
            lan_shares,
        };
        assert(r@.lan_shares =~= seq![default_lan_share_config()]);
        r
    }
}

/// An event of the user interface or the result of a task it started.
/// Forwarding rules are named by their identity.
pub enum Message {
    SwitchPage(Page),
    SetCloseBehavior(CloseBehavior),
    CloseRequested,
    TrayClicked,
    WanToggled(String, bool),
    AddLanShare,
    RemoveLanShare(usize),
    UpdateLanShare(usize, String, String),
    LanWanToggled(usize, String, bool),
    ToggleLanShare(usize),
    ToggleSysForwarding,
    SysForwardingResult(usize, bool, Result<(), String>),
    /// A detection run on this report of the system.
    DetectSystemForward(SystemReport),
    RefreshInterfaces,
    RefreshSystemReport,
    SystemReportReceived(SystemReport),
    SetRefreshInterval(u64),
    AddForwarder,
    RemoveForwarder(u128),
    SrcAddrChanged(u128, String),
    SrcPortChanged(u128, String),
    DstAddrChanged(u128, String),
    DstPortChanged(u128, String),
    /// The protocol chosen for a rule.
    ProtocolChanged(u128, Protocol),
    TogglePortForwarding(u128),
    PortForwardingResult(u128, Result<(), String>),
    ImportConfig,
    /// The rules read from the chosen file; nothing when no file was chosen
    /// or it could not be read.
    ConfigFileSelected(Option<Vec<PortForwarderConfig>>),
    ExportConfig,
    LanguageChanged(Language),
    Exit,
}

} // verus!
