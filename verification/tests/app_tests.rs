use conduit::app::{Command, ForwarderApp};
use conduit::network::{build_system_report, InterfaceInfo};
use conduit::types::{AppConfig, CloseBehavior, Language, Message, Page, PortForwarderConfig, Protocol};

fn new_app() -> ForwarderApp {
    ForwarderApp::new(&AppConfig::default(), &vec![], build_system_report("", None, None, None))
}

#[test]
fn test_app_page_switching() {
    let mut app = new_app();
    assert_eq!(app.current_page, Page::SystemForward);

    let _cmd = app.update(Message::SwitchPage(Page::PortForward));
    assert_eq!(app.current_page, Page::PortForward);

    let _cmd = app.update(Message::SwitchPage(Page::SystemMonitor));
    assert_eq!(app.current_page, Page::SystemMonitor);

    let _cmd = app.update(Message::SwitchPage(Page::Settings));
    assert_eq!(app.current_page, Page::Settings);

    let _cmd = app.update(Message::SwitchPage(Page::About));
    assert_eq!(app.current_page, Page::About);
}

#[test]
fn test_app_language_switch() {
    let mut app = new_app();
    assert_eq!(app.language, Language::Chinese);

    let _cmd = app.update(Message::LanguageChanged(Language::English));
    assert_eq!(app.language, Language::English);

    let _cmd = app.update(Message::AddForwarder);
    assert_eq!(app.port_forwarders[0].status, "Ready");

    let _cmd = app.update(Message::LanguageChanged(Language::Chinese));
    assert_eq!(app.port_forwarders[0].status, "就绪");
}

#[test]
fn test_app_forwarder_crud() {
    let mut app = new_app();
    assert!(app.port_forwarders.is_empty());

    let _cmd = app.update(Message::AddForwarder);
    assert_eq!(app.port_forwarders.len(), 1);

    let id = app.port_forwarders[0].id;
    let _cmd = app.update(Message::SrcAddrChanged(id, "10.0.0.1".into()));
    assert_eq!(app.port_forwarders[0].src_addr, "10.0.0.1");

    let _cmd = app.update(Message::SrcPortChanged(id, "8080".into()));
    assert_eq!(app.port_forwarders[0].src_port, "8080");

    let _cmd = app.update(Message::DstAddrChanged(id, "192.168.1.1".into()));
    assert_eq!(app.port_forwarders[0].dst_addr, "192.168.1.1");

    let _cmd = app.update(Message::DstPortChanged(id, "80".into()));
    assert_eq!(app.port_forwarders[0].dst_port, "80");

    let _cmd = app.update(Message::RemoveForwarder(id));
    assert!(app.port_forwarders.is_empty());
}

#[test]
fn test_app_add_multiple_forwarders() {
    let mut app = new_app();
    let _cmd = app.update(Message::AddForwarder);
    let _cmd = app.update(Message::AddForwarder);
    let _cmd = app.update(Message::AddForwarder);
    assert_eq!(app.port_forwarders.len(), 3);

    let ids: std::collections::HashSet<_> = app.port_forwarders.iter().map(|f| f.id).collect();
    assert_eq!(ids.len(), 3);
}

#[test]
fn test_app_close_behavior() {
    let mut app = new_app();
    assert_eq!(app.close_behavior, CloseBehavior::Quit);

    let _cmd = app.update(Message::SetCloseBehavior(CloseBehavior::Minimize));
    assert_eq!(app.close_behavior, CloseBehavior::Minimize);

    let _cmd = app.update(Message::SetCloseBehavior(CloseBehavior::Quit));
    assert_eq!(app.close_behavior, CloseBehavior::Quit);
}

#[test]
fn test_app_wan_selection() {
    let mut app = new_app();
    assert!(app.selected_wans.is_empty());

    let _cmd = app.update(Message::WanToggled("eth0".into(), true));
    assert!(app.selected_wans.contains(&"eth0".into()));

    let _cmd = app.update(Message::WanToggled("wlan0".into(), true));
    assert_eq!(app.selected_wans.len(), 2);

    let _cmd = app.update(Message::WanToggled("eth0".into(), false));
    assert!(!app.selected_wans.contains(&"eth0".into()));
    assert_eq!(app.selected_wans.len(), 1);
}

#[test]
fn test_app_lan_share_add_remove() {
    let mut app = new_app();
    assert_eq!(app.lan_shares.len(), 1);

    let _cmd = app.update(Message::AddLanShare);
    assert_eq!(app.lan_shares.len(), 2);

    let _cmd = app.update(Message::RemoveLanShare(0));
    assert_eq!(app.lan_shares.len(), 1);
}

#[test]
fn test_app_lan_share_update() {
    let mut app = new_app();
    let _cmd = app.update(Message::UpdateLanShare(0, "interface".into(), "eth1".into()));
    assert_eq!(app.lan_shares[0].config.interface, "eth1");

    let _cmd = app.update(Message::UpdateLanShare(0, "ip".into(), "10.0.0.1".into()));
    assert_eq!(app.lan_shares[0].config.ip, "10.0.0.1");

    let _cmd = app.update(Message::UpdateLanShare(0, "mask".into(), "16".into()));
    assert_eq!(app.lan_shares[0].config.mask, "16");
}

#[test]
fn test_app_lan_share_default_values() {
    let app = new_app();
    assert_eq!(app.lan_shares[0].config.ip, "192.168.10.1");
    assert_eq!(app.lan_shares[0].config.mask, "24");
}

#[test]
fn test_app_forwarder_toggle_validates_port() {
    let mut app = new_app();
    let _cmd = app.update(Message::AddForwarder);
    let fwd_id = app.port_forwarders[0].id;

    let _cmd = app.update(Message::TogglePortForwarding(fwd_id));
    assert!(!app.port_forwarders[0].is_active);
    assert!(
        app.port_forwarders[0].status.contains("无效端口")
            || app.port_forwarders[0].status.contains("Invalid port")
    );
}

#[test]
fn test_app_forwarder_configures_correctly() {
    let mut app = new_app();
    let _cmd = app.update(Message::AddForwarder);
    let id = app.port_forwarders[0].id;

    let _cmd = app.update(Message::SrcAddrChanged(id, "0.0.0.0".into()));
    let _cmd = app.update(Message::SrcPortChanged(id, "12345".into()));
    let _cmd = app.update(Message::DstAddrChanged(id, "10.0.0.1".into()));
    let _cmd = app.update(Message::DstPortChanged(id, "80".into()));

    assert_eq!(app.port_forwarders[0].src_addr, "0.0.0.0");
    assert_eq!(app.port_forwarders[0].src_port, "12345");
    assert_eq!(app.port_forwarders[0].dst_addr, "10.0.0.1");
    assert_eq!(app.port_forwarders[0].dst_port, "80");
}

#[test]
fn new_forwarder_defaults() {
    let mut app = new_app();
    let out = app.update(Message::AddForwarder);
    assert!(out.save_config);
    let f = &app.port_forwarders[0];
    assert_eq!(f.protocol, Protocol::Tcp);
    assert_eq!(f.src_addr, "0.0.0.0");
    assert_eq!(f.src_port, "");
    assert_eq!(f.dst_addr, "127.0.0.1");
    assert_eq!(f.dst_port, "");
    assert!(!f.is_active);
    assert_eq!(f.status, "就绪");
}

#[test]
fn start_then_stop_forwarder() {
    let mut app = new_app();
    app.update(Message::LanguageChanged(Language::English));
    app.update(Message::AddForwarder);
    let id = app.port_forwarders[0].id;
    app.update(Message::SrcPortChanged(id, "+8080".into()));
    app.update(Message::DstPortChanged(id, "80".into()));
    let out = app.update(Message::TogglePortForwarding(id));
    match out.command {
        Command::StartForwarder { id: cid, protocol, src_addr, src_port, dst_addr, dst_port } => {
            assert_eq!(cid, id);
            assert_eq!(protocol, Protocol::Tcp);
            assert_eq!(src_addr, "0.0.0.0");
            assert_eq!(src_port, 8080);
            assert_eq!(dst_addr, "127.0.0.1");
            assert_eq!(dst_port, 80);
        }
        _ => panic!("expected a start command"),
    }
    assert!(!out.save_config);
    assert!(app.port_forwarders[0].is_active);
    assert_eq!(app.port_forwarders[0].status, "Running");

    let out = app.update(Message::TogglePortForwarding(id));
    assert!(matches!(out.command, Command::Nothing));
    assert_eq!(out.stop_forwarder, Some(id));
    assert!(!app.port_forwarders[0].is_active);
    assert_eq!(app.port_forwarders[0].status, "Stopped");
}

#[test]
fn port_out_of_range_is_invalid() {
    let mut app = new_app();
    app.update(Message::AddForwarder);
    let id = app.port_forwarders[0].id;
    app.update(Message::SrcPortChanged(id, "65536".into()));
    app.update(Message::DstPortChanged(id, "80".into()));
    let out = app.update(Message::TogglePortForwarding(id));
    assert!(matches!(out.command, Command::Nothing));
    assert!(!app.port_forwarders[0].is_active);
    assert_eq!(app.port_forwarders[0].status, "无效端口");
}

#[test]
fn forwarder_error_is_shown_and_relabeled() {
    let mut app = new_app();
    app.update(Message::AddForwarder);
    let id = app.port_forwarders[0].id;
    app.update(Message::SrcPortChanged(id, "1".into()));
    app.update(Message::DstPortChanged(id, "2".into()));
    app.update(Message::TogglePortForwarding(id));
    app.update(Message::PortForwardingResult(id, Err("Address in use".into())));
    assert!(!app.port_forwarders[0].is_active);
    assert_eq!(app.port_forwarders[0].status, "错误: Address in use");
    app.update(Message::LanguageChanged(Language::English));
    assert_eq!(app.port_forwarders[0].status, "Stopped");
    app.update(Message::LanguageChanged(Language::Chinese));
    assert_eq!(app.port_forwarders[0].status, "就绪");
}

#[test]
fn removing_running_forwarder_stops_it() {
    let mut app = new_app();
    app.update(Message::AddForwarder);
    let id = app.port_forwarders[0].id;
    app.update(Message::SrcPortChanged(id, "1000".into()));
    app.update(Message::DstPortChanged(id, "2000".into()));
    app.update(Message::TogglePortForwarding(id));
    let out = app.update(Message::RemoveForwarder(id));
    assert_eq!(out.stop_forwarder, Some(id));
    assert!(out.save_config);
    assert!(app.port_forwarders.is_empty());
    let out = app.update(Message::RemoveForwarder(id));
    assert_eq!(out.stop_forwarder, None);
}

#[test]
fn lan_share_toggle_and_result() {
    let mut app = new_app();
    app.update(Message::LanguageChanged(Language::English));
    app.update(Message::UpdateLanShare(0, "interface".into(), "eth1".into()));
    app.update(Message::WanToggled("wlan0".into(), true));
    let out = app.update(Message::ToggleLanShare(0));
    assert_eq!(app.lan_shares[0].status, "Starting...");
    let (index, target) = match out.command {
        Command::RunShareCommands { index, target, commands } => {
            assert_eq!(commands[0], "echo 1 > /proc/sys/net/ipv4/ip_forward");
            assert_eq!(commands[1], "(ip addr add 192.168.10.1/24 dev eth1 2>/dev/null || true)");
            assert_eq!(commands[4], "iptables -t nat -A POSTROUTING -o wlan0 -j MASQUERADE");
            (index, target)
        }
        _ => panic!("expected commands"),
    };
    assert_eq!((index, target), (0, true));
    app.update(Message::SysForwardingResult(index, target, Ok(())));
    assert!(app.lan_shares[0].is_active);
    assert_eq!(app.lan_shares[0].status, "Running");

    let out = app.update(Message::ToggleLanShare(0));
    assert_eq!(app.lan_shares[0].status, "Stopping...");
    match out.command {
        Command::RunShareCommands { index, target, commands } => {
            assert_eq!((index, target), (0, false));
            assert_eq!(commands.last().unwrap(), "echo 0 > /proc/sys/net/ipv4/ip_forward");
            app.update(Message::SysForwardingResult(index, target, Err("Root failed".into())));
        }
        _ => panic!("expected commands"),
    }
    assert!(app.lan_shares[0].is_active);
    assert_eq!(app.lan_shares[0].status, "Error: Root failed");
    let out = app.update(Message::ToggleLanShare(7));
    assert!(matches!(out.command, Command::Nothing));
}

#[test]
fn share_wans_are_chosen_once() {
    let mut app = new_app();
    app.update(Message::LanWanToggled(0, "eth0".into(), true));
    app.update(Message::LanWanToggled(0, "eth0".into(), true));
    app.update(Message::LanWanToggled(0, "wlan0".into(), true));
    assert_eq!(app.lan_shares[0].config.wans, vec!["eth0", "wlan0"]);
    app.update(Message::LanWanToggled(0, "eth0".into(), false));
    assert_eq!(app.lan_shares[0].config.wans, vec!["wlan0"]);
    app.update(Message::LanWanToggled(5, "eth0".into(), true));
    assert_eq!(app.lan_shares.len(), 1);
}

#[test]
fn sharing_toggle_checks_its_shares() {
    let mut app = new_app();
    app.update(Message::LanguageChanged(Language::English));
    let out = app.update(Message::ToggleSysForwarding);
    assert!(matches!(out.command, Command::Nothing));
    assert_eq!(app.sys_status, "Please select a LAN interface");

    app.update(Message::UpdateLanShare(0, "interface".into(), "eth1".into()));
    app.update(Message::ToggleSysForwarding);
    assert_eq!(app.sys_status, "Please select a WAN interface");

    app.update(Message::LanWanToggled(0, "wlan0".into(), true));
    let out = app.update(Message::ToggleSysForwarding);
    assert_eq!(app.sys_status, "Starting...");
    match out.command {
        Command::RunShareCommands { index, target, .. } => {
            assert_eq!((index, target), (usize::MAX, true));
            app.update(Message::SysForwardingResult(index, target, Ok(())));
        }
        _ => panic!("expected commands"),
    }
    assert!(app.sys_active);
    assert_eq!(app.sys_status, "Sharing active!");
}

#[test]
fn closing_stops_configured_shares() {
    let mut app = new_app();
    let out = app.update(Message::CloseRequested);
    assert!(matches!(out.command, Command::CloseWindow));

    app.update(Message::UpdateLanShare(0, "interface".into(), "eth1".into()));
    app.update(Message::WanToggled("wlan0".into(), true));
    let out = app.update(Message::CloseRequested);
    match out.command {
        Command::StopSharingThenExit(cmds) => {
            assert_eq!(cmds[0], "iptables -t nat -D POSTROUTING -o wlan0 -j MASQUERADE 2>/dev/null || true");
            assert_eq!(cmds.last().unwrap(), "echo 0 > /proc/sys/net/ipv4/ip_forward");
        }
        _ => panic!("expected stop commands"),
    }

    app.update(Message::SetCloseBehavior(CloseBehavior::Minimize));
    let out = app.update(Message::CloseRequested);
    assert!(matches!(out.command, Command::HideToTray));
}

#[test]
fn detection_updates_sharing_state() {
    let mut app = new_app();
    app.update(Message::LanguageChanged(Language::English));
    let r = build_system_report("1", Some("-A POSTROUTING -o wlan0 -j MASQUERADE"), None, None);
    app.update(Message::DetectSystemForward(r));
    assert!(app.sys_active);
    assert_eq!(app.selected_wans, vec!["wlan0"]);
    assert_eq!(app.sys_status, "Sharing Active");

    let r = build_system_report("1", None, None, None);
    app.update(Message::DetectSystemForward(r));
    assert!(app.sys_active);
    assert_eq!(app.sys_status, "Detection failed (root required?)");
}

#[test]
fn start_state_from_config_and_system() {
    let mut cfg = AppConfig::default();
    cfg.language = Language::English;
    cfg.close_behavior = CloseBehavior::Minimize;
    cfg.forwarders.push(PortForwarderConfig {
        protocol: Protocol::Udp,
        src_addr: "0.0.0.0".into(),
        src_port: "5353".into(),
        dst_addr: "10.0.0.1".into(),
        dst_port: "53".into(),
    });
    let ifaces: Vec<InterfaceInfo> =
        ["lo", "eth0", "docker0"].iter().map(|n| InterfaceInfo { name: n.to_string(), mac: None, ips: vec![] }).collect();
    let report = build_system_report("1", Some("-A POSTROUTING -o eth0 -j MASQUERADE\n"), None, None);
    let app = ForwarderApp::new(&cfg, &ifaces, report);
    assert_eq!(app.interfaces.len(), 1);
    assert_eq!(app.interfaces[0].name, "eth0");
    assert!(app.sys_active);
    assert_eq!(app.selected_wans, vec!["eth0"]);
    assert_eq!(app.sys_status, "Sharing Active");
    assert_eq!(app.port_forwarders.len(), 1);
    assert_eq!(app.port_forwarders[0].protocol, Protocol::Udp);
    assert_eq!(app.port_forwarders[0].status, "Ready (Imported)");
    assert!(!app.port_forwarders[0].is_active);
    assert_eq!(app.refresh_interval, 1);
    assert!(app.system_report.is_some());

    let saved = app.config();
    assert_eq!(saved.language, Language::English);
    assert_eq!(saved.close_behavior, CloseBehavior::Minimize);
    assert_eq!(saved.forwarders.len(), 1);
    assert_eq!(saved.forwarders[0].src_port, "5353");
    assert_eq!(saved.forwarders[0].dst_addr, "10.0.0.1");
    assert_eq!(saved.lan_shares.len(), 1);
}

#[test]
fn importing_appends_rules() {
    let mut app = new_app();
    app.update(Message::AddForwarder);
    let out = app.update(Message::ConfigFileSelected(Some(vec![PortForwarderConfig {
        protocol: Protocol::Tcp,
        src_addr: "1.1.1.1".into(),
        src_port: "1".into(),
        dst_addr: "2.2.2.2".into(),
        dst_port: "2".into(),
    }])));
    assert!(out.save_config);
    assert_eq!(app.port_forwarders.len(), 2);
    assert_eq!(app.port_forwarders[1].src_addr, "1.1.1.1");
    assert_eq!(app.port_forwarders[1].status, "就绪 (已导入)");
    let out = app.update(Message::ConfigFileSelected(None));
    assert!(!out.save_config);
    assert_eq!(app.port_forwarders.len(), 2);
}

#[test]
fn simple_events() {
    let mut app = new_app();
    assert!(matches!(app.update(Message::TrayClicked).command, Command::RestoreWindow));
    assert!(matches!(app.update(Message::Exit).command, Command::CloseWindow));
    assert!(matches!(app.update(Message::ImportConfig).command, Command::PickImportFile));
    assert!(matches!(app.update(Message::ExportConfig).command, Command::PickExportFile));
    assert!(matches!(app.update(Message::RefreshSystemReport).command, Command::FetchSystemReport));
    app.update(Message::SetRefreshInterval(5));
    assert_eq!(app.refresh_interval, 5);
    app.update(Message::RefreshInterfaces);
    assert!(app.interfaces.iter().all(|i| i.name != "lo"));
}

#[test]
fn lan_share_start_needs_interface_and_wan() {
    let mut app = new_app();
    app.update(Message::LanguageChanged(Language::English));
    let out = app.update(Message::ToggleLanShare(0));
    assert!(matches!(out.command, Command::Nothing));
    assert!(!out.save_config);
    assert!(!app.lan_shares[0].is_active);
    assert_eq!(app.lan_shares[0].status, "Please select a LAN interface");

    app.update(Message::UpdateLanShare(0, "interface".into(), "eth1".into()));
    let out = app.update(Message::ToggleLanShare(0));
    assert!(matches!(out.command, Command::Nothing));
    assert!(!app.lan_shares[0].is_active);
    assert_eq!(app.lan_shares[0].status, "Please select a WAN interface");

    app.update(Message::LanWanToggled(0, "wlan0".into(), true));
    let out = app.update(Message::ToggleLanShare(0));
    assert!(matches!(out.command, Command::RunShareCommands { index: 0, target: true, .. }));
    assert_eq!(app.lan_shares[0].status, "Starting...");
}

#[test]
fn protocol_of_a_rule_can_be_chosen() {
    let mut app = new_app();
    app.update(Message::AddForwarder);
    let id = app.port_forwarders[0].id;
    assert_eq!(app.port_forwarders[0].protocol, Protocol::Tcp);
    let out = app.update(Message::ProtocolChanged(id, Protocol::Udp));
    assert!(out.save_config);
    assert_eq!(app.port_forwarders[0].protocol, Protocol::Udp);
    assert_eq!(app.config().forwarders[0].protocol, Protocol::Udp);
    app.update(Message::ProtocolChanged(id.wrapping_add(1), Protocol::Tcp));
    assert_eq!(app.port_forwarders[0].protocol, Protocol::Udp);
}

#[test]
fn new_rules_get_random_uuid_identities() {
    let mut app = new_app();
    app.update(Message::AddForwarder);
    app.update(Message::AddForwarder);
    for f in &app.port_forwarders {
        assert_eq!((f.id >> 76) & 0xf, 4);
        assert_eq!((f.id >> 62) & 0x3, 2);
    }
    assert_ne!(app.port_forwarders[0].id, app.port_forwarders[1].id);
}
