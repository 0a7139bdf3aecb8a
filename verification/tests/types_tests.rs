use conduit::i18n;
use conduit::types::{AppConfig, CloseBehavior, Language, LanShareConfig, Protocol};

#[test]
fn test_language_all_keys_non_empty() {
    let keys = [
        "nav_share",
        "nav_forward",
        "nav_monitor",
        "nav_about",
        "nav_settings",
        "title_share",
        "title_forward",
        "title_monitor",
        "title_settings",
        "label_wan",
        "label_lan",
        "label_lan_ip",
        "btn_start_share",
        "btn_stop_share",
        "btn_detect",
        "btn_refresh_iface",
        "btn_refresh",
        "btn_add_new",
        "btn_import",
        "btn_export",
        "status_ready",
        "status_active",
        "label_ip_forward",
        "label_enabled",
        "label_disabled",
        "monitor_active_flows",
        "monitor_nat_rules",
        "monitor_port_rules",
        "monitor_listen_ports",
        "msg_det_failed",
        "msg_select_wan",
        "msg_select_lan",
        "msg_stopping",
        "msg_starting",
        "msg_stopped",
        "msg_active_bang",
        "about_desc",
        "label_current_share",
        "label_active_iface",
        "status_running",
        "status_invalid_port",
        "status_stopped",
        "status_imported",
        "label_close_behavior",
        "opt_minimize",
        "opt_quit",
    ];
    for lang in [Language::Chinese, Language::English] {
        for key in &keys {
            let val = lang.get(key);
            assert!(!val.is_empty(), "{:?}.get({:?}) empty", lang, key);
            assert_ne!(val, "Unknown", "{:?}.get({:?}) is Unknown", lang, key);
        }
    }
}

#[test]
fn test_language_unknown_key() {
    assert_eq!(Language::Chinese.get("nonexistent"), "Unknown");
    assert_eq!(Language::English.get("nonexistent"), "Unknown");
}

#[test]
fn test_protocol_display() {
    assert_eq!(Protocol::Tcp.to_string(), "TCP");
    assert_eq!(Protocol::Udp.to_string(), "UDP");
}

#[test]
fn translations_of_statuses() {
    assert_eq!(Language::English.get("status_ready"), "Ready");
    assert_eq!(Language::Chinese.get("status_ready"), "就绪");
    assert_eq!(Language::Chinese.get("nav_share"), "网络共享");
    assert_eq!(Language::English.get("status_invalid_port"), "Invalid port");
    assert_eq!(Language::Chinese.get("status_invalid_port"), "无效端口");
    assert_eq!(i18n::get(Language::English, "opt_quit"), "Quit");
    assert_eq!(i18n::get(Language::English, ""), "Unknown");
    assert_eq!(i18n::get(Language::English, "status_ready "), "Unknown");
}

#[test]
fn default_lan_share_config() {
    let c = LanShareConfig::default();
    assert_eq!(c.interface, "");
    assert_eq!(c.ip, "192.168.10.1");
    assert_eq!(c.mask, "24");
    assert!(c.wans.is_empty());
}

#[test]
fn default_app_config() {
    let c = AppConfig::default();
    assert_eq!(c.language, Language::Chinese);
    assert_eq!(c.close_behavior, CloseBehavior::Quit);
    assert!(c.forwarders.is_empty());
    assert_eq!(c.lan_shares.len(), 1);
    assert_eq!(c.lan_shares[0].ip, "192.168.10.1");
}
