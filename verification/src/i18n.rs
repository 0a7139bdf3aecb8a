use vstd::prelude::*;

use crate::types::Language;

verus! {

/// The text for `lang`: `zh` in Chinese, `en` in English.
pub open spec fn in_language(lang: Language, zh: Seq<char>, en: Seq<char>) -> Seq<char> {
    match lang {
        Language::Chinese => zh,
        Language::English => en,
    }
}

/// The translation table: the text of `key` in `lang`, or nothing when the
/// key is not in the table.
pub open spec fn translation(lang: Language, key: Seq<char>) -> Option<Seq<char>> {
    if key == "nav_share"@ {
        Some(in_language(lang, "网络共享"@, "Network Share"@))
    } else if key == "nav_forward"@ {
        Some(in_language(lang, "端口转发"@, "Port Forwarding"@))
    } else if key == "nav_monitor"@ {
        Some(in_language(lang, "系统监控"@, "System Monitor"@))
    } else if key == "nav_about"@ {
        Some(in_language(lang, "关于"@, "About"@))
    } else if key == "nav_settings"@ {
        Some(in_language(lang, "设置"@, "Settings"@))
    } else if key == "title_share"@ {
        Some(in_language(lang, "网络共享"@, "Network Sharing"@))
    } else if key == "title_forward"@ {
        Some(in_language(lang, "端口转发"@, "Port Forwarding"@))
    } else if key == "title_monitor"@ {
        Some(in_language(lang, "系统监控"@, "System Monitor"@))
    } else if key == "title_settings"@ {
        Some(in_language(lang, "设置"@, "Settings"@))
    } else if key == "label_wan"@ {
        Some(in_language(lang, "外网接口池"@, "WAN Interface Pool"@))
    } else if key == "label_lan"@ {
        Some(in_language(lang, "LAN 共享"@, "LAN Share"@))
    } else if key == "label_lan_ip"@ {
        Some(in_language(lang, "LAN IP"@, "LAN IP"@))
    } else if key == "btn_start_share"@ {
        Some(in_language(lang, "开始共享"@, "Start Sharing"@))
    } else if key == "btn_stop_share"@ {
        Some(in_language(lang, "停止共享"@, "Stop Sharing"@))
    } else if key == "btn_detect"@ {
        Some(in_language(lang, "检测状态"@, "Detect Status"@))
    } else if key == "btn_refresh_iface"@ {
        Some(in_language(lang, "刷新接口"@, "Refresh Interfaces"@))
    } else if key == "btn_refresh"@ {
        Some(in_language(lang, "刷新"@, "Refresh"@))
    } else if key == "btn_add_new"@ {
        Some(in_language(lang, "添加新转发"@, "Add New"@))
    } else if key == "btn_import"@ {
        Some(in_language(lang, "导入"@, "Import"@))
    } else if key == "btn_export"@ {
        Some(in_language(lang, "导出"@, "Export"@))
    } else if key == "status_ready"@ {
        Some(in_language(lang, "就绪"@, "Ready"@))
    } else if key == "status_active"@ {
        Some(in_language(lang, "共享已开启"@, "Sharing Active"@))
    } else if key == "label_ip_forward"@ {
        Some(in_language(lang, "IP 转发"@, "IP Forwarding"@))
    } else if key == "label_enabled"@ {
        Some(in_language(lang, "已开启"@, "Enabled"@))
    } else if key == "label_disabled"@ {
        Some(in_language(lang, "已关闭"@, "Disabled"@))
    } else if key == "monitor_active_flows"@ {
        Some(in_language(lang, "活跃转发流"@, "Active Flows"@))
    } else if key == "monitor_nat_rules"@ {
        Some(in_language(lang, "NAT 规则"@, "NAT Rules"@))
    } else if key == "monitor_port_rules"@ {
        Some(in_language(lang, "端口转发规则"@, "Port Forward Rules"@))
    } else if key == "monitor_listen_ports"@ {
        Some(in_language(lang, "监听端口"@, "Listening Ports"@))
    } else if key == "msg_det_failed"@ {
        Some(in_language(lang, "检测失败（需要 root 权限？）"@, "Detection failed (root required?)"@))
    } else if key == "msg_select_wan"@ {
        Some(in_language(lang, "请选择外网接口"@, "Please select a WAN interface"@))
    } else if key == "msg_select_lan"@ {
        Some(in_language(lang, "请选择 LAN 接口"@, "Please select a LAN interface"@))
    } else if key == "msg_stopping"@ {
        Some(in_language(lang, "正在停止..."@, "Stopping..."@))
    } else if key == "msg_starting"@ {
        Some(in_language(lang, "正在启动..."@, "Starting..."@))
    } else if key == "msg_stopped"@ {
        Some(in_language(lang, "已停止"@, "Stopped"@))
    } else if key == "msg_active_bang"@ {
        Some(in_language(lang, "共享已开启！"@, "Sharing active!"@))
    } else if key == "about_desc"@ {
        Some(in_language(lang, "跨平台网络工具，为开发板联网和端口转发提供图形化界面。"@, "A cross-platform network utility with a graphical interface for board networking and port forwarding."@))
    } else if key == "label_current_share"@ {
        Some(in_language(lang, "当前共享"@, "Current Shares"@))
    } else if key == "label_active_iface"@ {
        Some(in_language(lang, "活跃接口"@, "Active Interface"@))
    } else if key == "status_running"@ {
        Some(in_language(lang, "运行中"@, "Running"@))
    } else if key == "status_invalid_port"@ {
        Some(in_language(lang, "无效端口"@, "Invalid port"@))
    } else if key == "status_stopped"@ {
        Some(in_language(lang, "已停止"@, "Stopped"@))
    } else if key == "status_imported"@ {
        Some(in_language(lang, "已导入"@, "Imported"@))
    } else if key == "label_close_behavior"@ {
        Some(in_language(lang, "关闭窗口时"@, "When closing the window"@))
    } else if key == "opt_minimize"@ {
        Some(in_language(lang, "最小化到托盘"@, "Minimize to tray"@))
    } else if key == "opt_quit"@ {
        Some(in_language(lang, "退出"@, "Quit"@))
    } else {
        None
    }
}

/// What a lookup shows: the translation, or "Unknown" for a key that the
/// table does not hold.
pub open spec fn translate(lang: Language, key: Seq<char>) -> Seq<char> {
    match translation(lang, key) {
        Some(text) => text,
        None => "Unknown"@,
    }
}

/// Picks the Chinese or the English text.
fn choose_text(lang: Language, zh: &'static str, en: &'static str) -> (r: &'static str)
    ensures
        r@ == in_language(lang, zh@, en@),
{
    match lang {
        Language::Chinese => zh,
        Language::English => en,
    }
}

/// The user-interface text of `key` in `lang`; "Unknown" when the key has no
/// translation.
#[verifier::rlimit(50)]
pub fn get(lang: Language, key: &str) -> (r: &'static str)
    ensures
        r@ == translate(lang, key@),
{
    if key.eq("nav_share") {
        choose_text(lang, "网络共享", "Network Share")
    } else if key.eq("nav_forward") {
        choose_text(lang, "端口转发", "Port Forwarding")
    } else if key.eq("nav_monitor") {
        choose_text(lang, "系统监控", "System Monitor")
    } else if key.eq("nav_about") {
        choose_text(lang, "关于", "About")
    } else if key.eq("nav_settings") {
        choose_text(lang, "设置", "Settings")
    } else if key.eq("title_share") {
        choose_text(lang, "网络共享", "Network Sharing")
    } else if key.eq("title_forward") {
        choose_text(lang, "端口转发", "Port Forwarding")
    } else if key.eq("title_monitor") {
        choose_text(lang, "系统监控", "System Monitor")
    } else if key.eq("title_settings") {
        choose_text(lang, "设置", "Settings")
    } else if key.eq("label_wan") {
        choose_text(lang, "外网接口池", "WAN Interface Pool")
    } else if key.eq("label_lan") {
        choose_text(lang, "LAN 共享", "LAN Share")
    } else if key.eq("label_lan_ip") {
        choose_text(lang, "LAN IP", "LAN IP")
    } else if key.eq("btn_start_share") {
        choose_text(lang, "开始共享", "Start Sharing")
    } else if key.eq("btn_stop_share") {
        choose_text(lang, "停止共享", "Stop Sharing")
    } else if key.eq("btn_detect") {
        choose_text(lang, "检测状态", "Detect Status")
    } else if key.eq("btn_refresh_iface") {
        choose_text(lang, "刷新接口", "Refresh Interfaces")
    } else if key.eq("btn_refresh") {
        choose_text(lang, "刷新", "Refresh")
    } else if key.eq("btn_add_new") {
        choose_text(lang, "添加新转发", "Add New")
    } else if key.eq("btn_import") {
        choose_text(lang, "导入", "Import")
    } else if key.eq("btn_export") {
        choose_text(lang, "导出", "Export")
    } else if key.eq("status_ready") {
        choose_text(lang, "就绪", "Ready")
    } else if key.eq("status_active") {
        choose_text(lang, "共享已开启", "Sharing Active")
    } else if key.eq("label_ip_forward") {
        choose_text(lang, "IP 转发", "IP Forwarding")
    } else if key.eq("label_enabled") {
        choose_text(lang, "已开启", "Enabled")
    } else if key.eq("label_disabled") {
        choose_text(lang, "已关闭", "Disabled")
    } else if key.eq("monitor_active_flows") {
        choose_text(lang, "活跃转发流", "Active Flows")
    } else if key.eq("monitor_nat_rules") {
        choose_text(lang, "NAT 规则", "NAT Rules")
    } else if key.eq("monitor_port_rules") {
        choose_text(lang, "端口转发规则", "Port Forward Rules")
    } else if key.eq("monitor_listen_ports") {
        choose_text(lang, "监听端口", "Listening Ports")
    } else if key.eq("msg_det_failed") {
        choose_text(lang, "检测失败（需要 root 权限？）", "Detection failed (root required?)")
    } else if key.eq("msg_select_wan") {
        choose_text(lang, "请选择外网接口", "Please select a WAN interface")
    } else if key.eq("msg_select_lan") {
        choose_text(lang, "请选择 LAN 接口", "Please select a LAN interface")
    } else if key.eq("msg_stopping") {
        choose_text(lang, "正在停止...", "Stopping...")
    } else if key.eq("msg_starting") {
        choose_text(lang, "正在启动...", "Starting...")
    } else if key.eq("msg_stopped") {
        choose_text(lang, "已停止", "Stopped")
    } else if key.eq("msg_active_bang") {
        choose_text(lang, "共享已开启！", "Sharing active!")
    } else if key.eq("about_desc") {
        choose_text(lang, "跨平台网络工具，为开发板联网和端口转发提供图形化界面。", "A cross-platform network utility with a graphical interface for board networking and port forwarding.")
    } else if key.eq("label_current_share") {
        choose_text(lang, "当前共享", "Current Shares")
    } else if key.eq("label_active_iface") {
        choose_text(lang, "活跃接口", "Active Interface")
    } else if key.eq("status_running") {
        choose_text(lang, "运行中", "Running")
    } else if key.eq("status_invalid_port") {
        choose_text(lang, "无效端口", "Invalid port")
    } else if key.eq("status_stopped") {
        choose_text(lang, "已停止", "Stopped")
    } else if key.eq("status_imported") {
        choose_text(lang, "已导入", "Imported")
    } else if key.eq("label_close_behavior") {
        choose_text(lang, "关闭窗口时", "When closing the window")
    } else if key.eq("opt_minimize") {
        choose_text(lang, "最小化到托盘", "Minimize to tray")
    } else if key.eq("opt_quit") {
        choose_text(lang, "退出", "Quit")
    } else {
        "Unknown"
    }
}

} // verus!
