//! The interface texts in the two languages, looked up by key.
use vstd::prelude::*;
use crate::text::str_eq;

verus! {

/// The languages that the interface speaks.
#[derive(Debug, Clone, Copy, PartialEq, Eq, Structural)]
pub enum Language {
    English,
    Chinese,
}

/// The Chinese text of each key; `Unknown` for a key without one.
pub open spec fn chinese_text(key: Seq<char>) -> Seq<char> {
    if key == "nav_share"@ {
        "网络共享"@
    } else if key == "nav_forward"@ {
        "端口转发"@
    } else if key == "nav_monitor"@ {
        "系统监控"@
    } else if key == "nav_about"@ {
        "关于"@
    } else if key == "title_share"@ {
        "Conduit - 网络共享"@
    } else if key == "title_forward"@ {
        "Conduit - 端口转发"@
    } else if key == "title_monitor"@ {
        "系统网络概览"@
    } else if key == "label_wan"@ {
        "外网接口 (WANs):"@
    } else if key == "label_lan"@ {
        "目标接口 (LAN):"@
    } else if key == "label_lan_ip"@ {
        "局域网 IP:"@
    } else if key == "btn_start_share"@ {
        "开始共享"@
    } else if key == "btn_stop_share"@ {
        "停止共享"@
    } else if key == "btn_detect"@ {
        "检测状态"@
    } else if key == "btn_refresh_iface"@ {
        "刷新接口"@
    } else if key == "btn_refresh"@ {
        "刷新"@
    } else if key == "btn_add_new"@ {
        "添加新转发"@
    } else if key == "btn_import"@ {
        "导入"@
    } else if key == "btn_export"@ {
        "导出"@
    } else if key == "status_ready"@ {
        "就绪"@
    } else if key == "status_active"@ {
        "活跃 (已检测)"@
    } else if key == "label_ip_forward"@ {
        "IP 转发 (内核):"@
    } else if key == "label_enabled"@ {
        "已开启"@
    } else if key == "label_disabled"@ {
        "已关闭"@
    } else if key == "monitor_active_flows"@ {
        "Conduit 活跃转发流"@
    } else if key == "monitor_nat_rules"@ {
        "NAT 规则 (Masquerade)"@
    } else if key == "monitor_port_rules"@ {
        "端口转发规则 (DNAT/Redirect)"@
    } else if key == "monitor_listen_ports"@ {
        "活跃监听端口 (TCP/UDP)"@
    } else if key == "msg_det_failed"@ {
        "检测失败 (权限不足)"@
    } else {
        "Unknown"@
    }
}

/// The English text of each key; `Unknown` for a key without one.
pub open spec fn english_text(key: Seq<char>) -> Seq<char> {
    if key == "nav_share"@ {
        "Network Share"@
    } else if key == "nav_forward"@ {
        "Port Forwarders"@
    } else if key == "nav_monitor"@ {
        "System Monitor"@
    } else if key == "nav_about"@ {
        "About"@
    } else if key == "title_share"@ {
        "Conduit - Network Share"@
    } else if key == "title_forward"@ {
        "Conduit - Port Forwarders"@
    } else if key == "title_monitor"@ {
        "System Network Overview"@
    } else if key == "label_wan"@ {
        "Sources (WANs):"@
    } else if key == "label_lan"@ {
        "Target (LAN):"@
    } else if key == "label_lan_ip"@ {
        "LAN IP:"@
    } else if key == "btn_start_share"@ {
        "Start Share"@
    } else if key == "btn_stop_share"@ {
        "Stop Share"@
    } else if key == "btn_detect"@ {
        "Detect Status"@
    } else if key == "btn_refresh_iface"@ {
        "Refresh Interfaces"@
    } else if key == "btn_refresh"@ {
        "Refresh"@
    } else if key == "btn_add_new"@ {
        "Add New"@
    } else if key == "btn_import"@ {
        "Import"@
    } else if key == "btn_export"@ {
        "Export"@
    } else if key == "status_ready"@ {
        "Ready"@
    } else if key == "status_active"@ {
        "Active (Detected)"@
    } else if key == "label_ip_forward"@ {
        "IP Forwarding (Kernel):"@
    } else if key == "label_enabled"@ {
        "ENABLED"@
    } else if key == "label_disabled"@ {
        "DISABLED"@
    } else if key == "monitor_active_flows"@ {
        "Conduit Active Forwarding Flows"@
    } else if key == "monitor_nat_rules"@ {
        "NAT Rules (Masquerade)"@
    } else if key == "monitor_port_rules"@ {
        "Port Forward Rules (DNAT/Redirect)"@
    } else if key == "monitor_listen_ports"@ {
        "Active Listening Ports (TCP/UDP)"@
    } else if key == "msg_det_failed"@ {
        "Detection failed (Permission denied)"@
    } else {
        "Unknown"@
    }
}

/// The text of `key` in `lang`.
pub open spec fn text_for(lang: Language, key: Seq<char>) -> Seq<char> {
    match lang {
        Language::Chinese => chinese_text(key),
        Language::English => english_text(key),
    }
}

fn chinese_get(key: &str) -> (res: &'static str)
    ensures
        res@ == chinese_text(key@),
{
    if str_eq(key, "nav_share") {
        "网络共享"
    } else if str_eq(key, "nav_forward") {
        "端口转发"
    } else if str_eq(key, "nav_monitor") {
        "系统监控"
    } else if str_eq(key, "nav_about") {
        "关于"
    } else if str_eq(key, "title_share") {
        "Conduit - 网络共享"
    } else if str_eq(key, "title_forward") {
        "Conduit - 端口转发"
    } else if str_eq(key, "title_monitor") {
        "系统网络概览"
    } else if str_eq(key, "label_wan") {
        "外网接口 (WANs):"
    } else if str_eq(key, "label_lan") {
        "目标接口 (LAN):"
    } else if str_eq(key, "label_lan_ip") {
        "局域网 IP:"
    } else if str_eq(key, "btn_start_share") {
        "开始共享"
    } else if str_eq(key, "btn_stop_share") {
        "停止共享"
    } else if str_eq(key, "btn_detect") {
        "检测状态"
    } else if str_eq(key, "btn_refresh_iface") {
        "刷新接口"
    } else if str_eq(key, "btn_refresh") {
        "刷新"
    } else if str_eq(key, "btn_add_new") {
        "添加新转发"
    } else if str_eq(key, "btn_import") {
        "导入"
    } else if str_eq(key, "btn_export") {
        "导出"
    } else if str_eq(key, "status_ready") {
        "就绪"
    } else if str_eq(key, "status_active") {
        "活跃 (已检测)"
    } else if str_eq(key, "label_ip_forward") {
        "IP 转发 (内核):"
    } else if str_eq(key, "label_enabled") {
        "已开启"
    } else if str_eq(key, "label_disabled") {
        "已关闭"
    } else if str_eq(key, "monitor_active_flows") {
        "Conduit 活跃转发流"
    } else if str_eq(key, "monitor_nat_rules") {
        "NAT 规则 (Masquerade)"
    } else if str_eq(key, "monitor_port_rules") {
        "端口转发规则 (DNAT/Redirect)"
    } else if str_eq(key, "monitor_listen_ports") {
        "活跃监听端口 (TCP/UDP)"
    } else if str_eq(key, "msg_det_failed") {
        "检测失败 (权限不足)"
    } else {
        "Unknown"
    }
}

fn english_get(key: &str) -> (res: &'static str)
    ensures
        res@ == english_text(key@),
{
    if str_eq(key, "nav_share") {
        "Network Share"
    } else if str_eq(key, "nav_forward") {
        "Port Forwarders"
    } else if str_eq(key, "nav_monitor") {
        "System Monitor"
    } else if str_eq(key, "nav_about") {
        "About"
    } else if str_eq(key, "title_share") {
        "Conduit - Network Share"
    } else if str_eq(key, "title_forward") {
        "Conduit - Port Forwarders"
    } else if str_eq(key, "title_monitor") {
        "System Network Overview"
    } else if str_eq(key, "label_wan") {
        "Sources (WANs):"
    } else if str_eq(key, "label_lan") {
        "Target (LAN):"
    } else if str_eq(key, "label_lan_ip") {
        "LAN IP:"
    } else if str_eq(key, "btn_start_share") {
        "Start Share"
    } else if str_eq(key, "btn_stop_share") {
        "Stop Share"
    } else if str_eq(key, "btn_detect") {
        "Detect Status"
    } else if str_eq(key, "btn_refresh_iface") {
        "Refresh Interfaces"
    } else if str_eq(key, "btn_refresh") {
        "Refresh"
    } else if str_eq(key, "btn_add_new") {
        "Add New"
    } else if str_eq(key, "btn_import") {
        "Import"
    } else if str_eq(key, "btn_export") {
        "Export"
    } else if str_eq(key, "status_ready") {
        "Ready"
    } else if str_eq(key, "status_active") {
        "Active (Detected)"
    } else if str_eq(key, "label_ip_forward") {
        "IP Forwarding (Kernel):"
    } else if str_eq(key, "label_enabled") {
        "ENABLED"
    } else if str_eq(key, "label_disabled") {
        "DISABLED"
    } else if str_eq(key, "monitor_active_flows") {
        "Conduit Active Forwarding Flows"
    } else if str_eq(key, "monitor_nat_rules") {
        "NAT Rules (Masquerade)"
    } else if str_eq(key, "monitor_port_rules") {
        "Port Forward Rules (DNAT/Redirect)"
    } else if str_eq(key, "monitor_listen_ports") {
        "Active Listening Ports (TCP/UDP)"
    } else if str_eq(key, "msg_det_failed") {
        "Detection failed (Permission denied)"
    } else {
        "Unknown"
    }
}

impl Language {
    /// The interface text of `key` in this language, `Unknown` for a key
    /// that has none.
    pub fn get(&self, key: &str) -> (res: &'static str)
        ensures
            res@ == text_for(*self, key@),
    {
        match self {
            Language::Chinese => chinese_get(key),
            Language::English => english_get(key),
        }
    }
}

/// A text that is not seven characters long, or does not begin with `U`,
/// is not `Unknown`.
proof fn lemma_not_unknown(t: Seq<char>)
    requires
        t.len() != 7 || t[0] != 'U',
    ensures
        t != "Unknown"@,
{
    reveal_strlit("Unknown");
}

/// Both languages cover the same keys: a key has a text in English exactly
/// when it has one in Chinese, and a key without one reads `Unknown`.
pub proof fn lemma_languages_cover_same_keys(key: Seq<char>)
    ensures
        (english_text(key) == "Unknown"@) <==> (chinese_text(key) == "Unknown"@),
{
    reveal_strlit("网络共享");
    lemma_not_unknown("网络共享"@);
    reveal_strlit("端口转发");
    lemma_not_unknown("端口转发"@);
    reveal_strlit("系统监控");
    lemma_not_unknown("系统监控"@);
    reveal_strlit("关于");
    lemma_not_unknown("关于"@);
    reveal_strlit("Conduit - 网络共享");
    lemma_not_unknown("Conduit - 网络共享"@);
    reveal_strlit("Conduit - 端口转发");
    lemma_not_unknown("Conduit - 端口转发"@);
    reveal_strlit("系统网络概览");
    lemma_not_unknown("系统网络概览"@);
    reveal_strlit("外网接口 (WANs):");
    lemma_not_unknown("外网接口 (WANs):"@);
    reveal_strlit("目标接口 (LAN):");
    lemma_not_unknown("目标接口 (LAN):"@);
    reveal_strlit("局域网 IP:");
    lemma_not_unknown("局域网 IP:"@);
    reveal_strlit("开始共享");
    lemma_not_unknown("开始共享"@);
    reveal_strlit("停止共享");
    lemma_not_unknown("停止共享"@);
    reveal_strlit("检测状态");
    lemma_not_unknown("检测状态"@);
    reveal_strlit("刷新接口");
    lemma_not_unknown("刷新接口"@);
    reveal_strlit("刷新");
    lemma_not_unknown("刷新"@);
    reveal_strlit("添加新转发");
    lemma_not_unknown("添加新转发"@);
    reveal_strlit("导入");
    lemma_not_unknown("导入"@);
    reveal_strlit("导出");
    lemma_not_unknown("导出"@);
    reveal_strlit("就绪");
    lemma_not_unknown("就绪"@);
    reveal_strlit("活跃 (已检测)");
    lemma_not_unknown("活跃 (已检测)"@);
    reveal_strlit("IP 转发 (内核):");
    lemma_not_unknown("IP 转发 (内核):"@);
    reveal_strlit("已开启");
    lemma_not_unknown("已开启"@);
    reveal_strlit("已关闭");
    lemma_not_unknown("已关闭"@);
    reveal_strlit("Conduit 活跃转发流");
    lemma_not_unknown("Conduit 活跃转发流"@);
    reveal_strlit("NAT 规则 (Masquerade)");
    lemma_not_unknown("NAT 规则 (Masquerade)"@);
    reveal_strlit("端口转发规则 (DNAT/Redirect)");
    lemma_not_unknown("端口转发规则 (DNAT/Redirect)"@);
    reveal_strlit("活跃监听端口 (TCP/UDP)");
    lemma_not_unknown("活跃监听端口 (TCP/UDP)"@);
    reveal_strlit("检测失败 (权限不足)");
    lemma_not_unknown("检测失败 (权限不足)"@);
    reveal_strlit("Network Share");
    lemma_not_unknown("Network Share"@);
    reveal_strlit("Port Forwarders");
    lemma_not_unknown("Port Forwarders"@);
    reveal_strlit("System Monitor");
    lemma_not_unknown("System Monitor"@);
    reveal_strlit("About");
    lemma_not_unknown("About"@);
    reveal_strlit("Conduit - Network Share");
    lemma_not_unknown("Conduit - Network Share"@);
    reveal_strlit("Conduit - Port Forwarders");
    lemma_not_unknown("Conduit - Port Forwarders"@);
    reveal_strlit("System Network Overview");
    lemma_not_unknown("System Network Overview"@);
    reveal_strlit("Sources (WANs):");
    lemma_not_unknown("Sources (WANs):"@);
    reveal_strlit("Target (LAN):");
    lemma_not_unknown("Target (LAN):"@);
    reveal_strlit("LAN IP:");
    lemma_not_unknown("LAN IP:"@);
    reveal_strlit("Start Share");
    lemma_not_unknown("Start Share"@);
    reveal_strlit("Stop Share");
    lemma_not_unknown("Stop Share"@);
    reveal_strlit("Detect Status");
    lemma_not_unknown("Detect Status"@);
    reveal_strlit("Refresh Interfaces");
    lemma_not_unknown("Refresh Interfaces"@);
    reveal_strlit("Refresh");
    lemma_not_unknown("Refresh"@);
    reveal_strlit("Add New");
    lemma_not_unknown("Add New"@);
    reveal_strlit("Import");
    lemma_not_unknown("Import"@);
    reveal_strlit("Export");
    lemma_not_unknown("Export"@);
    reveal_strlit("Ready");
    lemma_not_unknown("Ready"@);
    reveal_strlit("Active (Detected)");
    lemma_not_unknown("Active (Detected)"@);
    reveal_strlit("IP Forwarding (Kernel):");
    lemma_not_unknown("IP Forwarding (Kernel):"@);
    reveal_strlit("ENABLED");
    lemma_not_unknown("ENABLED"@);
    reveal_strlit("DISABLED");
    lemma_not_unknown("DISABLED"@);
    reveal_strlit("Conduit Active Forwarding Flows");
    lemma_not_unknown("Conduit Active Forwarding Flows"@);
    reveal_strlit("NAT Rules (Masquerade)");
    lemma_not_unknown("NAT Rules (Masquerade)"@);
    reveal_strlit("Port Forward Rules (DNAT/Redirect)");
    lemma_not_unknown("Port Forward Rules (DNAT/Redirect)"@);
    reveal_strlit("Active Listening Ports (TCP/UDP)");
    lemma_not_unknown("Active Listening Ports (TCP/UDP)"@);
    reveal_strlit("Detection failed (Permission denied)");
    lemma_not_unknown("Detection failed (Permission denied)"@);
}

} // verus!
