use conduit::i18n::Language;

const KEYS: [&str; 28] = [
    "nav_share", "nav_forward", "nav_monitor", "nav_about", "title_share", "title_forward", "title_monitor",
    "label_wan", "label_lan", "label_lan_ip", "btn_start_share", "btn_stop_share", "btn_detect",
    "btn_refresh_iface", "btn_refresh", "btn_add_new", "btn_import", "btn_export", "status_ready",
    "status_active", "label_ip_forward", "label_enabled", "label_disabled", "monitor_active_flows",
    "monitor_nat_rules", "monitor_port_rules", "monitor_listen_ports", "msg_det_failed",
];

#[test]
fn texts_in_both_languages() {
    assert_eq!(Language::Chinese.get("nav_share"), "网络共享");
    assert_eq!(Language::English.get("nav_share"), "Network Share");
    assert_eq!(Language::Chinese.get("msg_det_failed"), "检测失败 (权限不足)");
    assert_eq!(Language::English.get("label_enabled"), "ENABLED");
    assert_eq!(Language::English.get("monitor_port_rules"), "Port Forward Rules (DNAT/Redirect)");
}

#[test]
fn unknown_keys_read_unknown() {
    assert_eq!(Language::Chinese.get("nope"), "Unknown");
    assert_eq!(Language::English.get(""), "Unknown");
    assert_eq!(Language::English.get("nav_share "), "Unknown");
}

#[test]
fn every_key_has_both_texts() {
    for k in KEYS {
        assert_ne!(Language::Chinese.get(k), "Unknown", "{}", k);
        assert_ne!(Language::English.get(k), "Unknown", "{}", k);
        assert_ne!(Language::Chinese.get(k), Language::English.get(k), "{}", k);
    }
}
