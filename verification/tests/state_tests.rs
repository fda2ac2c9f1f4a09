use conduit::i18n::Language;
use conduit::report::{InterfaceInfo, SystemReport};
use conduit::state::{filter_interfaces, is_shareable_interface, Action, ForwarderApp, Message, Page, PortForwarderConfig, Protocol};

fn strings(v: &[&str]) -> Vec<String> {
    v.iter().map(|s| s.to_string()).collect()
}

fn infos(v: &[&str]) -> Vec<InterfaceInfo> {
    v.iter().map(|s| InterfaceInfo { name: s.to_string() }).collect()
}

fn empty_report() -> SystemReport {
    SystemReport {
        ip_forward_enabled: false,
        nat_masquerade: vec![],
        port_forwards: vec![],
        listening_ports: vec![],
        active_connections: vec![],
        iptables_failed: false,
    }
}

fn app() -> ForwarderApp {
    ForwarderApp::new(infos(&["lo", "eth0", "veth1", "docker0", "br-x", "wlan0"]), (false, vec![], false), empty_report())
}

#[test]
fn interfaces_are_filtered() {
    assert_eq!(filter_interfaces(infos(&["lo", "eth0", "veth1", "docker0", "br-x", "wlan0", "lo0", "bridge"])), strings(&["eth0", "wlan0", "lo0", "bridge"]));
    assert!(!is_shareable_interface("lo"));
    assert!(is_shareable_interface("br0"));
}

#[test]
fn new_state() {
    let a = app();
    assert_eq!(a.interfaces, strings(&["eth0", "wlan0"]));
    assert_eq!(a.current_page, Page::SystemForward);
    assert_eq!(a.language, Language::Chinese);
    assert_eq!(a.host_ip, "192.168.10.1");
    assert_eq!(a.subnet_mask, "24");
    assert_eq!(a.sys_status, "就绪");
    assert_eq!(a.refresh_interval, 1);
    assert!(a.system_report.is_some());
    let b = ForwarderApp::new(vec![], (true, strings(&["eth0"]), false), empty_report());
    assert!(b.sys_active);
    assert_eq!(b.selected_wans, strings(&["eth0"]));
    assert_eq!(b.sys_status, "活跃 (已检测)");
    assert_eq!(b.title(), "Conduit");
}

#[test]
fn subscription_only_on_monitor() {
    let mut a = app();
    assert_eq!(a.subscription(), None);
    a.update(Message::SwitchPage(Page::SystemMonitor));
    a.update(Message::SetRefreshInterval(5));
    assert_eq!(a.subscription(), Some(5));
}

#[test]
fn wan_selection() {
    let mut a = app();
    a.update(Message::WanToggled("eth0".to_string(), true));
    a.update(Message::WanToggled("wlan0".to_string(), true));
    a.update(Message::WanToggled("eth0".to_string(), true));
    assert_eq!(a.selected_wans, strings(&["eth0", "wlan0", "eth0"]));
    a.update(Message::WanToggled("eth0".to_string(), false));
    assert_eq!(a.selected_wans, strings(&["wlan0"]));
    a.update(Message::LanSelected("wlan0".to_string()));
    assert_eq!(a.wan_choices(), strings(&["eth0"]));
}

#[test]
fn sharing_needs_lan_and_wan() {
    let mut a = app();
    assert!(matches!(a.update(Message::ToggleSysForwarding), Action::Nothing));
    assert_eq!(a.sys_status, "Select LAN interface");
    a.update(Message::LanSelected("usb0".to_string()));
    assert!(matches!(a.update(Message::ToggleSysForwarding), Action::Nothing));
    assert_eq!(a.sys_status, "Select at least one WAN");
    a.update(Message::WanToggled("eth0".to_string(), true));
    a.update(Message::HostIpChanged("10.0.0.1".to_string()));
    a.update(Message::SubnetMaskChanged("16".to_string()));
    match a.update(Message::ToggleSysForwarding) {
        Action::StartSystemForwarding { wans, lan, host_ip, mask } => {
            assert_eq!(wans, strings(&["eth0"]));
            assert_eq!(lan, "usb0");
            assert_eq!(host_ip, "10.0.0.1");
            assert_eq!(mask, "16");
        }
        other => panic!("unexpected {:?}", other),
    }
    assert_eq!(a.sys_status, "Starting...");
    a.update(Message::SysForwardingResult(true, Ok(())));
    assert!(a.sys_active);
    assert_eq!(a.sys_status, "Active!");
    match a.update(Message::ToggleSysForwarding) {
        Action::StopSystemForwarding { wans, lan } => {
            assert_eq!(wans, strings(&["eth0"]));
            assert_eq!(lan, "usb0");
        }
        other => panic!("unexpected {:?}", other),
    }
    assert_eq!(a.sys_status, "Stopping...");
    a.update(Message::SysForwardingResult(false, Err("Root failed".to_string())));
    assert!(a.sys_active);
    assert_eq!(a.sys_status, "Error: Root failed");
    a.update(Message::SysForwardingResult(false, Ok(())));
    assert!(!a.sys_active);
    assert_eq!(a.sys_status, "Stopped");
}

#[test]
fn detection_results() {
    let mut a = app();
    assert!(matches!(a.update(Message::DetectSystemForward), Action::DetectSystemForward));
    a.update(Message::SystemForwardDetected(true, strings(&["eth0"]), false));
    assert!(a.sys_active);
    assert_eq!(a.selected_wans, strings(&["eth0"]));
    assert_eq!(a.sys_status, "活跃 (已检测)");
    a.update(Message::LanguageChanged(Language::English));
    a.update(Message::SystemForwardDetected(false, vec![], true));
    assert!(a.sys_active);
    assert_eq!(a.selected_wans, strings(&["eth0"]));
    assert_eq!(a.sys_status, "Detection failed (Permission denied)");
    a.update(Message::SystemForwardDetected(true, vec![], false));
    assert_eq!(a.selected_wans, strings(&["eth0"]));
    a.update(Message::SystemForwardDetected(false, strings(&["x"]), false));
    assert!(!a.sys_active);
    assert_eq!(a.selected_wans, strings(&["eth0"]));
    assert_eq!(a.sys_status, "Ready");
}

#[test]
fn io_messages_ask_for_actions() {
    let mut a = app();
    assert!(matches!(a.update(Message::RefreshInterfaces), Action::ListInterfaces));
    a.update(Message::InterfacesListed(infos(&["lo", "enp3s0"])));
    assert_eq!(a.interfaces, strings(&["enp3s0"]));
    assert!(matches!(a.update(Message::RefreshSystemReport), Action::ReadSystemReport));
    let mut r = empty_report();
    r.ip_forward_enabled = true;
    a.update(Message::SystemReportRead(r));
    assert!(a.system_report.as_ref().unwrap().ip_forward_enabled);
    assert!(matches!(a.update(Message::ImportConfig), Action::PickImportFile));
    assert!(matches!(a.update(Message::ExportConfig), Action::PickExportFile));
}

#[test]
fn forwarders_lifecycle() {
    let mut a = app();
    a.update(Message::LanguageChanged(Language::English));
    a.update(Message::AddForwarder);
    a.update(Message::AddForwarder);
    assert_eq!(a.port_forwarders.len(), 2);
    let id = a.port_forwarders[0].id;
    let other = a.port_forwarders[1].id;
    assert_ne!(id, other);
    assert_eq!((id >> 76) & 0xf, 4);
    assert_eq!((id >> 62) & 0x3, 2);
    let f = &a.port_forwarders[0];
    assert_eq!(f.protocol, Protocol::TCP);
    assert_eq!(f.src_addr, "0.0.0.0");
    assert_eq!(f.dst_addr, "127.0.0.1");
    assert_eq!(f.src_port, "");
    assert!(!f.is_active);
    assert_eq!(f.status, "Ready");

    assert!(matches!(a.update(Message::TogglePortForwarding(id)), Action::Nothing));
    assert_eq!(a.port_forwarders[0].status, "Invalid port");
    a.update(Message::SrcPortChanged(id, "8080".to_string()));
    a.update(Message::DstPortChanged(id, "80".to_string()));
    a.update(Message::DstAddrChanged(id, "10.0.0.2".to_string()));
    a.update(Message::SrcAddrChanged(id, "127.0.0.1".to_string()));
    a.update(Message::ProtocolChanged(id, Protocol::UDP));
    match a.update(Message::TogglePortForwarding(id)) {
        Action::StartPortForward { id: i, protocol, src_addr, src_port, dst_addr, dst_port } => {
            assert_eq!(i, id);
            assert_eq!(protocol, Protocol::UDP);
            assert_eq!(src_addr, "127.0.0.1");
            assert_eq!(src_port, 8080);
            assert_eq!(dst_addr, "10.0.0.2");
            assert_eq!(dst_port, 80);
        }
        other => panic!("unexpected {:?}", other),
    }
    assert!(a.port_forwarders[0].is_active);
    assert_eq!(a.port_forwarders[0].status, "Running");
    a.update(Message::PortForwardingResult(id, Err("address in use".to_string())));
    assert!(!a.port_forwarders[0].is_active);
    assert_eq!(a.port_forwarders[0].status, "Error: address in use");
    a.update(Message::TogglePortForwarding(id));
    assert!(matches!(a.update(Message::TogglePortForwarding(id)), Action::StopPortForward(i) if i == id));
    assert!(!a.port_forwarders[0].is_active);
    assert_eq!(a.port_forwarders[0].status, "Stopped");
    a.update(Message::TogglePortForwarding(id));
    assert!(matches!(a.update(Message::RemoveForwarder(id)), Action::StopPortForward(i) if i == id));
    assert_eq!(a.port_forwarders.len(), 1);
    assert_eq!(a.port_forwarders[0].id, other);
    assert!(matches!(a.update(Message::RemoveForwarder(other)), Action::Nothing));
    assert!(a.port_forwarders.is_empty());
    assert!(matches!(a.update(Message::RemoveForwarder(other)), Action::Nothing));
}

#[test]
fn unknown_ids_change_nothing() {
    let mut a = app();
    a.update(Message::AddForwarder);
    let id = a.port_forwarders[0].id;
    let missing = id ^ 1;
    a.update(Message::SrcPortChanged(missing, "1".to_string()));
    a.update(Message::PortForwardingResult(missing, Err("x".to_string())));
    assert!(matches!(a.update(Message::TogglePortForwarding(missing)), Action::Nothing));
    assert_eq!(a.port_forwarders[0].src_port, "");
    assert_eq!(a.port_forwarders[0].status, "就绪");
}

#[test]
fn export_then_import() {
    let mut a = app();
    a.update(Message::AddForwarder);
    let id = a.port_forwarders[0].id;
    a.update(Message::SrcPortChanged(id, "2222".to_string()));
    a.update(Message::ProtocolChanged(id, Protocol::UDP));
    let cfgs = a.export_configs();
    assert_eq!(cfgs.len(), 1);
    assert_eq!(cfgs[0].protocol, Protocol::UDP);
    assert_eq!(cfgs[0].src_port, "2222");
    a.update(Message::LanguageChanged(Language::English));
    a.update(Message::ConfigsLoaded(cfgs));
    a.update(Message::ConfigsLoaded(vec![PortForwarderConfig {
        protocol: Protocol::TCP,
        src_addr: "1.1.1.1".to_string(),
        src_port: "1".to_string(),
        dst_addr: "2.2.2.2".to_string(),
        dst_port: "2".to_string(),
    }]));
    assert_eq!(a.port_forwarders.len(), 3);
    assert_eq!(a.port_forwarders[1].src_port, "2222");
    assert_eq!(a.port_forwarders[1].protocol, Protocol::UDP);
    assert_eq!(a.port_forwarders[1].status, "Ready (Imported)");
    assert_eq!(a.port_forwarders[2].dst_addr, "2.2.2.2");
    for f in &a.port_forwarders {
        assert_eq!((f.id >> 76) & 0xf, 4);
        assert_eq!((f.id >> 62) & 0x3, 2);
    }
    assert!(!a.port_forwarders[2].is_active);
}

#[test]
fn protocol_labels() {
    assert_eq!(Protocol::all(), [Protocol::TCP, Protocol::UDP]);
    assert_eq!(Protocol::TCP.label(), "TCP");
    assert_eq!(Protocol::UDP.label(), "UDP");
}

#[test]
fn remove_after_add_restores_the_list() {
    let mut a = app();
    a.update(Message::AddForwarder);
    let first = a.port_forwarders[0].id;
    a.update(Message::SrcPortChanged(first, "22".to_string()));
    a.update(Message::AddForwarder);
    let added = a.port_forwarders[1].id;
    assert!(matches!(a.update(Message::RemoveForwarder(added)), Action::Nothing));
    assert_eq!(a.port_forwarders.len(), 1);
    assert_eq!(a.port_forwarders[0].id, first);
    assert_eq!(a.port_forwarders[0].src_port, "22");
}
