use conduit::report::SystemReport;
use conduit::windows::{detect_system_forward_status, report_from_outputs, start_system_forwarding, stop_system_forwarding};

#[test]
fn windows_report_from_outputs() {
    let netstat = "\nActive Connections\n\n  Proto  Local Address\n  TCP    0.0.0.0:135\n  UDP    0.0.0.0:500\n";
    let r = report_from_outputs(Some("1\r\n".to_string()), Some(netstat.to_string()));
    assert!(r.ip_forward_enabled);
    assert_eq!(r.listening_ports, vec!["  TCP    0.0.0.0:135".to_string(), "  UDP    0.0.0.0:500".to_string()]);
    assert_eq!(r.active_connections, vec!["Windows support is in progress...".to_string()]);
    assert!(r.nat_masquerade.is_empty() && r.port_forwards.is_empty() && !r.iptables_failed);
    let r = report_from_outputs(None, Some("a\nb".to_string()));
    assert!(!r.ip_forward_enabled);
    assert!(r.listening_ports.is_empty());
}

#[test]
fn windows_sharing_is_refused() {
    let e = start_system_forwarding(vec!["eth0".to_string()], "usb0", "192.168.10.1", "24").unwrap_err();
    assert_eq!(e, "System forwarding is not yet fully supported on Windows. Please use Port Forwarders instead.");
    assert_eq!(stop_system_forwarding(vec![], "usb0"), Ok(()));
    let r = SystemReport {
        ip_forward_enabled: true,
        nat_masquerade: vec!["-A POSTROUTING -o eth0 -j MASQUERADE".to_string()],
        port_forwards: vec![],
        listening_ports: vec![],
        active_connections: vec![],
        iptables_failed: true,
    };
    assert_eq!(detect_system_forward_status(&r), (true, vec![], false));
}
