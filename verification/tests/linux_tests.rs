use conduit::linux::{
    detect_system_forward_status, report_from_outputs, root_batch_script, start_system_forwarding,
    stop_system_forwarding,
};
use conduit::report::{CommandOutput, SystemReport};

fn strings(v: &[&str]) -> Vec<String> {
    v.iter().map(|s| s.to_string()).collect()
}

fn ok(stdout: &str) -> Option<CommandOutput> {
    Some(CommandOutput { success: true, stdout: stdout.to_string() })
}

#[test]
fn report_sorts_nat_rules_and_sockets() {
    let nat = "-P PREROUTING ACCEPT\n-A POSTROUTING -o eth0 -j MASQUERADE\n-A PREROUTING -p tcp --dport 80 -j DNAT --to 10.0.0.2\n-A OUTPUT -j REDIRECT --to-ports 8080\n";
    let listen = "Netid State Recv-Q\ntcp LISTEN 0 *:22\nudp UNCONN 0 *:53\n";
    let all = "tcp ESTAB 0 0 1.2.3.4:5 users:((\"conduit\",pid=1))\ntcp ESTAB 0 0 1.2.3.4:6 users:((\"ssh\",pid=2))\nudp UNCONN 0 0 *:9 users:((\"conduit\",pid=1))\ntcp TIME-WAIT conduit\n";
    let r = report_from_outputs(Some("1\n".to_string()), ok(nat), ok(listen), ok(all));
    assert!(r.ip_forward_enabled);
    assert_eq!(r.nat_masquerade, strings(&["-A POSTROUTING -o eth0 -j MASQUERADE"]));
    assert_eq!(
        r.port_forwards,
        strings(&["-A PREROUTING -p tcp --dport 80 -j DNAT --to 10.0.0.2", "-A OUTPUT -j REDIRECT --to-ports 8080"])
    );
    assert_eq!(r.listening_ports, strings(&["tcp LISTEN 0 *:22", "udp UNCONN 0 *:53"]));
    assert_eq!(
        r.active_connections,
        strings(&[
            "tcp ESTAB 0 0 1.2.3.4:5 users:((\"conduit\",pid=1))",
            "udp UNCONN 0 0 *:9 users:((\"conduit\",pid=1))"
        ])
    );
    assert!(!r.iptables_failed);
}

#[test]
fn report_marks_iptables_failure() {
    let r = report_from_outputs(None, Some(CommandOutput { success: false, stdout: String::new() }), None, None);
    assert!(!r.ip_forward_enabled);
    assert!(r.iptables_failed);
    assert!(r.nat_masquerade.is_empty() && r.port_forwards.is_empty());
    let r = report_from_outputs(Some("0".to_string()), None, ok(""), ok(""));
    assert!(!r.ip_forward_enabled);
    assert!(r.iptables_failed);
    assert!(r.listening_ports.is_empty() && r.active_connections.is_empty());
}

fn report_with(ip_forward: bool, masq: &[&str], failed: bool) -> SystemReport {
    SystemReport {
        ip_forward_enabled: ip_forward,
        nat_masquerade: strings(masq),
        port_forwards: vec![],
        listening_ports: vec![],
        active_connections: vec![],
        iptables_failed: failed,
    }
}

#[test]
fn detect_reads_out_interfaces() {
    let r = report_with(true, &["-A POSTROUTING -o eth0 -j MASQUERADE", "-A POSTROUTING -s 10.0.0.0/8 -j MASQUERADE", "-A POSTROUTING -o   wlan0 -j MASQUERADE", "-A X -o"], false);
    assert_eq!(detect_system_forward_status(&r), (true, strings(&["eth0", "wlan0"]), false));
    let r = report_with(false, &["-A POSTROUTING -o eth0 -j MASQUERADE"], false);
    assert_eq!(detect_system_forward_status(&r), (false, strings(&["eth0"]), false));
    let r = report_with(true, &[], true);
    assert_eq!(detect_system_forward_status(&r), (false, vec![], true));
}

#[test]
fn start_commands_match_the_shell_script() {
    let cmds = start_system_forwarding(strings(&["eth0", "wlan0"]), "usb0", "192.168.10.1", "24");
    let mut expected = vec![
        "echo 1 > /proc/sys/net/ipv4/ip_forward".to_string(),
        format!("ip addr add {}/{} dev {} 2>/dev/null || true", "192.168.10.1", "24", "usb0"),
        format!("ip link set {} up", "usb0"),
    ];
    for wan_if in ["eth0", "wlan0"] {
        let lan_if = "usb0";
        expected.push(format!("iptables -t nat -D POSTROUTING -o {} -j MASQUERADE 2>/dev/null || true", wan_if));
        expected.push(format!("iptables -t nat -A POSTROUTING -o {} -j MASQUERADE", wan_if));
        expected.push(format!("iptables -D FORWARD -i {} -o {} -m state --state RELATED,ESTABLISHED -j ACCEPT 2>/dev/null || true", wan_if, lan_if));
        expected.push(format!("iptables -A FORWARD -i {} -o {} -m state --state RELATED,ESTABLISHED -j ACCEPT", wan_if, lan_if));
        expected.push(format!("iptables -D FORWARD -i {} -o {} -j ACCEPT 2>/dev/null || true", lan_if, wan_if));
        expected.push(format!("iptables -A FORWARD -i {} -o {} -j ACCEPT", lan_if, wan_if));
    }
    assert_eq!(cmds, expected);
}

#[test]
fn stop_commands_match_the_shell_script() {
    let cmds = stop_system_forwarding(strings(&["eth0"]), "usb0");
    assert_eq!(
        cmds,
        strings(&[
            "iptables -t nat -D POSTROUTING -o eth0 -j MASQUERADE 2>/dev/null || true",
            "iptables -D FORWARD -i eth0 -o usb0 -m state --state RELATED,ESTABLISHED -j ACCEPT 2>/dev/null || true",
            "iptables -D FORWARD -i usb0 -o eth0 -j ACCEPT 2>/dev/null || true",
            "echo 0 > /proc/sys/net/ipv4/ip_forward",
        ])
    );
    assert_eq!(stop_system_forwarding(vec![], "usb0"), strings(&["echo 0 > /proc/sys/net/ipv4/ip_forward"]));
}

#[test]
fn stop_deletes_every_rule_start_appends() {
    let wans = strings(&["eth0", "ppp0"]);
    let start = start_system_forwarding(wans.clone(), "usb0", "10.0.0.1", "24");
    let stop = stop_system_forwarding(wans, "usb0");
    for (i, c) in start.iter().enumerate() {
        if let Some(rest) = c.strip_prefix("iptables ") {
            if rest.contains("-A ") {
                let delete = format!("{} 2>/dev/null || true", c.replacen("-A ", "-D ", 1));
                assert_eq!(start[i - 1], delete);
                assert!(stop.contains(&delete));
            }
        }
    }
    assert_eq!(start[0], "echo 1 > /proc/sys/net/ipv4/ip_forward");
    assert_eq!(stop.last().unwrap(), "echo 0 > /proc/sys/net/ipv4/ip_forward");
}

#[test]
fn detection_recognises_what_start_appended() {
    let wans = strings(&["eth0", "wlp2s0"]);
    let listed: Vec<String> = wans.iter().map(|w| format!("-A POSTROUTING -o {} -j MASQUERADE", w)).collect();
    let nat = format!("-P POSTROUTING ACCEPT\n{}\n", listed.join("\n"));
    let r = report_from_outputs(Some("1".to_string()), ok(&nat), None, None);
    assert_eq!(detect_system_forward_status(&r), (true, wans, false));
}

#[test]
fn batch_script_joins_commands() {
    assert_eq!(root_batch_script(&vec![]), None);
    assert_eq!(root_batch_script(&strings(&["a", "b"])), Some("a && b".to_string()));
    let cmds = stop_system_forwarding(strings(&["eth0"]), "usb0");
    assert_eq!(root_batch_script(&cmds), Some(cmds.join(" && ")));
}
