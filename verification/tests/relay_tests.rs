use conduit::relay::{PeerAddr, UdpSessions, SESSION_IDLE_NANOS};

fn peer(port: u16) -> PeerAddr {
    PeerAddr { v6: false, ip: 0x7f000001, port, flowinfo: 0, scope_id: 0 }
}

#[test]
fn sessions_track_peers() {
    let mut s = UdpSessions::new();
    assert_eq!(s.len(), 0);
    assert!(!s.touch(peer(1), 5));
    assert_eq!(s.len(), 0);
    s.insert(peer(1), 5);
    s.insert(peer(2), 7);
    assert_eq!(s.len(), 2);
    assert!(s.touch(peer(1), 10));
    s.insert(peer(2), 11);
    assert_eq!(s.len(), 2);
}

#[test]
fn sweep_drops_idle_sessions() {
    let mut s = UdpSessions::new();
    s.insert(peer(1), 0);
    s.insert(peer(2), 10);
    s.insert(peer(3), 20);
    let expired = s.sweep(SESSION_IDLE_NANOS + 10);
    assert_eq!(expired, vec![peer(1), peer(2)]);
    assert_eq!(s.len(), 1);
    assert!(s.touch(peer(3), SESSION_IDLE_NANOS + 11));
    assert!(!s.touch(peer(1), SESSION_IDLE_NANOS + 11));
    let expired = s.sweep(0);
    assert!(expired.is_empty());
    assert_eq!(s.len(), 1);
}
