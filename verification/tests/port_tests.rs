use conduit::port::{parse_port, socket_address};

#[test]
fn parse_port_like_std() {
    for s in ["80", "+80", "0080", "0", "65535", "65536", "", "+", "-1", "-0", " 80", "80 ", "8a", "++1", "99999999999", "١"] {
        assert_eq!(parse_port(s), s.parse::<u16>().ok(), "input {:?}", s);
    }
}

#[test]
fn socket_address_formats_like_format() {
    assert_eq!(socket_address("0.0.0.0", 8080), "0.0.0.0:8080");
    assert_eq!(socket_address("127.0.0.1", 0), "127.0.0.1:0");
    assert_eq!(socket_address("::1", 65535), "::1:65535");
}

#[test]
fn port_round_trip() {
    for p in [0u16, 1, 9, 10, 99, 100, 1234, 8080, 65535] {
        let text = socket_address("", p);
        assert_eq!(parse_port(&text[1..]), Some(p));
    }
}
