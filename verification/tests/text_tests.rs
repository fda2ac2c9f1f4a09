use conduit::text::{
    chars_eq, char_is_whitespace, chars_of, join_with, lines_of, str_contains, str_eq, str_starts_with,
    string_of, trim_of, words_of,
};

fn strings(v: &[&str]) -> Vec<String> {
    v.iter().map(|s| s.to_string()).collect()
}

#[test]
fn lines_split_like_std() {
    for s in ["", "a", "a\n", "a\nb", "a\r\nb\r\n", "\n", "\n\n", "a\rb\nc\r", "x\r\r\ny"] {
        let expected: Vec<String> = s.lines().map(|l| l.to_string()).collect();
        assert_eq!(lines_of(s), expected, "input {:?}", s);
    }
}

#[test]
fn words_split_like_std() {
    for s in ["", "  ", "-A POSTROUTING -o eth0 -j MASQUERADE", "\ta  b\u{3000}c\n", "x"] {
        let expected: Vec<String> = s.split_whitespace().map(|w| w.to_string()).collect();
        assert_eq!(words_of(s), expected, "input {:?}", s);
    }
}

#[test]
fn trim_like_std() {
    for s in ["", "1\n", "  1  ", "\u{a0}x y\u{2003}", "   "] {
        assert_eq!(trim_of(s), s.trim());
    }
}

#[test]
fn contains_and_prefix() {
    assert!(str_contains("-A POSTROUTING -j MASQUERADE", "MASQUERADE"));
    assert!(!str_contains("-A PREROUTING -j DNAT", "MASQUERADE"));
    assert!(str_contains("abc", ""));
    assert!(!str_contains("ab", "abc"));
    assert!(str_starts_with("veth123", "veth"));
    assert!(!str_starts_with("eth0", "veth"));
    assert!(str_eq("lo", "lo"));
    assert!(!str_eq("lo", "lo0"));
}

#[test]
fn join_and_chars() {
    assert_eq!(join_with(&strings(&["a", "b", "c"]), " && "), "a && b && c");
    assert_eq!(join_with(&strings(&["only"]), " && "), "only");
    assert_eq!(join_with(&Vec::new(), " && "), "");
    let cs = chars_of("网络 ok");
    assert_eq!(cs, vec!['网', '络', ' ', 'o', 'k']);
    assert_eq!(string_of(&cs), "网络 ok");
    assert!(chars_eq(&['a'], &['a']));
    assert!(!chars_eq(&['a'], &['b']));
    assert!(char_is_whitespace('\u{85}'));
    assert!(!char_is_whitespace('x'));
}
