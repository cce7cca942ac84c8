use regional_stats::util::forwarded_client;

#[test]
fn forwarded_client_is_first_entry_trimmed() {
    assert_eq!(forwarded_client("203.0.113.7, 10.0.0.1, 10.0.0.2"), "203.0.113.7");
    assert_eq!(forwarded_client("  203.0.113.7  ,10.0.0.1"), "203.0.113.7");
    assert_eq!(forwarded_client(" 2001:db8::1 "), "2001:db8::1");
    assert_eq!(forwarded_client(",10.0.0.1"), "");
    assert_eq!(forwarded_client(""), "");
}

#[test]
fn forwarded_client_is_split_by_character() {
    assert_eq!(forwarded_client("\u{a0}é\u{2003}, x"), "é");
    assert_eq!(forwarded_client("a b , c"), "a b");
}
