use carlo::carlo::is_channel;
use carlo::text::{str_contains, decimal_string, first_space, is_whitespace, str_starts_with, trim_of, trim_start_of};

#[test]
fn channel_names() {
    assert!(is_channel("#dev"));
    assert!(is_channel("&x"));
    assert!(is_channel("+x"));
    assert!(is_channel("!x"));
    assert!(!is_channel("carlo"));
    assert!(!is_channel(""));
}

#[test]
fn trimming() {
    assert_eq!(trim_start_of("  a b  "), "a b  ");
    assert_eq!(trim_of("  a b  "), "a b");
    assert_eq!(trim_of("\u{3000}\t x \u{a0}"), "x");
    assert_eq!(trim_of("   "), "");
    assert_eq!(trim_of(""), "");
    for c in ['\u{9}', '\u{d}', ' ', '\u{85}', '\u{2000}', '\u{200a}', '\u{3000}'] {
        assert_eq!(is_whitespace(c), c.is_whitespace());
    }
    assert!(!is_whitespace('x'));
    assert!(!is_whitespace('\u{200b}'));
}

#[test]
fn searching() {
    assert!(str_starts_with("carlo uptime", "carlo"));
    assert!(!str_starts_with("carl", "carlo"));
    assert!(str_starts_with("x", ""));
    assert!(str_contains("what uptime?", "uptime"));
    assert!(!str_contains("uptim", "uptime"));
    assert!(str_contains("", ""));
    assert_eq!(first_space("ab cd e"), Some(2));
    assert_eq!(first_space("abcd"), None);
}

#[test]
fn decimals() {
    assert_eq!(decimal_string(0), "0");
    assert_eq!(decimal_string(10), "10");
    assert_eq!(decimal_string(907), "907");
}
