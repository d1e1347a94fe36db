use midden::config::{ActionRule, RateLimitConfig, RateLimits};
use midden::ip::{parse_forwarded_ip, parse_ip, write_ip, IpAddr};
use midden::model::{Role, User};
use midden::number::{parse_integer, parse_port, push_decimal, push_signed_decimal};
use midden::policy::allowed;
use midden::signing::{constant_time_eq, is_signature, message_to_sign, sign_internal_file_url};
use midden::text::{
    comma_list, contains, eq_ignore_ascii_case, split_on, starts_with, strip_prefix,
    to_ascii_lowercase, trim, trim_end_char, trim_present,
};

#[test]
fn addresses_are_written_and_read_as_usual() {
    for text in [
        "0.0.0.0",
        "192.0.2.1",
        "255.255.255.255",
        "::",
        "::1",
        "1::",
        "2001:db8::5",
        "2001:db8:0:1:1:1:1:1",
        "1:0:0:2::3",
        "::ffff:192.0.2.128",
        "fe80::1:2:3:4",
    ] {
        let ip = parse_ip(text).unwrap();
        assert_eq!(write_ip(&ip), text);
    }
    for text in ["", "1.2.3", "01.2.3.4", "256.1.1.1", "1:2:3:4:5:6:7", ":::", "1::2::3", "12345::"] {
        assert_eq!(parse_ip(text), None);
    }
    assert_eq!(parse_ip("192.0.2.1"), Some(IpAddr::V4([192, 0, 2, 1])));
    assert_eq!(parse_ip("1:0:0:2::3"), Some(IpAddr::V6([1, 0, 0, 2, 0, 0, 0, 3])));
    assert_eq!(parse_ip("::FFFF:1.2.3.4"), Some(IpAddr::V6([0, 0, 0, 0, 0, 0xffff, 0x102, 0x304])));
}

#[test]
fn forwarded_addresses_may_have_ports_and_brackets() {
    let v4 = parse_ip("198.51.100.8");
    let v6 = parse_ip("2001:db8::5");
    assert_eq!(parse_forwarded_ip(" 198.51.100.8 "), v4);
    assert_eq!(parse_forwarded_ip("198.51.100.8:4444"), v4);
    assert_eq!(parse_forwarded_ip("2001:db8::5"), v6);
    assert_eq!(parse_forwarded_ip("[2001:db8::5]"), v6);
    assert_eq!(parse_forwarded_ip("[2001:db8::5]:80"), v6);
    assert_eq!(parse_forwarded_ip("[198.51.100.8]"), v4);
    assert_eq!(parse_forwarded_ip("198.51.100.8:99999"), None);
    assert_eq!(parse_forwarded_ip("unknown"), None);
}

#[test]
fn numbers_are_written_and_read() {
    let mut text = String::new();
    push_decimal(&mut text, u64::MAX);
    push_signed_decimal(&mut text, i64::MIN);
    push_decimal(&mut text, 0);
    assert_eq!(text, "18446744073709551615-92233720368547758080");
    let read = |s: &str| parse_integer(&s.chars().collect::<Vec<char>>());
    assert_eq!(read("-9223372036854775808"), Some(i64::MIN));
    assert_eq!(read("9223372036854775807"), Some(i64::MAX));
    assert_eq!(read("9223372036854775808"), None);
    assert_eq!(read("+5"), Some(5));
    assert_eq!(read("-"), None);
    assert_eq!(read(""), None);
    assert_eq!(read("1 "), None);
    assert_eq!(parse_port("65535"), Some(65_535));
    assert_eq!(parse_port("65536"), None);
    assert_eq!(parse_port("+80"), Some(80));
    assert_eq!(parse_port("-1"), None);
}

#[test]
fn texts_are_cut_and_compared() {
    assert_eq!(trim("\u{a0} \t a b \u{2003}\n"), "a b");
    assert_eq!(trim_present(Some(" \u{3000} ")), None);
    assert_eq!(trim_present(Some(" a ")), Some("a"));
    assert_eq!(trim_end_char("a//", '/'), "a");
    assert_eq!(split_on("a,,b", ','), vec!["a", "", "b"]);
    assert_eq!(split_on("", ','), vec![""]);
    assert_eq!(comma_list(" a ,, b"), vec!["a", "b"]);
    assert!(starts_with("bytes=1", "bytes="));
    assert_eq!(strip_prefix("Bearer x", "Bearer "), Some("x"));
    assert_eq!(strip_prefix("bearer x", "Bearer "), None);
    assert!(contains("a, application/json", "application/json"));
    assert!(!contains("json", "application/json"));
    assert_eq!(to_ascii_lowercase("\u{c9}A"), "\u{c9}a");
    assert!(eq_ignore_ascii_case("TeXt", "tExT"));
    assert!(!eq_ignore_ascii_case("\u{c9}", "\u{e9}"));
}

#[test]
fn signatures_are_those_of_the_whole_message() {
    assert_eq!(message_to_sign("s", "id", -5), b"s\0id\0-5".to_vec());
    assert_eq!(
        sign_internal_file_url("secret", "abc", 1_700_000_600),
        "P3hUozoozT6C-6MnXo6BvZkamgaa5pAzP9KldOLOPXE"
    );
    assert_eq!(
        sign_internal_file_url("secret", "abc", -5),
        "PkxVgpwq03cSOGHv06Qxd49TAdYdIqb_7fCOtoK4O3Q"
    );
    assert!(constant_time_eq(b"abc", b"abc"));
    assert!(!constant_time_eq(b"abc", b"abd"));
    assert!(!constant_time_eq(b"abc", b"ab"));
    assert!(!constant_time_eq(b"ab\0", b"ab"));
    assert!(constant_time_eq(b"", b""));
    assert!(is_signature("x", "x"));
    assert!(!is_signature("x", "y"));
}

#[test]
fn rules_follow_the_order_of_roles() {
    let user = |role: Role| User { id: "u".to_string(), role };
    assert!(!allowed(ActionRule::Disabled, Some(&user(Role::Owner))));
    assert!(allowed(ActionRule::Anonymous, None));
    assert!(!allowed(ActionRule::Authenticated, None));
    assert!(allowed(ActionRule::Authenticated, Some(&user(Role::User))));
    assert!(!allowed(ActionRule::Moderator, Some(&user(Role::User))));
    assert!(allowed(ActionRule::Moderator, Some(&user(Role::Admin))));
    assert!(!allowed(ActionRule::Admin, Some(&user(Role::Moderator))));
    assert!(allowed(ActionRule::Admin, Some(&user(Role::Owner))));
    assert!(!allowed(ActionRule::Owner, Some(&user(Role::Admin))));
    assert!(allowed(ActionRule::Owner, Some(&user(Role::Owner))));
}

#[test]
fn limits_are_found_by_their_action() {
    let limit = |requests: u32| RateLimitConfig { requests, window_seconds: 1, enabled: true };
    let mut limits = RateLimits::new();
    assert!(limits.get("login").is_none());
    limits.insert("login".to_string(), limit(1));
    limits.insert("report".to_string(), limit(2));
    limits.insert("login".to_string(), limit(3));
    assert_eq!(limits.get("login").unwrap().requests, 3);
    assert_eq!(limits.get("report").unwrap().requests, 2);
    assert!(limits.get("Login").is_none());
}
