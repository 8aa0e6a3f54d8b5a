use mdchat::addr::IpAddress;
use mdchat::ip::IpFilteringConfig;
use mdchat::ip::parse_ipv4_exec;
use mdchat::ip::parse_ipv6_exec;
use mdchat::message_filter::MessageFilteringConfig;
use mdchat::nickname::NicknameFilteringConfig;
use mdchat::user::is_valid_nickname;

#[test]
fn printable_ascii_bounds_decide_validity() {
    assert!(is_valid_nickname("alice"));
    assert!(is_valid_nickname(" ~"));
    assert!(!is_valid_nickname(""));
    assert!(!is_valid_nickname("tab\tname"));
    assert!(!is_valid_nickname("new\nline"));
    assert!(!is_valid_nickname("bell\u{07}"));
    assert!(!is_valid_nickname("del\u{7f}"));
    assert!(!is_valid_nickname("háček"));
}

#[test]
fn banned_pattern_refuses_nickname() {
    let mut cfg = NicknameFilteringConfig::new();
    cfg.ban("^root$".to_string()).unwrap();
    assert!(!cfg.is_allowed("root"));
    assert!(cfg.is_allowed("roots"));
    assert!(cfg.is_allowed("chroot"));
}

#[test]
fn allow_list_wins_over_bans() {
    let mut cfg = NicknameFilteringConfig::new();
    cfg.ban("^root$".to_string()).unwrap();
    cfg.allow("root".to_string());
    assert!(cfg.is_allowed("root"));
}

#[test]
fn nickname_length_bounds_are_enforced() {
    let mut cfg = NicknameFilteringConfig::new();
    cfg.set_min_len(3).unwrap();
    cfg.set_max_len(5).unwrap();
    assert!(!cfg.is_allowed("ab"));
    assert!(cfg.is_allowed("abc"));
    assert!(cfg.is_allowed("abcde"));
    assert!(!cfg.is_allowed("abcdef"));
    assert!(cfg.set_min_len(0).is_err());
    assert!(cfg.set_min_len(6).is_err());
    assert!(cfg.set_max_len(2).is_err());
}

#[test]
fn invalid_pattern_is_refused() {
    let mut cfg = NicknameFilteringConfig::new();
    assert!(cfg.ban("foo(bar".to_string()).is_err());
    let mut msg = MessageFilteringConfig::new();
    assert!(msg.ban("foo(bar".to_string()).is_err());
}

#[test]
fn message_text_policy() {
    let mut cfg = MessageFilteringConfig::new();
    cfg.set_max_len(10).unwrap();
    cfg.ban("forbidden".to_string()).unwrap();
    assert!(cfg.is_allowed("hello"));
    assert!(!cfg.is_allowed(""));
    assert!(!cfg.is_allowed("well over ten bytes"));
    assert!(!cfg.is_allowed("forbidden"));
}

#[test]
fn banned_ip_is_refused_allowed_ip_wins() {
    let mut cfg = IpFilteringConfig::new();
    let a = IpAddress::V4(0x0a000001);
    assert!(cfg.is_allowed(&a));
    cfg.ban(a);
    assert!(!cfg.is_allowed(&a));
    cfg.allow(a);
    assert!(cfg.is_allowed(&a));
}

#[test]
fn swapped_range_is_normalized() {
    let mut cfg = IpFilteringConfig::new();
    let low = IpAddress::V4(10);
    let high = IpAddress::V4(20);
    cfg.ban_range(high, low).unwrap();
    assert!(!cfg.is_allowed(&IpAddress::V4(10)));
    assert!(!cfg.is_allowed(&IpAddress::V4(15)));
    assert!(!cfg.is_allowed(&IpAddress::V4(20)));
    assert!(cfg.is_allowed(&IpAddress::V4(9)));
    assert!(cfg.is_allowed(&IpAddress::V4(21)));
}

#[test]
fn range_families_must_match() {
    let mut cfg = IpFilteringConfig::new();
    assert!(cfg.ban_range(IpAddress::V4(1), IpAddress::V6(2)).is_err());
}

#[test]
fn the_two_families_are_independent() {
    let mut cfg = IpFilteringConfig::new();
    cfg.ban(IpAddress::V4(7));
    assert!(cfg.is_allowed(&IpAddress::V6(7)));
}

#[test]
fn ipv4_literals() {
    assert_eq!(parse_ipv4_exec(b"1.2.3.4"), Some(0x01020304));
    assert_eq!(parse_ipv4_exec(b"255.255.255.255"), Some(u32::MAX));
    assert_eq!(parse_ipv4_exec(b"0.0.0.0"), Some(0));
    assert_eq!(parse_ipv4_exec(b"01.2.3.4"), None);
    assert_eq!(parse_ipv4_exec(b"256.1.1.1"), None);
    assert_eq!(parse_ipv4_exec(b"1.2.3"), None);
    assert_eq!(parse_ipv4_exec(b"1.2.3.4.5"), None);
    assert_eq!(parse_ipv4_exec(b"a.b.c.d"), None);
}

#[test]
fn ipv6_literals() {
    assert_eq!(parse_ipv6_exec(b"0:0:0:0:0:0:0:1"), Some(1));
    assert_eq!(
        parse_ipv6_exec(b"2001:db8:0:0:0:0:0:1"),
        Some(0x20010db8000000000000000000000001)
    );
    assert_eq!(parse_ipv6_exec(b"0:0:0:0:0:0:1"), None);
    assert_eq!(parse_ipv6_exec(b"0:0:0:0:0:0:0:0:1"), None);
    assert_eq!(parse_ipv6_exec(b"g:0:0:0:0:0:0:1"), None);
}
