use mdchat::addr::IpAddress;
use mdchat::addr::SocketAddress;
use mdchat::config::Config;
use mdchat::config::parse_sock_addr_exec;
use mdchat::error::ConfigParseErrorKind;

#[test]
fn a_configuration_text_takes_effect() {
    let text = b"# the server configuration\n\
                 listen 127.0.0.1:4000\n\
                 \n\
                 ip ban 10.0.0.1\n\
                 ip ban-range 10.0.1.9 10.0.1.3\n\
                 ip allow 10.0.1.5\n\
                 nickname ban ^root$\n\
                 nickname min-length 2\n\
                 message max-length 100\n";
    let mut config = Config::new();
    config.process_string(text).unwrap();
    assert_eq!(
        config.listen_sock_addrs().as_slice(),
        &[SocketAddress { ip: IpAddress::V4(0x7f000001), port: 4000 }]
    );
    assert!(!config.is_allowed_ip_addr(&IpAddress::V4(0x0a000001)));
    assert!(!config.is_allowed_ip_addr(&IpAddress::V4(0x0a000104)));
    assert!(config.is_allowed_ip_addr(&IpAddress::V4(0x0a000105)));
    assert!(config.is_allowed_ip_addr(&IpAddress::V4(0x0a000202)));
    assert!(!config.is_allowed_nickname("root"));
    assert!(!config.is_allowed_nickname("x"));
    assert!(config.is_allowed_nickname("xy"));
    assert!(config.is_allowed_message_text("short enough"));
    assert!(!config.is_allowed_message_text(&"y".repeat(101)));
}

#[test]
fn a_syntax_error_names_its_line() {
    let text = b"listen 127.0.0.1:4000\nnonsense here\n";
    let mut config = Config::new();
    let err = config.process_string(text).unwrap_err();
    match err.kind() {
        ConfigParseErrorKind::Syntax { line_num, .. } => assert_eq!(*line_num, 2),
        _ => panic!("expected a syntax error"),
    }
}

#[test]
fn rollback_leaves_the_configuration_untouched() {
    let mut config = Config::new();
    config.process_string(b"ip ban 10.0.0.1\n").unwrap();
    let bad = b"ip ban 10.0.0.2\nbroken line\n";
    assert!(config.process_string_rollback(bad).is_err());
    assert!(!config.is_allowed_ip_addr(&IpAddress::V4(0x0a000001)));
    assert!(config.is_allowed_ip_addr(&IpAddress::V4(0x0a000002)));
    let good = b"ip ban 10.0.0.2\n";
    config.process_string_rollback(good).unwrap();
    assert!(!config.is_allowed_ip_addr(&IpAddress::V4(0x0a000002)));
}

#[test]
fn comments_and_blanks_do_nothing() {
    let mut config = Config::new();
    config.process_string(b"\n\n# only a comment\n   \n").unwrap();
    assert_eq!(config.listen_sock_addrs().len(), 0);
}

#[test]
fn socket_address_literals() {
    assert_eq!(
        parse_sock_addr_exec(b"127.0.0.1:8080"),
        Some(SocketAddress { ip: IpAddress::V4(0x7f000001), port: 8080 })
    );
    assert_eq!(
        parse_sock_addr_exec(b"[0:0:0:0:0:0:0:1]:9000"),
        Some(SocketAddress { ip: IpAddress::V6(1), port: 9000 })
    );
    assert_eq!(parse_sock_addr_exec(b"127.0.0.1"), None);
    assert_eq!(parse_sock_addr_exec(b"127.0.0.1:99999"), None);
    assert_eq!(parse_sock_addr_exec(b"[0:0:0:0:0:0:0:1]9000"), None);
}

#[test]
fn merging_overwrites_bounds_and_unions_collections() {
    let mut base = Config::new();
    base.process_string(b"ip ban 10.0.0.1\nnickname min-length 3\n").unwrap();
    let mut other = Config::new();
    other.process_string(b"ip ban 10.0.0.2\nnickname min-length 2\n").unwrap();
    base.append(other);
    assert!(!base.is_allowed_ip_addr(&IpAddress::V4(0x0a000001)));
    assert!(!base.is_allowed_ip_addr(&IpAddress::V4(0x0a000002)));
    assert!(base.is_allowed_nickname("xy"));
}

#[test]
fn canonical_form_round_trips() {
    let mut config = Config::new();
    config
        .process_string(
            b"listen 127.0.0.1:4000\nlisten [0:0:0:0:0:0:0:1]:4001\nip ban 10.0.0.1\nip allow 10.0.0.2\nip ban-range 10.0.1.9 10.0.1.3\nnickname min-length 2\nnickname max-length 10\nnickname allow root\nnickname ban ^admin$\nmessage ban secret\nmessage max-length 200\n",
        )
        .unwrap();
    let text = config.canonical_text();
    let mut back = Config::new();
    back.process_string(&text).unwrap();
    assert_eq!(
        back.listen_sock_addrs().as_slice(),
        config.listen_sock_addrs().as_slice()
    );
    assert!(!back.is_allowed_ip_addr(&IpAddress::V4(0x0a000001)));
    assert!(back.is_allowed_ip_addr(&IpAddress::V4(0x0a000002)));
    assert!(!back.is_allowed_ip_addr(&IpAddress::V4(0x0a000105)));
    assert!(back.is_allowed_nickname("root"));
    assert!(!back.is_allowed_nickname("admin"));
    assert!(!back.is_allowed_nickname("x"));
    assert!(!back.is_allowed_message_text("a secret"));
    assert!(!back.is_allowed_message_text(&"y".repeat(201)));
    assert_eq!(back.canonical_text(), text);
}
