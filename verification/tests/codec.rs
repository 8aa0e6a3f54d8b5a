use mdchat::codec::decode_c2s_payload;
use mdchat::codec::decode_s2c_payload;
use mdchat::codec::decrypt;
use mdchat::codec::encode_c2s_frame;
use mdchat::codec::encode_frame;
use mdchat::codec::encode_s2c_frame;
use mdchat::codec::encrypt;
use mdchat::codec::handle_message;
use mdchat::codec::interpret_header_read;
use mdchat::command::c2s;
use mdchat::command::s2c;
use mdchat::error::ErrorKind;
use mdchat::json::decode_c2s;
use mdchat::json::decode_s2c;
use mdchat::json::encode_c2s;
use mdchat::json::encode_s2c;
use mdchat::login::LoginRequest;
use mdchat::message::DateTime;
use mdchat::message::Message;

fn dt(
    year: u16,
    month: u8,
    day: u8,
    hour: u8,
    minute: u8,
    second: u8,
) -> DateTime {
    DateTime::new(year, month, day, hour, minute, second).unwrap()
}

#[test]
fn send_message_has_exact_json_form() {
    let cmd = c2s::Command::SendMessage("hello".to_string());
    let bytes = encode_c2s(&cmd);
    assert_eq!(bytes, b"{\"SendMessage\":\"hello\"}".to_vec());
}

#[test]
fn login_has_exact_json_form() {
    let cmd = c2s::Command::Login(LoginRequest::new(true, "alice".to_string(), "pw".to_string()));
    let bytes = encode_c2s(&cmd);
    assert_eq!(
        bytes,
        b"{\"Login\":{\"is_registering\":true,\"nickname\":\"alice\",\"password\":\"pw\"}}".to_vec()
    );
}

#[test]
fn c2s_login_round_trips() {
    let cmd = c2s::Command::Login(LoginRequest::new(false, "bob".to_string(), "s3cret".to_string()));
    let bytes = encode_c2s(&cmd);
    match decode_c2s(&bytes) {
        Some(c2s::Command::Login(req)) => {
            assert!(!req.is_registering());
            assert_eq!(req.nickname(), "bob");
            assert_eq!(req.password(), "s3cret");
        },
        _ => panic!("expected a Login command"),
    }
}

#[test]
fn c2s_escaped_text_round_trips() {
    let text = "quote \" backslash \\ newline \n tab \t end".to_string();
    let cmd = c2s::Command::SendMessage(text.clone());
    let bytes = encode_c2s(&cmd);
    match decode_c2s(&bytes) {
        Some(c2s::Command::SendMessage(t)) => assert_eq!(t, text),
        _ => panic!("expected a SendMessage command"),
    }
}

#[test]
fn c2s_non_ascii_text_round_trips() {
    let text = "přílišžluťoučký kůň úpěl ďábelské ódy — 日本語".to_string();
    let cmd = c2s::Command::SendMessage(text.clone());
    let bytes = encode_c2s(&cmd);
    match decode_c2s(&bytes) {
        Some(c2s::Command::SendMessage(t)) => assert_eq!(t, text),
        _ => panic!("expected a SendMessage command"),
    }
}

#[test]
fn s2c_all_variants_round_trip() {
    let cmds = vec![
        s2c::Command::LoginSuccess,
        s2c::Command::Error { description: "boom".to_string() },
        s2c::Command::Warning { description: "careful".to_string() },
        s2c::Command::MessageRecv {
            message: Message::new(
                "alice".to_string(),
                dt(2022, 1, 2, 3, 4, 5),
                "hi".to_string(),
            ),
        },
    ];
    for cmd in cmds {
        let bytes = encode_s2c(&cmd);
        let back = decode_s2c(&bytes).expect("round trip");
        match (&cmd, &back) {
            (s2c::Command::LoginSuccess, s2c::Command::LoginSuccess) => {},
            (
                s2c::Command::Error { description: a },
                s2c::Command::Error { description: b },
            ) => assert_eq!(a, b),
            (
                s2c::Command::Warning { description: a },
                s2c::Command::Warning { description: b },
            ) => assert_eq!(a, b),
            (
                s2c::Command::MessageRecv { message: a },
                s2c::Command::MessageRecv { message: b },
            ) => {
                assert_eq!(a.sender(), b.sender());
                assert_eq!(a.text(), b.text());
                assert_eq!(a.date_time(), b.date_time());
            },
            _ => panic!("variant changed in the round trip"),
        }
    }
}

#[test]
fn message_recv_has_exact_json_form() {
    let cmd = s2c::Command::MessageRecv {
        message: Message::new("a".to_string(), dt(2022, 12, 31, 23, 59, 58), "x".to_string()),
    };
    let bytes = encode_s2c(&cmd);
    assert_eq!(
        bytes,
        b"{\"MessageRecv\":{\"message\":{\"sender\":\"a\",\"date_time\":\"2022-12-31T23:59:58Z\",\"text\":\"x\"}}}"
            .to_vec()
    );
}

#[test]
fn garbage_is_refused_not_a_crash() {
    assert!(decode_c2s(b"{\"Login\":oops").is_none());
    assert!(decode_s2c(b"nonsense").is_none());
    assert!(decode_c2s(b"{\"SendMessage\":\"unterminated").is_none());
    assert!(matches!(decode_c2s_payload(b"junk"), Err(ErrorKind::InvalidData)));
}

#[test]
fn empty_payload_is_invalid_data() {
    assert!(matches!(decode_c2s_payload(&[]), Err(ErrorKind::InvalidData)));
    assert!(matches!(decode_s2c_payload(&[]), Err(ErrorKind::InvalidData)));
}

#[test]
fn frames_carry_a_big_endian_length() {
    let frame = encode_frame(&[7, 8, 9]).unwrap();
    assert_eq!(frame, vec![0, 0, 0, 3, 7, 8, 9]);
    let empty = encode_frame(&[]).unwrap();
    assert_eq!(empty, vec![0, 0, 0, 0]);
}

#[test]
fn header_read_is_classified() {
    assert_eq!(interpret_header_read(0, &[0; 4]), Ok(None));
    assert_eq!(
        interpret_header_read(2, &[0; 4]),
        Err(ErrorKind::UnexpectedEof)
    );
    assert_eq!(
        interpret_header_read(4, &[0xff, 0xff, 0xff, 0xff]),
        Ok(Some(u32::MAX))
    );
    assert_eq!(interpret_header_read(4, &[0, 0, 1, 2]), Ok(Some(258)));
}

#[test]
fn framed_command_round_trips() {
    let cmd = c2s::Command::SendMessage("over the wire".to_string());
    let frame = encode_c2s_frame(&cmd).unwrap();
    let len = u32::from_be_bytes([frame[0], frame[1], frame[2], frame[3]]) as usize;
    assert_eq!(len, frame.len() - 4);
    let payload = decrypt(&frame[4..]);
    match decode_c2s_payload(&payload) {
        Ok(c2s::Command::SendMessage(t)) => assert_eq!(t, "over the wire"),
        _ => panic!("expected the message back"),
    }
    let reply = s2c::Command::LoginSuccess;
    let frame = encode_s2c_frame(&reply).unwrap();
    let payload = &frame[4..];
    assert!(matches!(
        decode_s2c_payload(payload),
        Ok(s2c::Command::LoginSuccess)
    ));
}

#[test]
fn encrypt_decrypt_are_identity_passthrough() {
    let data = vec![0u8, 1, 2, 250];
    assert_eq!(encrypt(&data), data);
    assert_eq!(decrypt(&data), data);
}

#[test]
fn handle_message_decodes_text() {
    assert_eq!(handle_message(b"hello".to_vec()).unwrap(), "hello");
    assert_eq!(
        handle_message(vec![0xff, 0xfe]).unwrap_err(),
        ErrorKind::InvalidData
    );
}

#[test]
fn bad_dates_are_refused() {
    let bytes = b"{\"MessageRecv\":{\"message\":{\"sender\":\"a\",\"date_time\":\"2022-13-31T23:59:58Z\",\"text\":\"x\"}}}";
    assert!(decode_s2c(bytes).is_none());
    assert!(DateTime::new(2022, 2, 29, 0, 0, 0).is_none());
    assert!(DateTime::new(2024, 2, 29, 0, 0, 0).is_some());
}
