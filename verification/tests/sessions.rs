use mdchat::addr::IpAddress;
use mdchat::addr::SocketAddress;
use mdchat::client_list::ClientEntry;
use mdchat::command::c2s;
use mdchat::command::s2c;
use mdchat::config::Config;
use mdchat::login::LoginRequest;
use mdchat::server::ServerCore;
use mdchat::session::Action;
use mdchat::session::Session;
use mdchat::session::SessionState;

fn addr(last: u32) -> SocketAddress {
    SocketAddress { ip: IpAddress::V4(0x7f000000 | last), port: 5555 }
}

fn connect(server: &mut ServerCore, last: u32) -> Session {
    let session = Session::new(addr(last));
    server.clients.add_connection(ClientEntry {
        socket_addr: addr(last),
        nickname: None,
    });
    session
}

fn login(
    server: &mut ServerCore,
    session: &mut Session,
    register: bool,
    nick: &str,
    pw: &str,
) -> Vec<Action> {
    let request = LoginRequest::new(register, nick.to_string(), pw.to_string());
    session.on_login(server, &request)
}

fn expect_error(actions: &[Action], needle: &str) {
    assert_eq!(actions.len(), 3);
    match &actions[0] {
        Action::Send(s2c::Command::Error { description }) => {
            assert!(
                description.contains(needle),
                "error description {:?} does not mention {:?}",
                description,
                needle
            );
        },
        _ => panic!("expected an Error send first"),
    }
    assert!(matches!(actions[1], Action::FinishWrite));
    assert!(matches!(actions[2], Action::Reset));
}

#[test]
fn register_and_echo() {
    let mut server = ServerCore::new(Config::new());
    let mut alice = connect(&mut server, 1);
    let actions = login(&mut server, &mut alice, true, "alice", "pw");
    assert_eq!(actions.len(), 1);
    assert!(matches!(actions[0], Action::Send(s2c::Command::LoginSuccess)));
    assert_eq!(alice.state, SessionState::Authenticated);
    assert!(server.users.user_exists("alice"));

    let actions = alice.on_message(&mut server, "hello".to_string());
    assert!(actions.is_empty());

    let (id, message, recipients) = server.broadcast_next().unwrap();
    assert_eq!(id, 1);
    assert_eq!(message.sender(), "alice");
    assert_eq!(message.text(), "hello");
    assert_eq!(recipients, vec![addr(1)]);
    server.users.set_last_sent_msg_id("alice", id).unwrap();
    assert_eq!(server.users.get_last_sent_msg_id("alice"), Some(1));
}

#[test]
fn broadcast_order_matches_acceptance_order() {
    let mut server = ServerCore::new(Config::new());
    let mut alice = connect(&mut server, 1);
    let mut bob = connect(&mut server, 2);
    login(&mut server, &mut alice, true, "alice", "pw");
    login(&mut server, &mut bob, true, "bob", "pw");

    alice.on_message(&mut server, "a".to_string());
    bob.on_message(&mut server, "b".to_string());

    let (id1, m1, r1) = server.broadcast_next().unwrap();
    assert_eq!((id1, m1.text().as_str()), (1, "a"));
    assert_eq!(r1, vec![addr(1), addr(2)]);
    let (id2, m2, r2) = server.broadcast_next().unwrap();
    assert_eq!((id2, m2.text().as_str()), (2, "b"));
    assert_eq!(r2, vec![addr(1), addr(2)]);
    assert!(server.broadcast_next().is_none());
}

#[test]
fn backlog_replay_after_reconnect() {
    let mut server = ServerCore::new(Config::new());
    let mut carol = connect(&mut server, 1);
    login(&mut server, &mut carol, true, "carol", "pw");
    let mut dan = connect(&mut server, 2);
    login(&mut server, &mut dan, true, "dan", "pw");

    for text in ["one", "two"] {
        dan.on_message(&mut server, text.to_string());
        let (id, _, _) = server.broadcast_next().unwrap();
        server.users.set_last_sent_msg_id("carol", id).unwrap();
    }
    // carol goes away with her cursor at 2
    carol.teardown(&mut server);
    assert_eq!(carol.state, SessionState::Closed);

    for text in ["three", "four"] {
        dan.on_message(&mut server, text.to_string());
        server.broadcast_next().unwrap();
    }

    // carol reconnects and logs back in: ids 3 and 4 replay in order
    let mut carol2 = connect(&mut server, 3);
    let actions = login(&mut server, &mut carol2, false, "carol", "pw");
    assert_eq!(actions.len(), 3);
    assert!(matches!(actions[0], Action::Send(s2c::Command::LoginSuccess)));
    let texts: Vec<String> = actions[1..]
        .iter()
        .map(|a| match a {
            Action::Send(s2c::Command::MessageRecv { message }) => message.text().clone(),
            _ => panic!("expected a MessageRecv send"),
        })
        .collect();
    assert_eq!(texts, vec!["three".to_string(), "four".to_string()]);
}

#[test]
fn login_as_unknown_user_is_an_error() {
    let mut server = ServerCore::new(Config::new());
    let mut dave = connect(&mut server, 1);
    let actions = login(&mut server, &mut dave, false, "dave", "x");
    expect_error(&actions, "does not exist");
    assert_eq!(dave.state, SessionState::Closed);
}

#[test]
fn wrong_password_is_an_error_and_changes_nothing() {
    let mut server = ServerCore::new(Config::new());
    let mut alice = connect(&mut server, 1);
    login(&mut server, &mut alice, true, "alice", "pw");
    let mut intruder = connect(&mut server, 2);
    let actions = login(&mut server, &mut intruder, false, "alice", "nope");
    expect_error(&actions, "Invalid password");
    assert_eq!(intruder.state, SessionState::Closed);
    assert!(server.users.user_exists("alice"));
    assert!(server.users.verify_password("alice", "pw".to_string()));
}

#[test]
fn banned_nickname_is_refused_and_no_user_created() {
    let mut config = Config::new();
    config.process_string(b"nickname ban ^root$\n").unwrap();
    let mut server = ServerCore::new(config);
    let mut peer = connect(&mut server, 1);
    let actions = login(&mut server, &mut peer, true, "root", "pw");
    expect_error(&actions, "not allowed");
    assert!(!server.users.user_exists("root"));
}

#[test]
fn taken_nickname_cannot_be_registered_again() {
    let mut server = ServerCore::new(Config::new());
    let mut alice = connect(&mut server, 1);
    login(&mut server, &mut alice, true, "alice", "pw");
    let mut copycat = connect(&mut server, 2);
    let actions = login(&mut server, &mut copycat, true, "alice", "zz");
    expect_error(&actions, "already exists");
}

#[test]
fn a_second_login_closes_the_session() {
    let mut server = ServerCore::new(Config::new());
    let mut alice = connect(&mut server, 1);
    login(&mut server, &mut alice, true, "alice", "pw");
    let actions = login(&mut server, &mut alice, false, "alice", "pw");
    expect_error(&actions, "Already logged in");
    assert_eq!(alice.state, SessionState::Closed);
}

#[test]
fn message_while_not_logged_in_is_a_protocol_violation() {
    let mut server = ServerCore::new(Config::new());
    let mut peer = connect(&mut server, 1);
    let actions = peer.on_message(&mut server, "hi".to_string());
    expect_error(&actions, "Not logged in");
    assert_eq!(peer.state, SessionState::Closed);
    assert!(server.broadcast_next().is_none());
}

#[test]
fn refused_text_gets_a_warning_and_the_connection_stays() {
    let mut config = Config::new();
    config.process_string(b"message ban secret\n").unwrap();
    let mut server = ServerCore::new(config);
    let mut alice = connect(&mut server, 1);
    login(&mut server, &mut alice, true, "alice", "pw");
    let actions = alice.on_message(&mut server, "a secret thing".to_string());
    assert_eq!(actions.len(), 1);
    assert!(matches!(
        actions[0],
        Action::Send(s2c::Command::Warning { .. })
    ));
    assert_eq!(alice.state, SessionState::Authenticated);
    assert!(server.broadcast_next().is_none());
}

#[test]
fn fanout_skips_unauthenticated_connections() {
    let mut server = ServerCore::new(Config::new());
    let mut alice = connect(&mut server, 1);
    login(&mut server, &mut alice, true, "alice", "pw");
    let _lurker = connect(&mut server, 2);
    alice.on_message(&mut server, "psst".to_string());
    let (_, _, recipients) = server.broadcast_next().unwrap();
    assert_eq!(recipients, vec![addr(1)]);
}

#[test]
fn dispatch_handles_both_commands() {
    let mut server = ServerCore::new(Config::new());
    let mut alice = connect(&mut server, 1);
    let cmd = c2s::Command::Login(LoginRequest::register(
        "alice".to_string(),
        "pw".to_string(),
    ));
    let actions = alice.on_command(&mut server, cmd);
    assert_eq!(actions.len(), 1);
    let actions = alice.on_command(&mut server, c2s::Command::SendMessage("yo".to_string()));
    assert!(actions.is_empty());
    let (_, message, _) = server.broadcast_next().unwrap();
    assert_eq!(message.text(), "yo");
}
