use mdchat::addr::IpAddress;
use mdchat::addr::SocketAddress;
use mdchat::client_list::ClientEntry;
use mdchat::client_list::ClientList;
use mdchat::error::ErrorKind;
use mdchat::message::DateTime;
use mdchat::message::Message;
use mdchat::message_list::MessageList;
use mdchat::message_queue::MessageQueue;
use mdchat::user_list::UserList;

fn msg(sender: &str, text: &str) -> Message {
    let dt = DateTime::new(2022, 6, 1, 12, 0, 0).unwrap();
    Message::new(sender.to_string(), dt, text.to_string())
}

fn addr(last: u32, port: u16) -> SocketAddress {
    SocketAddress { ip: IpAddress::V4(0x7f000000 | last), port }
}

#[test]
fn registration_makes_the_user_exist() {
    let mut users = UserList::new();
    assert!(!users.user_exists("alice"));
    users.add_user("alice".to_string(), "pw".to_string()).unwrap();
    assert!(users.user_exists("alice"));
    assert_eq!(users.get_last_sent_msg_id("alice"), None);
}

#[test]
fn taken_nickname_is_refused() {
    let mut users = UserList::new();
    users.add_user("alice".to_string(), "pw".to_string()).unwrap();
    assert_eq!(
        users.add_user("alice".to_string(), "other".to_string()),
        Err(ErrorKind::AlreadyExists)
    );
}

#[test]
fn unprintable_nickname_is_refused() {
    let mut users = UserList::new();
    assert_eq!(
        users.add_user("bad\u{01}name".to_string(), "pw".to_string()),
        Err(ErrorKind::PermissionDenied)
    );
    assert_eq!(
        users.add_user("".to_string(), "pw".to_string()),
        Err(ErrorKind::PermissionDenied)
    );
    assert_eq!(
        users.add_user("čech".to_string(), "pw".to_string()),
        Err(ErrorKind::PermissionDenied)
    );
}

#[test]
fn password_verification_is_indistinguishable() {
    let mut users = UserList::new();
    users.add_user("alice".to_string(), "pw".to_string()).unwrap();
    assert!(users.verify_password("alice", "pw".to_string()));
    assert!(!users.verify_password("alice", "nope".to_string()));
    assert!(!users.verify_password("ghost", "pw".to_string()));
}

#[test]
fn delivery_cursor_is_monotone() {
    let mut users = UserList::new();
    users.add_user("carol".to_string(), "pw".to_string()).unwrap();
    assert_eq!(users.set_last_sent_msg_id("carol", 2), Ok(()));
    assert_eq!(users.get_last_sent_msg_id("carol"), Some(2));
    assert_eq!(
        users.set_last_sent_msg_id("carol", 2),
        Err(ErrorKind::InvalidInput)
    );
    assert_eq!(
        users.set_last_sent_msg_id("carol", 1),
        Err(ErrorKind::InvalidInput)
    );
    assert_eq!(users.get_last_sent_msg_id("carol"), Some(2));
    assert_eq!(users.set_last_sent_msg_id("carol", 5), Ok(()));
    assert_eq!(users.get_last_sent_msg_id("carol"), Some(5));
    assert_eq!(
        users.set_last_sent_msg_id("ghost", 1),
        Err(ErrorKind::NotFound)
    );
}

#[test]
fn log_ids_are_dense_from_one() {
    let mut log = MessageList::new();
    assert_eq!(log.push(msg("a", "first")), 1);
    assert_eq!(log.push(msg("b", "second")), 2);
    assert_eq!(log.push(msg("c", "third")), 3);
    assert_eq!(log.len(), 3);
}

#[test]
fn replay_is_the_exact_owed_subsequence() {
    let mut log = MessageList::new();
    log.push(msg("a", "one"));
    log.push(msg("b", "two"));
    log.push(msg("c", "three"));
    let newer = log.for_messages_newer_than(1);
    assert_eq!(newer.len(), 2);
    assert_eq!(newer[0].0, 2);
    assert_eq!(newer[0].1.text(), "two");
    assert_eq!(newer[1].0, 3);
    assert_eq!(newer[1].1.text(), "three");
    assert_eq!(log.for_messages_newer_than(3).len(), 0);
    assert_eq!(log.for_messages_newer_than(99).len(), 0);
    assert_eq!(log.for_messages_newer_than(0).len(), 3);
}

#[test]
fn pending_queue_is_fifo() {
    let mut queue = MessageQueue::new();
    queue.push("a".to_string(), "first".to_string());
    queue.push("b".to_string(), "second".to_string());
    let first = queue.pop().unwrap();
    assert_eq!(first.sender(), "a");
    assert_eq!(first.text(), "first");
    let second = queue.pop().unwrap();
    assert_eq!(second.sender(), "b");
    assert!(queue.pop().is_none());
}

#[test]
fn queue_stamps_a_real_instant() {
    let mut queue = MessageQueue::new();
    queue.push("a".to_string(), "hi".to_string());
    let m = queue.pop().unwrap();
    let dt = *m.date_time();
    assert!((1..=12).contains(&dt.month));
    assert!((1..=31).contains(&dt.day));
    assert!(dt.hour <= 23 && dt.minute <= 59 && dt.second <= 59);
}

#[test]
fn registry_tracks_connections_by_address() {
    let mut clients = ClientList::new();
    clients.add_connection(ClientEntry { socket_addr: addr(1, 1000), nickname: None });
    clients.add_connection(ClientEntry {
        socket_addr: addr(2, 1000),
        nickname: Some("bob".to_string()),
    });
    assert_eq!(clients.len(), 2);
    assert_eq!(clients.get_nickname(&addr(1, 1000)), None);
    assert_eq!(clients.get_nickname(&addr(2, 1000)), Some("bob".to_string()));
    clients.set_nickname(&addr(1, 1000), "alice".to_string()).unwrap();
    assert_eq!(clients.get_nickname(&addr(1, 1000)), Some("alice".to_string()));
    let removed = clients.remove_connection(&addr(1, 1000)).unwrap();
    assert_eq!(removed.nickname, Some("alice".to_string()));
    assert_eq!(clients.get_nickname(&addr(1, 1000)), None);
    assert!(matches!(
        clients.remove_connection(&addr(1, 1000)),
        Err(ErrorKind::NotConnected)
    ));
}
