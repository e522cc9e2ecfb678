use tcp_chat::packet::{clone_roster, Message};

#[test]
fn a_copy_of_a_message_equals_it() {
    let messages = vec![
        Message::ClientText("hi".to_string()),
        Message::ClientHello("alice".to_string()),
        Message::ClientGoodbye,
        Message::ClientRename("al".to_string()),
        Message::ClientKick(3),
        Message::ClientRequestIDs,
        Message::ServerText("bob".to_string(), "hello".to_string()),
        Message::ServerShutdown,
        Message::ServerNotifyKick,
        Message::ServerResponseIDs(vec![("alice".to_string(), 0), ("bob".to_string(), 1)]),
    ];
    for message in &messages {
        assert_eq!(&message.clone(), message);
    }
}

#[test]
fn messages_that_differ_are_not_equal() {
    assert_ne!(Message::ClientText("a".to_string()), Message::ClientHello("a".to_string()));
    assert_ne!(Message::ClientKick(1), Message::ClientKick(2));
    assert_ne!(
        Message::ServerText("a".to_string(), "b".to_string()),
        Message::ServerText("b".to_string(), "a".to_string())
    );
}

#[test]
fn a_copy_of_a_roster_equals_it() {
    let roster = vec![("alice".to_string(), 0), ("bob".to_string(), 1)];
    assert_eq!(clone_roster(&roster), roster);
    assert!(clone_roster(&Vec::new()).is_empty());
}
