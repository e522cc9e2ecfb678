use tcp_chat::framing::{encode_frame, FrameBuffer, ReceiveError};
use tcp_chat::packet::Message;
use tcp_chat::registry::Registry;
use tcp_chat::server::{
    server_accept_connection, server_distribute_message, server_greet, server_handle_message,
    Action, Admission, Greeting,
};

fn deliver(to: u64, message: Message) -> Action {
    Action::Send { to, message }
}

fn join(registry: &mut Registry, name: &str) -> (Vec<Action>, Message, Admission) {
    match server_greet(Ok(Message::ClientHello(name.to_string()))) {
        Greeting::Welcome { name, announcement } => {
            let told = server_distribute_message(registry, &announcement, &[]);
            let admission = server_accept_connection(registry, name, true);
            (told, announcement, admission)
        }
        Greeting::Refused(refusal) => panic!("refused: {:?}", refusal),
    }
}

#[test]
fn two_clients_chat_one_is_kicked_and_the_roster_shows_it() {
    let mut registry = Registry::new();

    let (told, echo, admission) = join(&mut registry, "alice");
    assert!(told.is_empty());
    assert_eq!(
        echo,
        Message::ServerText("[server]".to_string(), "alice has joined the room".to_string())
    );
    assert_eq!(admission, Admission::Joined { id: 0 });

    let (told, echo, admission) = join(&mut registry, "bob");
    let joined = Message::ServerText("[server]".to_string(), "bob has joined the room".to_string());
    assert_eq!(told, vec![deliver(0, joined.clone())]);
    assert_eq!(echo, joined);
    assert_eq!(admission, Admission::Joined { id: 1 });

    let actions = server_handle_message(&Message::ClientText("hi".to_string()), 0, &mut registry);
    assert_eq!(actions, vec![deliver(1, Message::ServerText("alice".to_string(), "hi".to_string()))]);

    let actions = server_handle_message(&Message::ClientKick(1), 0, &mut registry);
    assert_eq!(
        actions,
        vec![
            deliver(1, Message::ServerNotifyKick),
            Action::Close { id: 1 },
            deliver(
                0,
                Message::ServerText(
                    "[server]".to_string(),
                    "bob was kicked by the host".to_string()
                )
            ),
        ]
    );
    assert_eq!(registry.ids(), &vec![0]);

    let actions = server_handle_message(&Message::ClientRequestIDs, 0, &mut registry);
    assert_eq!(
        actions,
        vec![deliver(0, Message::ServerResponseIDs(vec![("alice".to_string(), 0)]))]
    );
}

#[test]
fn a_frame_that_does_not_decode_costs_a_client_its_buffer_not_its_place() {
    let decode = |text: &str| text.strip_prefix("say ").map(|rest| Message::ClientText(rest.to_string()));
    let mut registry = Registry::new();
    registry.register("alice".to_string());
    registry.register("bob".to_string());
    let mut buffer = FrameBuffer::new();

    buffer.absorb(&encode_frame("???"));
    assert_eq!(buffer.receive_partial(decode), Err(ReceiveError::Malformed));
    buffer.empty_buffer();
    assert!(registry.contains(1));

    let frame = encode_frame("say hello again");
    buffer.absorb(&frame[..4]);
    assert_eq!(buffer.receive_partial(decode), Err(ReceiveError::Incomplete));
    buffer.absorb(&frame[4..]);
    let message = buffer.receive_partial(decode).unwrap();
    let actions = server_handle_message(&message, 1, &mut registry);
    assert_eq!(
        actions,
        vec![deliver(0, Message::ServerText("bob".to_string(), "hello again".to_string()))]
    );
}
