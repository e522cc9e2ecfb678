use serde_json::Value;
use tcp_chat::framing::{encode_frame, FrameBuffer, ReceiveError};
use tcp_chat::packet::Message;

fn tagged(tag: &str, content: Value) -> Value {
    let mut object = serde_json::Map::new();
    object.insert(tag.to_string(), content);
    Value::Object(object)
}

fn text(s: &str) -> Value {
    Value::String(s.to_string())
}

fn to_json(message: &Message) -> String {
    let value = match message {
        Message::ClientText(t) => tagged("ClientText", text(t)),
        Message::ClientHello(n) => tagged("ClientHello", text(n)),
        Message::ClientGoodbye => text("ClientGoodbye"),
        Message::ClientRename(n) => tagged("ClientRename", text(n)),
        Message::ClientKick(id) => tagged("ClientKick", Value::from(*id)),
        Message::ClientRequestIDs => text("ClientRequestIDs"),
        Message::ServerText(n, t) => tagged("ServerText", Value::Array(vec![text(n), text(t)])),
        Message::ServerShutdown => text("ServerShutdown"),
        Message::ServerNotifyKick => text("ServerNotifyKick"),
        Message::ServerResponseIDs(entries) => tagged(
            "ServerResponseIDs",
            Value::Array(
                entries
                    .iter()
                    .map(|(n, id)| Value::Array(vec![text(n), Value::from(*id)]))
                    .collect(),
            ),
        ),
    };
    serde_json::to_string(&value).unwrap()
}

fn pair_of_texts(content: &Value) -> Option<(String, String)> {
    let items = content.as_array()?;
    if items.len() != 2 {
        return None;
    }
    Some((items[0].as_str()?.to_string(), items[1].as_str()?.to_string()))
}

fn roster_entry(content: &Value) -> Option<(String, u64)> {
    let items = content.as_array()?;
    if items.len() != 2 {
        return None;
    }
    Some((items[0].as_str()?.to_string(), items[1].as_u64()?))
}

fn from_json(payload: &str) -> Option<Message> {
    let value: Value = serde_json::from_str(payload).ok()?;
    if let Some(tag) = value.as_str() {
        return match tag {
            "ClientGoodbye" => Some(Message::ClientGoodbye),
            "ClientRequestIDs" => Some(Message::ClientRequestIDs),
            "ServerShutdown" => Some(Message::ServerShutdown),
            "ServerNotifyKick" => Some(Message::ServerNotifyKick),
            _ => None,
        };
    }
    let object = value.as_object()?;
    if object.len() != 1 {
        return None;
    }
    let (tag, content) = object.iter().next()?;
    match tag.as_str() {
        "ClientText" => Some(Message::ClientText(content.as_str()?.to_string())),
        "ClientHello" => Some(Message::ClientHello(content.as_str()?.to_string())),
        "ClientRename" => Some(Message::ClientRename(content.as_str()?.to_string())),
        "ClientKick" => Some(Message::ClientKick(content.as_u64()?)),
        "ServerText" => {
            let (name, line) = pair_of_texts(content)?;
            Some(Message::ServerText(name, line))
        }
        "ServerResponseIDs" => {
            let entries: Option<Vec<(String, u64)>> =
                content.as_array()?.iter().map(roster_entry).collect();
            Some(Message::ServerResponseIDs(entries?))
        }
        _ => None,
    }
}

fn every_kind_of_message() -> Vec<Message> {
    vec![
        Message::ClientText("hi \"there\"\n\\ tab\tünï 🙂".to_string()),
        Message::ClientText(String::new()),
        Message::ClientHello("alice".to_string()),
        Message::ClientGoodbye,
        Message::ClientRename("al".to_string()),
        Message::ClientKick(0),
        Message::ClientKick(u64::MAX),
        Message::ClientRequestIDs,
        Message::ServerText("[server]".to_string(), "bob has joined the room".to_string()),
        Message::ServerShutdown,
        Message::ServerNotifyKick,
        Message::ServerResponseIDs(Vec::new()),
        Message::ServerResponseIDs(vec![("alice".to_string(), 0), ("bob".to_string(), 1)]),
    ]
}

#[test]
fn every_message_survives_encoding_framing_and_back() {
    for message in every_kind_of_message() {
        let mut buffer = FrameBuffer::new();
        buffer.absorb(&encode_frame(&to_json(&message)));
        assert_eq!(buffer.receive_partial(from_json), Ok(message));
        assert_eq!(buffer.len(), 0);
    }
}

#[test]
fn messages_sent_one_after_another_arrive_in_order() {
    let messages = every_kind_of_message();
    let mut stream = Vec::new();
    for message in &messages {
        stream.extend_from_slice(&encode_frame(&to_json(message)));
    }
    let mut buffer = FrameBuffer::new();
    let mut received = Vec::new();
    for chunk in stream.chunks(7) {
        buffer.absorb(chunk);
        loop {
            match buffer.receive_partial(from_json) {
                Ok(message) => received.push(message),
                Err(e) => {
                    assert_eq!(e, ReceiveError::Incomplete);
                    break;
                }
            }
        }
    }
    assert_eq!(received, messages);
    assert_eq!(buffer.len(), 0);
}

#[test]
fn the_frame_of_a_message_is_its_json_behind_its_length() {
    let frame = encode_frame(&to_json(&Message::ClientKick(5)));
    let payload = b"{\"ClientKick\":5}";
    assert_eq!(frame[..8], [16, 0, 0, 0, 0, 0, 0, 0]);
    assert_eq!(&frame[8..], payload);
}

#[test]
fn json_that_is_no_message_is_malformed_and_the_next_message_decodes_after_a_reset() {
    let mut buffer = FrameBuffer::new();
    for bad in ["{\"ClientKick\":\"one\"}", "{\"Nonsense\":1}", "[1,2", "\"ClientText\"", "17"] {
        buffer.absorb(&encode_frame(bad));
        assert_eq!(buffer.receive_partial(from_json), Err(ReceiveError::Malformed));
        assert_eq!(buffer.len(), 8 + bad.len());
        buffer.empty_buffer();
        buffer.absorb(&encode_frame(&to_json(&Message::ClientGoodbye)));
        assert_eq!(buffer.receive_partial(from_json), Ok(Message::ClientGoodbye));
    }
}
