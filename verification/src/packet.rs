//! The messages that clients and the room exchange.

use vstd::prelude::*;

verus! {

/// One message of the chat protocol. Every frame carries exactly one.
#[derive(Debug, PartialEq, Eq)]
pub enum Message {
    /// A line of chat from a client.
    ClientText(String),
    /// The first message of a client on a new connection: its name.
    ClientHello(String),
    /// A client says that it leaves the room.
    ClientGoodbye,
    /// A client asks for a new name.
    ClientRename(String),
    /// The host asks that the client with this id be removed.
    ClientKick(u64),
    /// A client asks who is in the room.
    ClientRequestIDs,
    /// A line that the room hands to a client: who said it, and the text.
    ServerText(String, String),
    /// The room is closing.
    ServerShutdown,
    /// Tells a client that it has been removed from the room.
    ServerNotifyKick,
    /// The answer to [`Message::ClientRequestIDs`]: name and id of every
    /// client in the room.
    ServerResponseIDs(Vec<(String, u64)>),
}

/// What a [`Message`] says, with texts as sequences of characters.
pub enum MessageView {
    ClientText(Seq<char>),
    ClientHello(Seq<char>),
    ClientGoodbye,
    ClientRename(Seq<char>),
    ClientKick(u64),
    ClientRequestIDs,
    ServerText(Seq<char>, Seq<char>),
    ServerShutdown,
    ServerNotifyKick,
    ServerResponseIDs(Seq<(Seq<char>, u64)>),
}

/// The roster that a list of name and id pairs stands for.
pub open spec fn roster_view(entries: Seq<(String, u64)>) -> Seq<(Seq<char>, u64)> {
    entries.map_values(|entry: (String, u64)| (entry.0@, entry.1))
}

impl View for Message {
    type V = MessageView;

    open spec fn view(&self) -> MessageView {
        match self {
            Message::ClientText(text) => MessageView::ClientText(text@),
            Message::ClientHello(name) => MessageView::ClientHello(name@),
            Message::ClientGoodbye => MessageView::ClientGoodbye,
            Message::ClientRename(name) => MessageView::ClientRename(name@),
            Message::ClientKick(id) => MessageView::ClientKick(*id),
            Message::ClientRequestIDs => MessageView::ClientRequestIDs,
            Message::ServerText(name, text) => MessageView::ServerText(name@, text@),
            Message::ServerShutdown => MessageView::ServerShutdown,
            Message::ServerNotifyKick => MessageView::ServerNotifyKick,
            Message::ServerResponseIDs(entries) => MessageView::ServerResponseIDs(
                roster_view(entries@),
            ),
        }
    }
}

/// A copy of a roster.
pub fn clone_roster(entries: &Vec<(String, u64)>) -> (copy: Vec<(String, u64)>)
    ensures
        roster_view(copy@) == roster_view(entries@),
{
    let mut copy: Vec<(String, u64)> = Vec::new();
    let mut i: usize = 0;
    while i < entries.len()
        invariant
            i <= entries.len(),
            copy.len() == i,
            forall|j: int| 0 <= j < i ==> copy[j].0@ == entries[j].0@ && copy[j].1 == entries[j].1,
        decreases entries.len() - i,
    {
        copy.push((entries[i].0.clone(), entries[i].1));
        i += 1;
    }
    assert(roster_view(copy@) =~= roster_view(entries@));
    copy
}

impl Clone for Message {
    /// A copy that says the same.
    fn clone(&self) -> (copy: Message)
        ensures
            copy@ == self@,
    {
        match self {
            Message::ClientText(text) => Message::ClientText(text.clone()),
            Message::ClientHello(name) => Message::ClientHello(name.clone()),
            Message::ClientGoodbye => Message::ClientGoodbye,
            Message::ClientRename(name) => Message::ClientRename(name.clone()),
            Message::ClientKick(id) => Message::ClientKick(*id),
            Message::ClientRequestIDs => Message::ClientRequestIDs,
            Message::ServerText(name, text) => Message::ServerText(name.clone(), text.clone()),
            Message::ServerShutdown => Message::ServerShutdown,
            Message::ServerNotifyKick => Message::ServerNotifyKick,
            Message::ServerResponseIDs(entries) => Message::ServerResponseIDs(
                clone_roster(entries),
            ),
        }
    }
}

} // verus!
