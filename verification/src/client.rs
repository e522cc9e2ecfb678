//! What a client does with a line that its user typed, with a message from
//! the room, and with the address that its user gave.

use vstd::prelude::*;
use vstd::string::*;
use crate::commands::{parse_command, parsed_command, Command, CommandView};
use crate::constants::PORT;
use crate::framing::{ReceiveError, TransportKind};
use crate::packet::{Message, MessageView};
use crate::text::{chars_of, find_word_end, first_word, parse_number, parsed_number, second_word};

verus! {

/// What a client does next, after its user typed a line.
#[derive(Debug, PartialEq, Eq)]
pub enum ClientStep {
    /// Show the commands: those of the host too, if `host` is set.
    ShowCommands { host: bool },
    /// Send this message to the room and go on.
    Send(Message),
    /// Send this message to the room, wait a moment and stop.
    Leave(Message),
    /// Tell the user that the line is no command.
    Invalid,
}

/// What a [`ClientStep`] says.
pub enum ClientStepView {
    ShowCommands { host: bool },
    Send(MessageView),
    Leave(MessageView),
    Invalid,
}

impl View for ClientStep {
    type V = ClientStepView;

    open spec fn view(&self) -> ClientStepView {
        match self {
            ClientStep::ShowCommands { host } => ClientStepView::ShowCommands { host: *host },
            ClientStep::Send(message) => ClientStepView::Send(message@),
            ClientStep::Leave(message) => ClientStepView::Leave(message@),
            ClientStep::Invalid => ClientStepView::Invalid,
        }
    }
}

/// What follows from a line: a line that starts with `!` is a command, and
/// any other line is chat.
pub open spec fn stepped(line: Seq<char>, is_host: bool) -> ClientStepView {
    if line.len() > 0 && line[0] == '!' {
        match parsed_command(line, is_host) {
            Some(CommandView::Help) => ClientStepView::ShowCommands { host: false },
            Some(CommandView::HostHelp) => ClientStepView::ShowCommands { host: true },
            Some(CommandView::Exit) => ClientStepView::Leave(MessageView::ClientGoodbye),
            Some(CommandView::HostExit) => ClientStepView::Leave(MessageView::ServerShutdown),
            Some(CommandView::Rename(name)) => ClientStepView::Send(MessageView::ClientRename(name)),
            Some(CommandView::Kick(id)) => ClientStepView::Send(MessageView::ClientKick(id)),
            Some(CommandView::RequestIDs) => ClientStepView::Send(MessageView::ClientRequestIDs),
            None => ClientStepView::Invalid,
        }
    } else {
        ClientStepView::Send(MessageView::ClientText(line))
    }
}

/// Decides what to do with a line that the user typed: see [`stepped`].
pub fn client_step(line: &str, is_host: bool) -> (step: ClientStep)
    ensures
        step@ == stepped(line@, is_host),
{
    if line.unicode_len() > 0 && line.get_char(0) == '!' {
        match parse_command(line, is_host) {
            Some(Command::Help) => ClientStep::ShowCommands { host: false },
            Some(Command::HostHelp) => ClientStep::ShowCommands { host: true },
            Some(Command::Exit) => ClientStep::Leave(Message::ClientGoodbye),
            Some(Command::HostExit) => ClientStep::Leave(Message::ServerShutdown),
            Some(Command::Rename(name)) => ClientStep::Send(Message::ClientRename(name)),
            Some(Command::Kick(id)) => ClientStep::Send(Message::ClientKick(id)),
            Some(Command::RequestIDs) => ClientStep::Send(Message::ClientRequestIDs),
            None => ClientStep::Invalid,
        }
    } else {
        ClientStep::Send(Message::ClientText(String::from_str(line)))
    }
}

/// What a client does with what it received from the room.
#[derive(Debug, PartialEq, Eq)]
pub enum Incoming {
    /// Show this line of chat.
    Line { name: String, text: String },
    /// Show who is in the room.
    Roster(Vec<(String, u64)>),
    /// The host has closed the room: say so and stop.
    RoomClosed,
    /// The host has removed this client: say so and stop.
    Kicked,
    /// The room sent what a room does not send: show it and go on.
    Unexpected(Message),
    /// No whole message is there yet: go on.
    Nothing,
    /// The room has given up the connection: stop without a word.
    Gone,
    /// The connection is lost: say why and stop.
    Lost(ReceiveError),
}

impl Incoming {
    /// Whether the client stops after this.
    pub fn ends_session(&self) -> (ends: bool)
        ensures
            ends == (self is RoomClosed || self is Kicked || self is Gone || self is Lost),
    {
        match self {
            Incoming::RoomClosed => true,
            Incoming::Kicked => true,
            Incoming::Gone => true,
            Incoming::Lost(_) => true,
            _ => false,
        }
    }
}

/// Decides what to do with the outcome of one receive.
pub fn client_incoming(received: Result<Message, ReceiveError>) -> (incoming: Incoming)
    ensures
        incoming == match received {
            Ok(Message::ServerText(name, text)) => Incoming::Line { name, text },
            Ok(Message::ServerShutdown) => Incoming::RoomClosed,
            Ok(Message::ServerResponseIDs(entries)) => Incoming::Roster(entries),
            Ok(Message::ServerNotifyKick) => Incoming::Kicked,
            Ok(other) => Incoming::Unexpected(other),
            Err(ReceiveError::Incomplete) => Incoming::Nothing,
            Err(ReceiveError::Transport(TransportKind::Uncategorized)) => Incoming::Gone,
            Err(e) => Incoming::Lost(e),
        },
{
    match received {
        Ok(Message::ServerText(name, text)) => Incoming::Line { name, text },
        Ok(Message::ServerShutdown) => Incoming::RoomClosed,
        Ok(Message::ServerResponseIDs(entries)) => Incoming::Roster(entries),
        Ok(Message::ServerNotifyKick) => Incoming::Kicked,
        Ok(other) => Incoming::Unexpected(other),
        Err(ReceiveError::Incomplete) => Incoming::Nothing,
        Err(ReceiveError::Transport(TransportKind::Uncategorized)) => Incoming::Gone,
        Err(e) => Incoming::Lost(e),
    }
}

/// The host and the port that the address `input` names. The host is what
/// stands before the first `:`. The port is the number behind it, up to the
/// next `:` or the end, and [`PORT`] if there is no `:`. An address whose
/// port is no number, or none that a port can be, names nothing.
pub open spec fn parsed_address(input: Seq<char>) -> Option<(Seq<char>, u16)> {
    match second_word(input, ':') {
        Some(port) => match parsed_number(port, u16::MAX as nat) {
            Some(port) => Some((first_word(input, ':'), port as u16)),
            None => None,
        },
        None => Some((first_word(input, ':'), PORT)),
    }
}

/// Reads an address that the user gave: see [`parsed_address`].
pub fn parse_address(input: &str) -> (address: Option<(String, u16)>)
    ensures
        match address {
            Some((host, port)) => parsed_address(input@) == Some((host@, port)),
            None => parsed_address(input@) is None,
        },
{
    let chars = chars_of(input);
    let text = chars.as_slice();
    let end = find_word_end(text, ':', 0);
    let host = String::from_str(input.substring_char(0, end));
    if end == text.len() {
        return Some((host, PORT));
    }
    let stop = find_word_end(text, ':', end + 1);
    match parse_number(text, end + 1, stop, 65535) {
        Some(port) => Some((host, port as u16)),
        None => None,
    }
}

} // verus!
