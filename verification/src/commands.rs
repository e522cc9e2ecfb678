//! The commands that a user may type in place of a line of chat.
//!
//! A command is the first word of a line, up to the first space. The word
//! that follows, if any, is its argument. Only the beginning of the first
//! word counts: `!helpme` asks for help as `!help` does.

use vstd::prelude::*;
use vstd::string::*;
use crate::text::{
    begins_with, chars_of, find_word_end, first_word, parse_number, parsed_number, second_word,
};

verus! {

/// The commands that every client may give, as shown to the user.
pub const CLIENT_COMMANDS: [&'static str; 3] = ["!help", "!exit", "!rename <name>"];

/// The commands that only the host may give, as shown to the user.
pub const HOST_COMMANDS: [&'static str; 2] = ["!kick <who>", "!ids"];

/// What a user asks for with a command.
#[derive(Debug, PartialEq, Eq)]
pub enum Command {
    /// Show the commands of a client.
    Help,
    /// Show the commands of the host.
    HostHelp,
    /// Leave the room.
    Exit,
    /// Close the room.
    HostExit,
    /// Take a new name.
    Rename(String),
    /// Remove the client with this id.
    Kick(u64),
    /// Show who is in the room.
    RequestIDs,
}

/// What a [`Command`] says.
pub enum CommandView {
    Help,
    HostHelp,
    Exit,
    HostExit,
    Rename(Seq<char>),
    Kick(u64),
    RequestIDs,
}

impl View for Command {
    type V = CommandView;

    open spec fn view(&self) -> CommandView {
        match self {
            Command::Help => CommandView::Help,
            Command::HostHelp => CommandView::HostHelp,
            Command::Exit => CommandView::Exit,
            Command::HostExit => CommandView::HostExit,
            Command::Rename(name) => CommandView::Rename(name@),
            Command::Kick(id) => CommandView::Kick(*id),
            Command::RequestIDs => CommandView::RequestIDs,
        }
    }
}

/// What a command says, if there is one.
pub open spec fn command_view(command: Option<Command>) -> Option<CommandView> {
    match command {
        Some(command) => Some(command@),
        None => None,
    }
}

/// The command that the line `cmd` gives, if it gives one.
///
/// For the host, `!help`, `!exit`, `!kick` and `!ids` are tried first, in
/// this order. A `!kick` needs a second word that is a client's id, and else
/// is no command at all. Then, for everyone, `!help`, `!exit` and `!rename`
/// are tried; a `!rename` needs a second word, which is the new name.
pub open spec fn parsed_command(cmd: Seq<char>, is_host: bool) -> Option<CommandView> {
    let word = first_word(cmd, ' ');
    let argument = second_word(cmd, ' ');
    if is_host && "!help"@.is_prefix_of(word) {
        Some(CommandView::HostHelp)
    } else if is_host && "!exit"@.is_prefix_of(word) {
        Some(CommandView::HostExit)
    } else if is_host && "!kick"@.is_prefix_of(word) {
        match argument {
            Some(who) => match parsed_number(who, u64::MAX as nat) {
                Some(id) => Some(CommandView::Kick(id as u64)),
                None => None,
            },
            None => None,
        }
    } else if is_host && "!ids"@.is_prefix_of(word) {
        Some(CommandView::RequestIDs)
    } else if "!help"@.is_prefix_of(word) {
        Some(CommandView::Help)
    } else if "!exit"@.is_prefix_of(word) {
        Some(CommandView::Exit)
    } else if "!rename"@.is_prefix_of(word) {
        match argument {
            Some(name) => Some(CommandView::Rename(name)),
            None => None,
        }
    } else {
        None
    }
}

/// Reads a line as a command: see [`parsed_command`].
pub fn parse_command(cmd: &str, is_host: bool) -> (command: Option<Command>)
    ensures
        command_view(command) == parsed_command(cmd@, is_host),
{
    let chars = chars_of(cmd);
    let text = chars.as_slice();
    let end = find_word_end(text, ' ', 0);
    if is_host {
        if begins_with(text, 0, end, "!help") {
            return Some(Command::HostHelp);
        }
        if begins_with(text, 0, end, "!exit") {
            return Some(Command::HostExit);
        }
        if begins_with(text, 0, end, "!kick") {
            if end == text.len() {
                return None;
            }
            let stop = find_word_end(text, ' ', end + 1);
            return match parse_number(text, end + 1, stop, u64::MAX) {
                Some(id) => Some(Command::Kick(id)),
                None => None,
            };
        }
        if begins_with(text, 0, end, "!ids") {
            return Some(Command::RequestIDs);
        }
    }
    if begins_with(text, 0, end, "!help") {
        return Some(Command::Help);
    }
    if begins_with(text, 0, end, "!exit") {
        return Some(Command::Exit);
    }
    if begins_with(text, 0, end, "!rename") {
        if end == text.len() {
            return None;
        }
        let stop = find_word_end(text, ' ', end + 1);
        let name = cmd.substring_char(end + 1, stop);
        return Some(Command::Rename(String::from_str(name)));
    }
    None
}

} // verus!
