//! Echo: answers `<command> <text>` with `<text>`, where the message came from.

use vstd::prelude::*;
use vstd::string::{StrSliceExecFns, StringExecFns};
use crate::command::Command;
use crate::event::{Event, EventKind};
use crate::service::ServiceId;
use crate::text::{has_prefix, push_char, starts_with};

verus! {

/// An echo responder for one command word.
#[derive(Debug, Clone)]
pub struct Echo {
    pub command_string: String,
}

/// The text that introduces an echo: the command and a space.
pub open spec fn echo_prefix(command: Seq<char>) -> Seq<char> {
    command.push(' ')
}

/// What follows the prefix, when `body` begins with it.
pub open spec fn echo_content(command: Seq<char>, body: Seq<char>) -> Seq<char> {
    body.subrange(echo_prefix(command).len() as int, body.len() as int)
}

/// Whether `c` echoes `e` back where it came from.
pub open spec fn is_echo_of(c: Command, command: Seq<char>, e: Event) -> bool {
    match (c, e.kind) {
        (
            Command::SendDirectMessage { service_id, user_id, body, with_reply },
            EventKind::DirectMessage { user_id: from, body: msg, .. },
        ) => service_id@ == e.service_id@ && user_id@ == from@ && body@ == echo_content(command, msg@)
            && with_reply,
        (
            Command::SendRoomMessage { service_id, room_id, body, markdown_body, with_reply },
            EventKind::RoomMessage { room_id: from, body: msg, .. },
        ) => service_id@ == e.service_id@ && room_id@ == from@ && body@ == echo_content(command, msg@)
            && markdown_body is None && with_reply,
        _ => false,
    }
}

/// Whether `e` is a message that asks for an echo.
pub open spec fn asks_echo(command: Seq<char>, e: Event) -> bool {
    match e.kind {
        EventKind::DirectMessage { body, .. } => has_prefix(body@, echo_prefix(command)),
        EventKind::RoomMessage { body, .. } => has_prefix(body@, echo_prefix(command)),
        _ => false,
    }
}

impl Echo {
    pub fn new(command_string: String) -> (r: Echo)
        ensures
            r.command_string == command_string,
    {
        Echo { command_string }
    }

    /// The reply to `e`, if it asks for an echo: the text after the command,
    /// sent back as a direct message or to the same room, awaiting the new
    /// message's identifier.
    pub fn on_event(&self, e: &Event) -> (r: Option<Command>)
        ensures
            r is Some <==> asks_echo(self.command_string@, *e),
            r matches Some(c) ==> is_echo_of(c, self.command_string@, *e),
    {
        let mut prefix = self.command_string.clone();
        push_char(&mut prefix, ' ');
        let body = match &e.kind {
            EventKind::DirectMessage { body, .. } => body,
            EventKind::RoomMessage { body, .. } => body,
            _ => {
                return None;
            },
        };
        if !starts_with(body.as_str(), prefix.as_str()) {
            return None;
        }
        let from = prefix.as_str().unicode_len();
        let to = body.as_str().unicode_len();
        let content = String::from_str(body.as_str().substring_char(from, to));
        match &e.kind {
            EventKind::DirectMessage { user_id, .. } => Some(
                Command::SendDirectMessage {
                    service_id: ServiceId(e.service_id.0.clone()),
                    user_id: user_id.clone(),
                    body: content,
                    with_reply: true,
                },
            ),
            EventKind::RoomMessage { room_id, .. } => Some(
                Command::SendRoomMessage {
                    service_id: ServiceId(e.service_id.0.clone()),
                    room_id: room_id.clone(),
                    body: content,
                    markdown_body: None,
                    with_reply: true,
                },
            ),
            _ => None,
        }
    }
}

} // verus!
