//! Chat relay: forwards room messages of one service to a room of another,
//! tagged with where they came from and who wrote them.

use vstd::prelude::*;
use vstd::string::StringExecFns;
use crate::command::Command;
use crate::event::{Event, EventKind};
use crate::service::ServiceId;
use crate::text::push_char;

verus! {

/// Settings of a chat relay.
#[derive(Debug, Clone)]
pub struct ChatRelayConfig {
    pub source_service_id: String,
    pub source_room_id: Option<String>,
    pub dest_service_id: String,
    pub dest_room_id: String,
    pub prefix_tag: String,
}

/// A chat relay.
#[derive(Debug, Clone)]
pub struct ChatRelay {
    pub source_service_id: String,
    pub source_room_id: Option<String>,
    pub dest_service_id: String,
    pub dest_room_id: String,
    pub prefix_tag: String,
}

/// `[tag] sender: body`, where the sender is shown by display name when it
/// has one.
pub open spec fn relayed_text(
    tag: Seq<char>,
    sender_id: Seq<char>,
    display: Option<Seq<char>>,
    body: Seq<char>,
) -> Seq<char> {
    let shown = match display {
        Some(d) => d,
        None => sender_id,
    };
    seq!['['] + tag + "] "@ + shown + ": "@ + body
}

pub open spec fn opt_text(o: Option<String>) -> Option<Seq<char>> {
    match o {
        Some(s) => Some(s@),
        None => None,
    }
}

/// Whether the relay forwards `e`: a room message of the source service, from
/// the source room if one is set, not written by the bot itself.
pub open spec fn forwards(r: ChatRelay, e: Event) -> bool {
    &&& e.service_id@ == r.source_service_id@
    &&& e.kind matches EventKind::RoomMessage { room_id, is_self, .. }
    &&& (r.source_room_id matches Some(want) ==> room_id@ == want@)
    &&& !is_self
}

/// Whether `c` posts `e`'s message, tagged, to the destination room, as plain
/// text and markdown alike, awaiting nothing.
pub open spec fn is_relay_of(c: Command, r: ChatRelay, e: Event) -> bool {
    match (c, e.kind) {
        (
            Command::SendRoomMessage { service_id, room_id, body, markdown_body, with_reply },
            EventKind::RoomMessage { body: msg, sender_id, sender_display_name, .. },
        ) => {
            &&& service_id@ == r.dest_service_id@
            &&& room_id@ == r.dest_room_id@
            &&& body@ == relayed_text(r.prefix_tag@, sender_id@, opt_text(sender_display_name), msg@)
            &&& markdown_body matches Some(md) && md@ == body@
            &&& !with_reply
        },
        _ => false,
    }
}

/// Renders a relayed message.
pub fn format_relayed_message(
    prefix_tag: &str,
    sender_id: &str,
    sender_display_name: Option<&str>,
    body: &str,
) -> (r: String)
    ensures
        r@ == relayed_text(
            prefix_tag@,
            sender_id@,
            match sender_display_name {
                Some(d) => Some(d@),
                None => None,
            },
            body@,
        ),
{
    let shown = match sender_display_name {
        Some(d) => d,
        None => sender_id,
    };
    let mut s = String::new();
    push_char(&mut s, '[');
    s.append(prefix_tag);
    s.append("] ");
    s.append(shown);
    s.append(": ");
    s.append(body);
    s
}

impl ChatRelay {
    pub fn new(config: ChatRelayConfig) -> (r: ChatRelay)
        ensures
            r.source_service_id == config.source_service_id,
            r.source_room_id == config.source_room_id,
            r.dest_service_id == config.dest_service_id,
            r.dest_room_id == config.dest_room_id,
            r.prefix_tag == config.prefix_tag,
    {
        ChatRelay {
            source_service_id: config.source_service_id,
            source_room_id: config.source_room_id,
            dest_service_id: config.dest_service_id,
            dest_room_id: config.dest_room_id,
            prefix_tag: config.prefix_tag,
        }
    }

    /// The command that forwards `e`, if the relay forwards it. A message the
    /// bot wrote itself is never forwarded.
    pub fn on_event(&self, e: &Event) -> (r: Option<Command>)
        ensures
            r is Some <==> forwards(*self, *e),
            e.kind matches EventKind::RoomMessage { is_self, .. } && is_self ==> r is None,
            r matches Some(c) ==> is_relay_of(c, *self, *e),
    {
        if e.service_id.0 != self.source_service_id {
            return None;
        }
        match &e.kind {
            EventKind::RoomMessage { room_id, body, sender_id, sender_display_name, is_self, .. } => {
                match &self.source_room_id {
                    Some(want) => {
                        if *room_id != *want {
                            return None;
                        }
                    },
                    None => {},
                }
                if *is_self {
                    return None;
                }
                let display: Option<&str> = match sender_display_name {
                    Some(d) => Some(d.as_str()),
                    None => None,
                };
                let text = format_relayed_message(
                    self.prefix_tag.as_str(),
                    sender_id.as_str(),
                    display,
                    body.as_str(),
                );
                Some(
                    Command::SendRoomMessage {
                        service_id: ServiceId(self.dest_service_id.clone()),
                        room_id: self.dest_room_id.clone(),
                        body: text.clone(),
                        markdown_body: Some(text),
                        with_reply: false,
                    },
                )
            },
            _ => None,
        }
    }
}

} // verus!
