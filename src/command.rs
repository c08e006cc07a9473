//! Commands: requests that middlewares address to services.

use vstd::prelude::*;
use crate::service::ServiceId;

verus! {

/// A request to one service. `with_reply` marks a command whose issuer
/// awaits the message identifier that the service hands back; an invite
/// token request always has a reply.
#[derive(Debug, Clone)]
pub enum Command {
    SendDirectMessage { service_id: ServiceId, user_id: String, body: String, with_reply: bool },
    SendRoomMessage {
        service_id: ServiceId,
        room_id: String,
        body: String,
        markdown_body: Option<String>,
        with_reply: bool,
    },
    EditMessage {
        service_id: ServiceId,
        message_id: String,
        new_body: String,
        new_markdown_body: Option<String>,
    },
    GenerateInviteToken {
        service_id: ServiceId,
        user_id: String,
        uses_allowed: Option<u32>,
        expiry_secs: Option<u64>,
    },
}

impl Command {
    /// The name of the service that the command is addressed to.
    pub open spec fn target(self) -> Seq<char> {
        match self {
            Command::SendDirectMessage { service_id, .. } => service_id@,
            Command::SendRoomMessage { service_id, .. } => service_id@,
            Command::EditMessage { service_id, .. } => service_id@,
            Command::GenerateInviteToken { service_id, .. } => service_id@,
        }
    }

    /// Whether the issuer awaits a value on the command's reply.
    pub open spec fn awaits_reply(self) -> bool {
        match self {
            Command::SendDirectMessage { with_reply, .. } => with_reply,
            Command::SendRoomMessage { with_reply, .. } => with_reply,
            Command::EditMessage { .. } => false,
            Command::GenerateInviteToken { .. } => true,
        }
    }

    /// The service that the command is addressed to.
    pub fn service_id(&self) -> (r: &ServiceId)
        ensures
            r@ == self.target(),
    {
        match self {
            Command::SendDirectMessage { service_id, .. } => service_id,
            Command::SendRoomMessage { service_id, .. } => service_id,
            Command::EditMessage { service_id, .. } => service_id,
            Command::GenerateInviteToken { service_id, .. } => service_id,
        }
    }

    /// Whether the issuer awaits a value on the command's reply.
    pub fn has_reply(&self) -> (r: bool)
        ensures
            r == self.awaits_reply(),
    {
        match self {
            Command::SendDirectMessage { with_reply, .. } => *with_reply,
            Command::SendRoomMessage { with_reply, .. } => *with_reply,
            Command::EditMessage { .. } => false,
            Command::GenerateInviteToken { .. } => true,
        }
    }
}

} // verus!
