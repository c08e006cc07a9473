//! Events: facts that a service observed on its backend.

use vstd::prelude::*;
use vstd::string::StringExecFns;
use crate::service::ServiceId;
use crate::text::{decimal, push_char, push_decimal};

verus! {

/// One member of a service's user list.
#[derive(Debug, Clone)]
pub struct User {
    pub id: String,
    pub username: String,
    pub display_name: String,
    pub is_active: bool,
    pub is_self: bool,
}

/// What a service observed.
#[derive(Debug, Clone)]
pub enum EventKind {
    DirectMessage {
        user_id: String,
        body: String,
        is_local_user: bool,
        sender_id: String,
        sender_display_name: Option<String>,
        is_self: bool,
    },
    RoomMessage {
        room_id: String,
        body: String,
        is_local_user: bool,
        sender_id: String,
        sender_display_name: Option<String>,
        is_self: bool,
    },
    UserListUpdate { users: Vec<User> },
    ServiceDisconnected { reason: String, attempt: u32 },
    ServiceReconnecting { attempt: u32, delay_secs: u64 },
    ServiceReconnected { downtime_secs: u64, total_attempts: u32 },
}

/// An observation of one service.
#[derive(Debug, Clone)]
pub struct Event {
    pub service_id: ServiceId,
    pub kind: EventKind,
}

/// The one-line description of an event: `[service]` followed by its kind.
pub open spec fn event_text(e: Event) -> Seq<char> {
    seq!['['] + e.service_id@ + seq![']'] + match e.kind {
        EventKind::DirectMessage { user_id, body, .. } => "[DM] "@ + user_id@ + ": "@ + body@,
        EventKind::RoomMessage { room_id, body, .. } => "[RM] "@ + room_id@ + ": "@ + body@,
        EventKind::UserListUpdate { users } => "[UserList] "@ + decimal(users@.len()) + " users"@,
        EventKind::ServiceDisconnected { reason, attempt } => "[Disconnected] attempt "@ + decimal(
            attempt as nat,
        ) + ": "@ + reason@,
        EventKind::ServiceReconnecting { attempt, delay_secs } => "[Reconnecting] attempt "@
            + decimal(attempt as nat) + " after "@ + decimal(delay_secs as nat) + "s"@,
        EventKind::ServiceReconnected { downtime_secs, total_attempts } => "[Reconnected] after "@
            + decimal(downtime_secs as nat) + "s downtime ("@ + decimal(total_attempts as nat)
            + " attempts)"@,
    }
}

impl Event {
    /// The one-line description of this event.
    pub fn to_string(&self) -> (r: String)
        ensures
            r@ == event_text(*self),
    {
        let mut s = String::new();
        push_char(&mut s, '[');
        s.append(self.service_id.0.as_str());
        push_char(&mut s, ']');
        let ghost head = s@;
        match &self.kind {
            EventKind::DirectMessage { user_id, body, .. } => {
                s.append("[DM] ");
                s.append(user_id.as_str());
                s.append(": ");
                s.append(body.as_str());
            },
            EventKind::RoomMessage { room_id, body, .. } => {
                s.append("[RM] ");
                s.append(room_id.as_str());
                s.append(": ");
                s.append(body.as_str());
            },
            EventKind::UserListUpdate { users } => {
                s.append("[UserList] ");
                push_decimal(&mut s, users.len() as u64);
                s.append(" users");
            },
            EventKind::ServiceDisconnected { reason, attempt } => {
                s.append("[Disconnected] attempt ");
                push_decimal(&mut s, *attempt as u64);
                s.append(": ");
                s.append(reason.as_str());
            },
            EventKind::ServiceReconnecting { attempt, delay_secs } => {
                s.append("[Reconnecting] attempt ");
                push_decimal(&mut s, *attempt as u64);
                s.append(" after ");
                push_decimal(&mut s, *delay_secs);
                s.append("s");
            },
            EventKind::ServiceReconnected { downtime_secs, total_attempts } => {
                s.append("[Reconnected] after ");
                push_decimal(&mut s, *downtime_secs);
                s.append("s downtime (");
                push_decimal(&mut s, *total_attempts as u64);
                s.append(" attempts)");
            },
        }
        assert(s@ =~= event_text(*self));
        s
    }
}

} // verus!
