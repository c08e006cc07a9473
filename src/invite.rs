//! Invite: hands out registration tokens to local users who ask by direct
//! message.

use vstd::prelude::*;
use vstd::string::StringExecFns;
use crate::clock::{unix_now, utc_timestamp, utc_timestamp_text};
use crate::command::Command;
use crate::event::{Event, EventKind};
use crate::service::ServiceId;
use crate::text::{decimal, push_decimal, trim, trimmed};

verus! {

/// Uses of a token when none are configured.
pub const DEFAULT_USES: u32 = 1;

/// Lifetime of a token when none is configured: seven days, in seconds.
pub const DEFAULT_EXPIRY_SECS: u64 = 604_800;

/// An invite responder for one command word.
#[derive(Debug, Clone)]
pub struct Invite {
    pub command_string: String,
    pub uses_allowed: Option<u32>,
    pub expiry_secs: Option<u64>,
}

pub open spec fn rejection_text() -> Seq<char> {
    "Invite tokens can only be generated for users from this server."@
}

/// The answer to a token request, from what the service returned.
pub open spec fn token_reply_text(result: Result<Seq<char>, Seq<char>>, uses: nat, expires: Seq<char>) -> Seq<char> {
    match result {
        Ok(token) => "Registration token generated: "@ + token + "\n\nUses allowed: "@ + decimal(uses)
            + "\nExpires: "@ + expires + "\n\nUse this token when registering a new account on this server."@,
        Err(e) => "Failed to generate registration token. The bot may not have admin permissions. Error: "@
            + e,
    }
}

/// The expiry shown for an instant `secs` seconds after the epoch.
pub open spec fn expiry_text(secs: int) -> Seq<char> {
    if i64::MIN <= secs <= i64::MAX {
        utc_timestamp_text(secs)
    } else {
        "unknown"@
    }
}

/// Whether `e` is a direct message whose text, trimmed, is the command.
pub open spec fn asks_invite(command: Seq<char>, e: Event) -> bool {
    e.kind matches EventKind::DirectMessage { body, .. } && trim(body@) == command
}

pub open spec fn result_text(r: Result<String, String>) -> Result<Seq<char>, Seq<char>> {
    match r {
        Ok(t) => Ok(t@),
        Err(e) => Err(e@),
    }
}

impl Invite {
    pub fn new(command_string: String, uses_allowed: Option<u32>, expiry_secs: Option<u64>) -> (r: Invite)
        ensures
            r.command_string == command_string,
            r.uses_allowed == uses_allowed,
            r.expiry_secs == expiry_secs,
    {
        Invite { command_string, uses_allowed, expiry_secs }
    }

    pub open spec fn granted_uses(self) -> u32 {
        match self.uses_allowed {
            Some(n) => n,
            None => DEFAULT_USES,
        }
    }

    pub open spec fn lifetime(self) -> u64 {
        match self.expiry_secs {
            Some(n) => n,
            None => DEFAULT_EXPIRY_SECS,
        }
    }

    /// Uses granted per token.
    pub fn uses(&self) -> (r: u32)
        ensures
            r == self.granted_uses(),
    {
        match self.uses_allowed {
            Some(n) => n,
            None => DEFAULT_USES,
        }
    }

    /// Lifetime of a token, in seconds.
    pub fn expiry(&self) -> (r: u64)
        ensures
            r == self.lifetime(),
    {
        match self.expiry_secs {
            Some(n) => n,
            None => DEFAULT_EXPIRY_SECS,
        }
    }

    /// The answer to `e`, if it asks for an invite: a refusal to a user of
    /// another server, else a token request with the configured uses and
    /// lifetime.
    pub fn on_event(&self, e: &Event) -> (r: Option<Command>)
        ensures
            r is Some <==> asks_invite(self.command_string@, *e),
            r matches Some(c) ==> e.kind matches EventKind::DirectMessage { user_id: from, is_local_user, .. } && (
                if is_local_user {
                    c matches Command::GenerateInviteToken { service_id, user_id, uses_allowed, expiry_secs }
                        && service_id@ == e.service_id@ && user_id@ == from@ && uses_allowed == self.uses_allowed
                        && expiry_secs == self.expiry_secs
                } else {
                    c matches Command::SendDirectMessage { service_id, user_id, body, with_reply }
                        && service_id@ == e.service_id@ && user_id@ == from@ && body@ == rejection_text()
                        && !with_reply
                }),
    {
        match &e.kind {
            EventKind::DirectMessage { user_id, body, is_local_user, .. } => {
                let t = trimmed(body.as_str());
                if t != self.command_string {
                    return None;
                }
                if !*is_local_user {
                    return Some(
                        Command::SendDirectMessage {
                            service_id: ServiceId(e.service_id.0.clone()),
                            user_id: user_id.clone(),
                            body: String::from_str(
                                "Invite tokens can only be generated for users from this server.",
                            ),
                            with_reply: false,
                        },
                    );
                }
                Some(
                    Command::GenerateInviteToken {
                        service_id: ServiceId(e.service_id.0.clone()),
                        user_id: user_id.clone(),
                        uses_allowed: self.uses_allowed,
                        expiry_secs: self.expiry_secs,
                    },
                )
            },
            _ => None,
        }
    }

    /// The direct message that answers a token request, from the service's
    /// result and the rendered expiry.
    pub fn token_reply(
        &self,
        service_id: &ServiceId,
        user_id: &String,
        result: &Result<String, String>,
        expires: &str,
    ) -> (r: Command)
        ensures
            r matches Command::SendDirectMessage { service_id: s, user_id: u, body, with_reply }
                && s@ == service_id@ && u@ == user_id@ && !with_reply && body@ == token_reply_text(
                result_text(*result),
                self.granted_uses() as nat,
                expires@,
            ),
    {
        let mut body = String::new();
        match result {
            Ok(token) => {
                body.append("Registration token generated: ");
                body.append(token.as_str());
                body.append("\n\nUses allowed: ");
                push_decimal(&mut body, self.uses() as u64);
                body.append("\nExpires: ");
                body.append(expires);
                body.append("\n\nUse this token when registering a new account on this server.");
            },
            Err(err) => {
                body.append(
                    "Failed to generate registration token. The bot may not have admin permissions. Error: ",
                );
                body.append(err.as_str());
            },
        }
        proof {
            assert(body@ =~= token_reply_text(result_text(*result), self.granted_uses() as nat, expires@));
        }
        Command::SendDirectMessage {
            service_id: ServiceId(service_id.0.clone()),
            user_id: user_id.clone(),
            body,
            with_reply: false,
        }
    }

    /// The direct message that answers a token request, with the expiry
    /// counted from the current time.
    pub fn on_token_result(&self, service_id: &ServiceId, user_id: &String, result: &Result<String, String>) -> (r: Command)
        ensures
            exists|now: i64|
                r matches Command::SendDirectMessage { service_id: s, user_id: u, body, with_reply }
                    && s@ == service_id@ && u@ == user_id@ && !with_reply && body@ == token_reply_text(
                    result_text(*result),
                    self.granted_uses() as nat,
                    #[trigger] expiry_text(now + self.lifetime()),
                ),
    {
        let now = unix_now();
        let at: i128 = now as i128 + self.expiry() as i128;
        let expires = if at <= i64::MAX as i128 {
            utc_timestamp(at as i64)
        } else {
            String::from_str("unknown")
        };
        assert(expires@ == expiry_text(now + self.lifetime()));
        self.token_reply(service_id, user_id, result, expires.as_str())
    }
}

} // verus!
