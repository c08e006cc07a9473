//! Logger: lets every event pass, describing it for the log.

use vstd::prelude::*;
use vstd::string::StringExecFns;
use crate::event::{Event, User};
use crate::middleware::Verdict;

verus! {

/// A middleware that only observes.
#[derive(Debug, Clone, Copy)]
pub struct Logger;

/// How a user is listed in the log: by username, marked when it is the bot.
pub open spec fn user_label(u: User) -> Seq<char> {
    if u.is_self {
        u.username@ + " (self)"@
    } else {
        u.username@
    }
}

impl Logger {
    /// Every event passes on.
    pub fn on_event(&self, e: &Event) -> (r: Verdict)
        ensures
            r == Verdict::Continue,
    {
        Verdict::Continue
    }

    /// The log labels of a user list, in order.
    pub fn user_labels(users: &Vec<User>) -> (r: Vec<String>)
        ensures
            r@.len() == users@.len(),
            forall|i: int| 0 <= i < users@.len() ==> #[trigger] r@[i]@ == user_label(users@[i]),
    {
        let mut out: Vec<String> = Vec::new();
        let mut i: usize = 0;
        while i < users.len()
            invariant
                i <= users.len(),
                out@.len() == i,
                forall|k: int| 0 <= k < i ==> #[trigger] out@[k]@ == user_label(users@[k]),
            decreases users.len() - i,
        {
            let u = &users[i];
            let mut label = u.username.clone();
            if u.is_self {
                label.append(" (self)");
            }
            out.push(label);
            i = i + 1;
        }
        out
    }
}

} // verus!
