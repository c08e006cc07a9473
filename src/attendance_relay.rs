//! Presence sessions: a live roster of who is active on a source service,
//! kept in a message of a destination room, and a summary when the session
//! ends.

use vstd::prelude::*;
use vstd::string::StringExecFns;
use crate::command::Command;
use crate::event::{Event, EventKind, User};
use crate::service::ServiceId;
use crate::text::{
    add_missing, ascending, bullets, contains_text, decimal, push_bullets, push_decimal,
    sorted_texts, texts,
};

verus! {

/// The roster message: the prefix, a blank line, then one line per name, or
/// a note that nobody is active.
pub open spec fn roster_text(prefix: Seq<char>, names: Seq<Seq<char>>) -> Seq<char> {
    prefix + "\n\n"@ + if names.len() == 0 {
        "No active participants"@
    } else {
        bullets(names)
    }
}

/// Whether `body` is the roster message of the names, in ascending order.
pub open spec fn renders_roster(body: Seq<char>, prefix: Seq<char>, names: Seq<Seq<char>>) -> bool {
    exists|s: Seq<Seq<char>>|
        ascending(s) && s.to_multiset() =~= names.to_multiset() && body == roster_text(prefix, s)
}

/// A session length: hours, minutes and seconds, leaving out leading zero
/// units.
pub open spec fn duration_text(secs: nat) -> Seq<char> {
    let h = secs / 3600;
    let m = (secs / 60) % 60;
    let s = secs % 60;
    if h > 0 {
        decimal(h) + "h "@ + decimal(m) + "m "@ + decimal(s) + "s"@
    } else if m > 0 {
        decimal(m) + "m "@ + decimal(s) + "s"@
    } else {
        decimal(s) + "s"@
    }
}

/// The end-of-session summary.
pub open spec fn summary_text(end: Seq<char>, secs: nat, names: Seq<Seq<char>>) -> Seq<char> {
    end + "\n\nDuration: "@ + duration_text(secs) + "\n\nParticipants:\n"@ + bullets(names)
}

/// Whether `body` is the summary of a session of `secs` seconds with the
/// names, in ascending order.
pub open spec fn renders_summary(
    body: Seq<char>,
    end: Seq<char>,
    secs: nat,
    names: Seq<Seq<char>>,
) -> bool {
    exists|s: Seq<Seq<char>>|
        ascending(s) && s.to_multiset() =~= names.to_multiset() && body == summary_text(end, secs, s)
}

/// The roster message for the participants, listed in ascending order.
pub fn format_live_message(prefix: &str, participants: &Vec<String>) -> (r: String)
    ensures
        renders_roster(r@, prefix@, texts(participants@)),
{
    let sorted = sorted_texts(participants);
    let mut s = String::from_str(prefix);
    s.append("\n\n");
    if sorted.len() == 0 {
        s.append("No active participants");
    } else {
        push_bullets(&mut s, &sorted);
    }
    assert(s@ =~= roster_text(prefix@, texts(sorted@)));
    s
}

/// Renders a session length.
pub fn format_duration(secs: u64) -> (r: String)
    ensures
        r@ == duration_text(secs as nat),
{
    let h = secs / 3600;
    let m = (secs / 60) % 60;
    let sec = secs % 60;
    let mut s = String::new();
    if h > 0 {
        push_decimal(&mut s, h);
        s.append("h ");
        push_decimal(&mut s, m);
        s.append("m ");
        push_decimal(&mut s, sec);
        s.append("s");
    } else if m > 0 {
        push_decimal(&mut s, m);
        s.append("m ");
        push_decimal(&mut s, sec);
        s.append("s");
    } else {
        push_decimal(&mut s, sec);
        s.append("s");
    }
    assert(s@ =~= duration_text(secs as nat));
    s
}

/// The end-of-session summary: the closing message, the session's length,
/// and everyone who took part, in ascending order.
pub fn format_session_summary(end_message: &str, all_participants: &Vec<String>, secs: u64) -> (r:
    String)
    ensures
        renders_summary(r@, end_message@, secs as nat, texts(all_participants@)),
{
    let sorted = sorted_texts(all_participants);
    let mut s = String::from_str(end_message);
    s.append("\n\nDuration: ");
    let d = format_duration(secs);
    s.append(d.as_str());
    s.append("\n\nParticipants:\n");
    push_bullets(&mut s, &sorted);
    assert(s@ =~= summary_text(end_message@, secs as nat, texts(sorted@)));
    s
}


/// Settings of a presence relay.
#[derive(Debug, Clone)]
pub struct AttendanceRelayConfig {
    pub source_service_id: String,
    pub source_room_id: Option<String>,
    pub dest_service_id: String,
    pub dest_room_id: String,
    pub session_start_message: String,
    pub session_end_message: String,
    pub session_ended_edit_message: String,
}

/// A presence relay: follows the user lists of the source service and keeps
/// a roster in the destination room.
#[derive(Debug, Clone)]
pub struct AttendanceRelay {
    pub source_service_id: String,
    pub source_room_id: Option<String>,
    pub dest_service_id: String,
    pub dest_room_id: String,
    pub session_start_message: String,
    pub session_end_message: String,
    pub session_ended_edit_message: String,
}

/// The state of one relay's session. Each name is held once.
#[derive(Debug, Clone)]
pub struct SessionState {
    pub is_session_active: bool,
    pub active_participants: Vec<String>,
    pub all_participants: Vec<String>,
    /// Start of the session, in seconds since the Unix epoch.
    pub session_start_time: Option<i64>,
    /// The roster message, once the destination reported its identifier.
    pub live_message_id: Option<String>,
}

/// A session state as sets of names.
pub struct SessionView {
    pub active: bool,
    pub active_names: Set<Seq<char>>,
    pub all_names: Set<Seq<char>>,
    pub start: Option<i64>,
    pub live: Option<Seq<char>>,
}

pub open spec fn view_wf(v: SessionView) -> bool {
    &&& v.active_names.subset_of(v.all_names)
    &&& (v.active <==> v.active_names != Set::<Seq<char>>::empty())
    &&& (v.active <==> v.start is Some)
    &&& (v.live is Some ==> v.active)
}

/// How the session changes on a user list whose active names are `cur`,
/// received at `now`.
pub open spec fn session_step(v: SessionView, cur: Set<Seq<char>>, now: i64) -> SessionView {
    let now_active = cur != Set::<Seq<char>>::empty();
    if !v.active && !now_active {
        v
    } else if !v.active && now_active {
        SessionView { active: true, active_names: cur, all_names: cur, start: Some(now), live: None }
    } else if v.active && now_active {
        SessionView { active_names: cur, all_names: v.all_names.union(cur), ..v }
    } else {
        SessionView {
            active: false,
            active_names: Set::empty(),
            all_names: Set::empty(),
            start: None,
            live: None,
        }
    }
}

/// Seconds from `start` to `now`, zero if the clock went back.
pub open spec fn elapsed(start: Option<i64>, now: i64) -> nat {
    match start {
        Some(t) => if now > t { (now - t) as nat } else { 0 },
        None => 0,
    }
}

impl SessionState {
    pub open spec fn view(&self) -> SessionView {
        SessionView {
            active: self.is_session_active,
            active_names: texts(self.active_participants@).to_set(),
            all_names: texts(self.all_participants@).to_set(),
            start: self.session_start_time,
            live: match self.live_message_id {
                Some(id) => Some(id@),
                None => None,
            },
        }
    }

    pub open spec fn wf(&self) -> bool {
        &&& texts(self.active_participants@).no_duplicates()
        &&& texts(self.all_participants@).no_duplicates()
        &&& view_wf(self.view())
    }

    /// No session.
    pub fn new() -> (r: SessionState)
        ensures
            r.wf(),
            !r.is_session_active,
            r.active_participants@.len() == 0,
            r.all_participants@.len() == 0,
            r.session_start_time is None,
            r.live_message_id is None,
    {
        let r = SessionState {
            is_session_active: false,
            active_participants: Vec::new(),
            all_participants: Vec::new(),
            session_start_time: None,
            live_message_id: None,
        };
        assert(texts(r.active_participants@).to_set() =~= Set::empty());
        assert(texts(r.all_participants@).to_set() =~= Set::empty());
        r
    }

    /// The destination reported the identifier of the roster message. It is
    /// kept while the session lasts.
    pub fn record_live_message(&mut self, id: String)
        requires
            old(self).wf(),
        ensures
            final(self).wf(),
            old(self).is_session_active ==> *final(self) == (SessionState {
                live_message_id: Some(id),
                ..*old(self)
            }),
            !old(self).is_session_active ==> *final(self) == *old(self),
    {
        if self.is_session_active {
            self.live_message_id = Some(id);
        }
    }
}

/// The names of the users that count as present: active, and not the bot.
pub open spec fn present_names(users: Seq<User>) -> Set<Seq<char>> {
    Set::new(
        |n: Seq<char>|
            exists|i: int|
                0 <= i < users.len() && users[i].is_active && !users[i].is_self
                    && #[trigger] users[i].display_name@ == n,
    )
}

/// The names of the users that count as present, each once.
pub fn present_users(users: &Vec<User>) -> (r: Vec<String>)
    ensures
        texts(r@).no_duplicates(),
        texts(r@).to_set() =~= present_names(users@),
{
    broadcast use vstd::seq_lib::group_seq_properties;

    let mut out: Vec<String> = Vec::new();
    let mut i: usize = 0;
    while i < users.len()
        invariant
            i <= users.len(),
            texts(out@).no_duplicates(),
            texts(out@).to_set() =~= present_names(users@.subrange(0, i as int)),
        decreases users.len() - i,
    {
        let u = &users[i];
        let ghost before = texts(out@);
        if u.is_active && !u.is_self && !contains_text(&out, &u.display_name) {
            out.push(u.display_name.clone());
            assert(texts(out@) =~= before.push(u.display_name@));
            proof {
                before.lemma_push_to_set_commute(u.display_name@);
            }
        }
        proof {
            let pre = users@.subrange(0, i as int);
            let post = users@.subrange(0, i + 1);
            assert forall|n: Seq<char>| present_names(post).contains(n) <==> texts(out@).to_set().contains(n) by {
                if present_names(post).contains(n) {
                    let k = choose|k: int|
                        0 <= k < post.len() && post[k].is_active && !post[k].is_self
                            && #[trigger] post[k].display_name@ == n;
                    if k < i {
                        assert(pre[k] == post[k]);
                        assert(present_names(pre).contains(n));
                    }
                }
                if present_names(pre).contains(n) {
                    let k = choose|k: int|
                        0 <= k < pre.len() && pre[k].is_active && !pre[k].is_self
                            && #[trigger] pre[k].display_name@ == n;
                    assert(post[k] == pre[k]);
                    assert(present_names(post).contains(n));
                }
                if u.is_active && !u.is_self && n == u.display_name@ {
                    assert(post[i as int] == *u);
                    assert(present_names(post).contains(n));
                }
            }
        }
        i = i + 1;
    }
    assert(users@.subrange(0, users@.len() as int) =~= users@);
    out
}

/// Whether `cmd` posts the roster of `names` to the relay's room and awaits
/// the new message's identifier.
pub open spec fn is_roster_post(cmd: Command, r: AttendanceRelay, names: Seq<Seq<char>>) -> bool {
    match cmd {
        Command::SendRoomMessage { service_id, room_id, body, markdown_body, with_reply } => {
            &&& service_id@ == r.dest_service_id@
            &&& room_id@ == r.dest_room_id@
            &&& renders_roster(body@, r.session_start_message@, names)
            &&& markdown_body matches Some(md) && md@ == body@
            &&& with_reply
        },
        _ => false,
    }
}

/// Whether `cmd` replaces the roster message `id` by the roster of `names`.
pub open spec fn is_roster_edit(cmd: Command, r: AttendanceRelay, id: Seq<char>, names: Seq<Seq<char>>) -> bool {
    match cmd {
        Command::EditMessage { service_id, message_id, new_body, new_markdown_body } => {
            &&& service_id@ == r.dest_service_id@
            &&& message_id@ == id
            &&& renders_roster(new_body@, r.session_start_message@, names)
            &&& new_markdown_body matches Some(md) && md@ == new_body@
        },
        _ => false,
    }
}

/// Whether `cmd` replaces the roster message `id` by the closing text.
pub open spec fn is_closing_edit(cmd: Command, r: AttendanceRelay, id: Seq<char>) -> bool {
    match cmd {
        Command::EditMessage { service_id, message_id, new_body, new_markdown_body } => {
            &&& service_id@ == r.dest_service_id@
            &&& message_id@ == id
            &&& new_body@ == r.session_ended_edit_message@
            &&& new_markdown_body matches Some(md) && md@ == new_body@
        },
        _ => false,
    }
}

/// Whether `cmd` posts the summary of a session of `secs` seconds with
/// `names`, awaiting nothing.
pub open spec fn is_summary_post(cmd: Command, r: AttendanceRelay, secs: nat, names: Seq<Seq<char>>) -> bool {
    match cmd {
        Command::SendRoomMessage { service_id, room_id, body, markdown_body, with_reply } => {
            &&& service_id@ == r.dest_service_id@
            &&& room_id@ == r.dest_room_id@
            &&& renders_summary(body@, r.session_end_message@, secs, names)
            &&& markdown_body matches Some(md) && md@ == body@
            &&& !with_reply
        },
        _ => false,
    }
}

impl AttendanceRelay {
    pub fn new(config: AttendanceRelayConfig) -> (r: AttendanceRelay)
        ensures
            r.source_service_id == config.source_service_id,
            r.source_room_id == config.source_room_id,
            r.dest_service_id == config.dest_service_id,
            r.dest_room_id == config.dest_room_id,
            r.session_start_message == config.session_start_message,
            r.session_end_message == config.session_end_message,
            r.session_ended_edit_message == config.session_ended_edit_message,
    {
        AttendanceRelay {
            source_service_id: config.source_service_id,
            source_room_id: config.source_room_id,
            dest_service_id: config.dest_service_id,
            dest_room_id: config.dest_room_id,
            session_start_message: config.session_start_message,
            session_end_message: config.session_end_message,
            session_ended_edit_message: config.session_ended_edit_message,
        }
    }

    /// The names present on a user list of the source service; `None` for
    /// any other event, which the relay ignores.
    pub fn on_event(&self, e: &Event) -> (r: Option<Vec<String>>)
        ensures
            r is Some <==> (e.service_id@ == self.source_service_id@ && e.kind is UserListUpdate),
            r matches Some(v) ==> e.kind matches EventKind::UserListUpdate { users } && texts(
                v@,
            ).no_duplicates() && texts(v@).to_set() =~= present_names(users@),
    {
        if e.service_id.0 != self.source_service_id {
            return None;
        }
        match &e.kind {
            EventKind::UserListUpdate { users } => Some(present_users(users)),
            _ => None,
        }
    }

    /// How a user list with present names `current`, received at `now`,
    /// takes the session from `old` to `new`, and the commands it sends, in
    /// order.
    pub open spec fn transition(
        self,
        old: SessionState,
        current: Seq<String>,
        now: i64,
        new: SessionState,
        cmds: Seq<Command>,
    ) -> bool {
        &&& new.wf()
        &&& new.view() == session_step(old.view(), texts(current).to_set(), now)
        &&& (!old.is_session_active && current.len() == 0 ==> cmds.len() == 0)
        &&& (!old.is_session_active && current.len() > 0 ==> cmds.len() == 1 && is_roster_post(
            cmds[0],
            self,
            texts(current),
        ))
        &&& (old.is_session_active && current.len() > 0 ==> cmds.len() == 1 && match old.live_message_id {
            Some(id) => is_roster_edit(cmds[0], self, id@, texts(current)),
            None => is_roster_post(cmds[0], self, texts(current)),
        })
        &&& (old.is_session_active && current.len() == 0 ==> match old.live_message_id {
            Some(id) => cmds.len() == 2 && is_closing_edit(cmds[0], self, id@) && is_summary_post(
                cmds[1],
                self,
                elapsed(old.session_start_time, now),
                texts(old.all_participants@),
            ),
            None => cmds.len() == 1 && is_summary_post(
                cmds[0],
                self,
                elapsed(old.session_start_time, now),
                texts(old.all_participants@),
            ),
        })
    }

    fn roster_post(&self, names: &Vec<String>) -> (c: Command)
        ensures
            is_roster_post(c, *self, texts(names@)),
    {
        let body = format_live_message(self.session_start_message.as_str(), names);
        Command::SendRoomMessage {
            service_id: ServiceId(self.dest_service_id.clone()),
            room_id: self.dest_room_id.clone(),
            body: body.clone(),
            markdown_body: Some(body),
            with_reply: true,
        }
    }

    /// Moves the session on a user list whose present names are `current`,
    /// at the current time; see `handle_user_list_change`.
    pub fn handle_user_list_change_now(&self, state: &mut SessionState, current: Vec<String>) -> (r:
        Vec<Command>)
        requires
            old(state).wf(),
            texts(current@).no_duplicates(),
        ensures
            exists|now: i64| #[trigger] self.transition(*old(state), current@, now, *final(state), r@),
    {
        let now = crate::clock::unix_now();
        self.handle_user_list_change(state, current, now)
    }

    /// Moves the session on a user list whose present names are `current`,
    /// received at `now` (seconds since the Unix epoch), and returns the
    /// commands to send, in order. A roster post awaits the identifier of the
    /// new message, for `record_live_message`.
    pub fn handle_user_list_change(
        &self,
        state: &mut SessionState,
        current: Vec<String>,
        now: i64,
    ) -> (r: Vec<Command>)
        requires
            old(state).wf(),
            texts(current@).no_duplicates(),
        ensures
            self.transition(*old(state), current@, now, *final(state), r@),
    {
        broadcast use vstd::seq_lib::group_seq_properties;

        let was_active = state.is_session_active;
        let now_active = current.len() > 0;
        let mut commands: Vec<Command> = Vec::new();
        proof {
            if current@.len() > 0 {
                assert(texts(current@).to_set().contains(texts(current@)[0]));
            } else {
                assert(texts(current@).to_set() =~= Set::empty());
            }
        }
        if !was_active && !now_active {
            return commands;
        }
        if !was_active {
            commands.push(self.roster_post(&current));
            state.is_session_active = true;
            state.session_start_time = Some(now);
            state.all_participants = current.clone();
            state.active_participants = current;
            assert(state.view() == session_step(old(state).view(), texts(current@).to_set(), now));
            return commands;
        }
        if now_active {
            add_missing(&mut state.all_participants, &current);
            match &state.live_message_id {
                Some(id) => {
                    let body = format_live_message(self.session_start_message.as_str(), &current);
                    commands.push(
                        Command::EditMessage {
                            service_id: ServiceId(self.dest_service_id.clone()),
                            message_id: id.clone(),
                            new_body: body.clone(),
                            new_markdown_body: Some(body),
                        },
                    );
                },
                None => {
                    commands.push(self.roster_post(&current));
                },
            }
            state.active_participants = current;
            proof {
                let v = state.view();
                let w = session_step(old(state).view(), texts(current@).to_set(), now);
                assert(v.all_names =~= w.all_names);
                assert(v.active_names.subset_of(v.all_names));
            }
            return commands;
        }
        let secs: u64 = match state.session_start_time {
            Some(t) => if now > t {
                (now as i128 - t as i128) as u64
            } else {
                0
            },
            None => 0,
        };
        match &state.live_message_id {
            Some(id) => {
                let edit = self.session_ended_edit_message.clone();
                commands.push(
                    Command::EditMessage {
                        service_id: ServiceId(self.dest_service_id.clone()),
                        message_id: id.clone(),
                        new_body: edit.clone(),
                        new_markdown_body: Some(edit),
                    },
                );
            },
            None => {},
        }
        let summary = format_session_summary(
            self.session_end_message.as_str(),
            &state.all_participants,
            secs,
        );
        commands.push(
            Command::SendRoomMessage {
                service_id: ServiceId(self.dest_service_id.clone()),
                room_id: self.dest_room_id.clone(),
                body: summary.clone(),
                markdown_body: Some(summary),
                with_reply: false,
            },
        );
        state.is_session_active = false;
        state.active_participants = Vec::new();
        state.all_participants = Vec::new();
        state.session_start_time = None;
        state.live_message_id = None;
        proof {
            assert(texts(state.active_participants@).to_set() =~= Set::empty());
            assert(texts(state.all_participants@).to_set() =~= Set::empty());
        }
        commands
    }
}


/// At every step of a session, the active names are among all the names
/// seen, a roster message is only known while the session lasts, and the
/// session lasts exactly while someone is present.
pub proof fn lemma_session_invariants(v: SessionView, cur: Set<Seq<char>>, now: i64)
    requires
        view_wf(v),
    ensures
        view_wf(session_step(v, cur, now)),
        session_step(v, cur, now).active_names.subset_of(session_step(v, cur, now).all_names),
        session_step(v, cur, now).live is Some ==> session_step(v, cur, now).active,
{
}

/// Receiving the same user list again leaves the session state as the first
/// one left it.
pub proof fn lemma_repeated_update_idempotent(v: SessionView, cur: Set<Seq<char>>, t1: i64, t2: i64)
    ensures
        session_step(session_step(v, cur, t1), cur, t2) == session_step(v, cur, t1),
{
    let once = session_step(v, cur, t1);
    if once.active && cur != Set::<Seq<char>>::empty() {
        assert(once.all_names.union(cur) =~= once.all_names);
    }
}

} // verus!
