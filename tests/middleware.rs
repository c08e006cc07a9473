use kelvin_bot::chat_relay::{format_relayed_message, ChatRelay, ChatRelayConfig};
use kelvin_bot::command::Command;
use kelvin_bot::echo::Echo;
use kelvin_bot::event::{Event, EventKind, User};
use kelvin_bot::invite::Invite;
use kelvin_bot::logger::Logger;
use kelvin_bot::middleware::{
    build_middleware_pipeline, middlewares_to_start, Outcome, PipelinePass, Verdict,
};
use kelvin_bot::service::ServiceId;

fn dm(service: &str, user: &str, body: &str, local: bool, display: Option<&str>, is_self: bool) -> Event {
    Event {
        service_id: ServiceId(service.to_string()),
        kind: EventKind::DirectMessage {
            user_id: user.to_string(),
            body: body.to_string(),
            is_local_user: local,
            sender_id: user.to_string(),
            sender_display_name: display.map(|d| d.to_string()),
            is_self,
        },
    }
}

fn room(service: &str, room_id: &str, body: &str, sender: &str, display: Option<&str>, is_self: bool) -> Event {
    Event {
        service_id: ServiceId(service.to_string()),
        kind: EventKind::RoomMessage {
            room_id: room_id.to_string(),
            body: body.to_string(),
            is_local_user: is_self,
            sender_id: sender.to_string(),
            sender_display_name: display.map(|d| d.to_string()),
            is_self,
        },
    }
}

fn relay(source: &str, source_room: Option<&str>, dest: &str, dest_room: &str, tag: &str) -> ChatRelay {
    ChatRelay::new(ChatRelayConfig {
        source_service_id: source.to_string(),
        source_room_id: source_room.map(|r| r.to_string()),
        dest_service_id: dest.to_string(),
        dest_room_id: dest_room.to_string(),
        prefix_tag: tag.to_string(),
    })
}

/// Walks one event through a pipeline whose middlewares would answer with
/// `outcomes`, and returns the positions that inspected it.
fn walk(outcomes: &[Outcome]) -> Vec<usize> {
    let mut pass = PipelinePass::new(outcomes.len());
    let mut seen = Vec::new();
    while let Some(i) = pass.next_middleware() {
        seen.push(i);
        pass.record(outcomes[i]);
    }
    seen
}

#[test]
fn test_verdict_copy_trait() {
    let verdict1 = Verdict::Continue;
    let verdict2 = verdict1;
    assert!(matches!(verdict1, Verdict::Continue));
    assert!(matches!(verdict2, Verdict::Continue));
}

#[test]
fn test_logger_middleware_on_event() {
    let logger = Logger {};
    let event = dm("test", "@user:example.com", "Test message", false, Some("Test User"), false);
    let result = logger.on_event(&event);
    assert!(matches!(result, Verdict::Continue));
}

#[test]
fn logger_labels_mark_the_bot() {
    let users = vec![
        User {
            id: "1".to_string(),
            username: "alice".to_string(),
            display_name: "Alice".to_string(),
            is_active: true,
            is_self: false,
        },
        User {
            id: "2".to_string(),
            username: "kelvin".to_string(),
            display_name: "Kelvin".to_string(),
            is_active: true,
            is_self: true,
        },
    ];
    assert_eq!(Logger::user_labels(&users), vec!["alice".to_string(), "kelvin (self)".to_string()]);
}

#[test]
fn test_build_middleware_pipeline() {
    let defined = vec!["echo1".to_string(), "logger1".to_string()];
    let middleware_names = vec!["echo1".to_string(), "logger1".to_string()];
    let result = build_middleware_pipeline(&middleware_names, &defined);
    assert!(result.is_ok());
    let pipeline = result.unwrap();
    assert_eq!(pipeline.len(), 2);
    assert_eq!(pipeline, vec![0, 1]);
}

#[test]
fn test_build_middleware_pipeline_missing_middleware() {
    let defined: Vec<String> = vec![];
    let middleware_names = vec!["nonexistent".to_string()];
    let result = build_middleware_pipeline(&middleware_names, &defined);
    assert!(result.is_err());
    let err_msg = result.err().unwrap().message();
    assert!(err_msg.contains("nonexistent"));
    assert_eq!(err_msg, "middleware 'nonexistent' referenced but not defined in config");
}

#[test]
fn test_build_middleware_pipeline_empty() {
    let defined: Vec<String> = vec![];
    let middleware_names: Vec<String> = vec![];
    let result = build_middleware_pipeline(&middleware_names, &defined);
    assert!(result.is_ok());
    assert_eq!(result.unwrap().len(), 0);
}

#[test]
fn pipeline_lists_the_same_middleware_twice() {
    let defined = vec!["a".to_string(), "b".to_string()];
    let names = vec!["b".to_string(), "a".to_string(), "b".to_string()];
    assert_eq!(build_middleware_pipeline(&names, &defined).unwrap(), vec![1, 0, 1]);
}

#[test]
fn test_middleware_pipeline_order_and_stopping() {
    // first continues, second stops, third would continue: three events
    let outcomes = [
        Outcome::Decided(Verdict::Continue),
        Outcome::Decided(Verdict::Stop),
        Outcome::Decided(Verdict::Continue),
    ];
    let mut calls = Vec::new();
    for _ in 0..3 {
        calls.extend(walk(&outcomes));
    }
    assert_eq!(calls.len(), 6);
    assert_eq!(calls, vec![0, 1, 0, 1, 0, 1]);
    assert!(!calls.contains(&2));
}

#[test]
fn empty_pipeline_drops_event() {
    assert!(walk(&[]).is_empty());
}

#[test]
fn stop_only_pipeline_shields_downstream() {
    let outcomes = [Outcome::Decided(Verdict::Stop); 4];
    assert_eq!(walk(&outcomes), vec![0]);
}

#[test]
fn failed_middleware_is_no_stop() {
    let outcomes = [Outcome::Failed, Outcome::Decided(Verdict::Continue), Outcome::Failed];
    assert_eq!(walk(&outcomes), vec![0, 1, 2]);
}

#[test]
fn shared_middleware_started_once() {
    let pipelines = vec![vec![0, 2], vec![2, 1, 0], vec![], vec![1]];
    assert_eq!(middlewares_to_start(&pipelines), vec![0, 2, 1]);
}

#[test]
fn test_echo_middleware_with_custom_command() {
    let echo = Echo::new("!test".to_string());
    let event = dm("test", "@user:example.com", "!test hello world", false, Some("Test User"), false);
    match echo.on_event(&event) {
        Some(Command::SendDirectMessage { service_id, user_id, body, with_reply }) => {
            assert_eq!(service_id.0, "test");
            assert_eq!(user_id, "@user:example.com");
            assert_eq!(body, "hello world");
            assert!(with_reply);
        }
        _ => panic!("Expected SendDirectMessage command"),
    }
}

#[test]
fn test_echo_middleware_ignores_wrong_command() {
    let echo = Echo::new("!echo".to_string());
    let event = dm("test", "@user:example.com", "!different command", false, Some("Test User"), false);
    assert!(echo.on_event(&event).is_none());
}

#[test]
fn echo_answers_in_the_room() {
    let echo = Echo::new("!echo".to_string());
    let event = room("svc", "!r:x", "!echo  two spaces", "bob", None, false);
    match echo.on_event(&event) {
        Some(Command::SendRoomMessage { service_id, room_id, body, markdown_body, with_reply }) => {
            assert_eq!(service_id.0, "svc");
            assert_eq!(room_id, "!r:x");
            assert_eq!(body, " two spaces");
            assert!(markdown_body.is_none());
            assert!(with_reply);
        }
        _ => panic!("Expected SendRoomMessage command"),
    }
    // the command alone, without the space, is no echo request
    assert!(echo.on_event(&room("svc", "!r:x", "!echo", "bob", None, false)).is_none());
}

#[test]
fn test_invite_middleware_accepts_local_user() {
    let invite = Invite::new("!invite".to_string(), Some(1), Some(604800));
    let event = dm("test", "@user:example.com", "!invite", true, Some("Test User"), false);
    match invite.on_event(&event) {
        Some(Command::GenerateInviteToken { service_id, user_id, uses_allowed, expiry_secs }) => {
            assert_eq!(service_id.0, "test");
            assert_eq!(user_id, "@user:example.com");
            assert_eq!(uses_allowed, Some(1));
            assert_eq!(expiry_secs, Some(604800));
        }
        _ => panic!("Expected GenerateInviteToken command"),
    }
}

#[test]
fn test_invite_middleware_rejects_non_local_user() {
    let invite = Invite::new("!invite".to_string(), Some(1), Some(604800));
    let event = dm("test", "@user:different.com", "!invite", false, Some("Different User"), false);
    match invite.on_event(&event) {
        Some(Command::SendDirectMessage { user_id, body, with_reply, .. }) => {
            assert_eq!(user_id, "@user:different.com");
            assert!(body.contains("only be generated for users from this server"));
            assert!(!with_reply);
        }
        _ => panic!("Expected SendDirectMessage command for rejection"),
    }
}

#[test]
fn test_invite_middleware_ignores_wrong_command() {
    let invite = Invite::new("!invite".to_string(), Some(1), Some(604800));
    let event = dm("test", "@user:example.com", "!different", true, Some("Test User"), false);
    assert!(invite.on_event(&event).is_none());
}

#[test]
fn test_invite_middleware_ignores_room_messages() {
    let invite = Invite::new("!invite".to_string(), Some(1), Some(604800));
    let event = room("test", "!room:example.com", "!invite", "@user:example.com", Some("Test User"), false);
    assert!(invite.on_event(&event).is_none());
}

#[test]
fn test_invite_middleware_with_default_config() {
    let invite = Invite::new("!invite".to_string(), None, None);
    let event = dm("test", "@user:example.com", "!invite", true, Some("Test User"), false);
    match invite.on_event(&event) {
        Some(Command::GenerateInviteToken { uses_allowed, expiry_secs, .. }) => {
            assert_eq!(uses_allowed, None);
            assert_eq!(expiry_secs, None);
        }
        _ => panic!("Expected GenerateInviteToken command"),
    }
    assert_eq!(invite.uses(), 1);
    assert_eq!(invite.expiry(), 604800);
}

#[test]
fn test_invite_middleware_with_custom_expiry() {
    let invite = Invite::new("!invite".to_string(), Some(5), Some(3600));
    let event = dm("test", "@user:example.com", "!invite", true, Some("Test User"), false);
    match invite.on_event(&event) {
        Some(Command::GenerateInviteToken { uses_allowed, expiry_secs, .. }) => {
            assert_eq!(uses_allowed, Some(5));
            assert_eq!(expiry_secs, Some(3600));
        }
        _ => panic!("Expected GenerateInviteToken command"),
    }
}

#[test]
fn invite_command_is_trimmed() {
    let invite = Invite::new("!invite".to_string(), None, None);
    let event = dm("test", "@u:x", " \t!invite\n", true, None, false);
    assert!(matches!(invite.on_event(&event), Some(Command::GenerateInviteToken { .. })));
}

#[test]
fn invite_reply_texts() {
    let invite = Invite::new("!invite".to_string(), Some(3), None);
    let sid = ServiceId("m".to_string());
    let user = "@u:x".to_string();
    match invite.token_reply(&sid, &user, &Ok("tok".to_string()), "2030-01-01 00:00:00 UTC") {
        Command::SendDirectMessage { service_id, user_id, body, with_reply } => {
            assert_eq!(service_id.0, "m");
            assert_eq!(user_id, "@u:x");
            assert!(!with_reply);
            assert_eq!(
                body,
                "Registration token generated: tok\n\nUses allowed: 3\nExpires: 2030-01-01 00:00:00 UTC\n\nUse this token when registering a new account on this server."
            );
        }
        _ => panic!("Expected SendDirectMessage command"),
    }
    match invite.token_reply(&sid, &user, &Err("forbidden".to_string()), "x") {
        Command::SendDirectMessage { body, .. } => assert_eq!(
            body,
            "Failed to generate registration token. The bot may not have admin permissions. Error: forbidden"
        ),
        _ => panic!("Expected SendDirectMessage command"),
    }
}

#[test]
fn invite_reply_renders_expiry_from_clock() {
    let invite = Invite::new("!invite".to_string(), None, Some(0));
    let sid = ServiceId("m".to_string());
    match invite.on_token_result(&sid, &"@u:x".to_string(), &Ok("tok".to_string())) {
        Command::SendDirectMessage { body, .. } => {
            assert!(body.contains("Uses allowed: 1\nExpires: 20"));
            assert!(body.contains(" UTC\n\n"));
            assert!(!body.contains("1970-01-01"));
        }
        _ => panic!("Expected SendDirectMessage command"),
    }
}

#[test]
fn test_chat_relay_forwards_message_with_correct_format() {
    let chat_relay = relay("mumble", None, "matrix", "!voice:matrix.org", "Mumble");
    let event = room("mumble", "general", "Hello everyone!", "alice", Some("Alice"), false);
    match chat_relay.on_event(&event) {
        Some(Command::SendRoomMessage { service_id, room_id, body, markdown_body, with_reply }) => {
            assert_eq!(service_id.0, "matrix");
            assert_eq!(room_id, "!voice:matrix.org");
            assert_eq!(body, "[Mumble] Alice: Hello everyone!");
            assert_eq!(markdown_body, Some("[Mumble] Alice: Hello everyone!".to_string()));
            assert!(!with_reply);
        }
        _ => panic!("Expected SendRoomMessage command"),
    }
}

#[test]
fn test_chat_relay_filters_bot_messages() {
    let chat_relay = relay("mumble", None, "matrix", "!voice:matrix.org", "Mumble");
    let event = room("mumble", "general", "I am the bot", "kelvin_bot", Some("KelvinBot"), true);
    assert!(chat_relay.on_event(&event).is_none());
}

#[test]
fn test_chat_relay_ignores_wrong_service() {
    let chat_relay = relay("mumble", None, "matrix", "!voice:matrix.org", "Mumble");
    let event = room("different_service", "general", "Hello!", "alice", Some("Alice"), false);
    assert!(chat_relay.on_event(&event).is_none());
}

#[test]
fn test_chat_relay_filters_by_source_room() {
    let chat_relay = relay(
        "matrix",
        Some("!general:matrix.org"),
        "matrix",
        "!announcements:matrix.org",
        "General",
    );
    let event_correct_room = room(
        "matrix",
        "!general:matrix.org",
        "Important message",
        "@alice:matrix.org",
        Some("Alice"),
        false,
    );
    match chat_relay.on_event(&event_correct_room) {
        Some(Command::SendRoomMessage { body, .. }) => {
            assert_eq!(body, "[General] Alice: Important message");
        }
        _ => panic!("Expected SendRoomMessage command"),
    }
    let event_wrong_room = room(
        "matrix",
        "!offtopic:matrix.org",
        "Random message",
        "@bob:matrix.org",
        Some("Bob"),
        false,
    );
    assert!(chat_relay.on_event(&event_wrong_room).is_none());
}

#[test]
fn test_chat_relay_ignores_direct_messages() {
    let chat_relay = relay("mumble", None, "matrix", "!voice:matrix.org", "Mumble");
    let event = dm("mumble", "alice", "Private message", false, Some("Alice"), false);
    assert!(chat_relay.on_event(&event).is_none());
}

#[test]
fn test_chat_relay_handles_missing_display_name() {
    let chat_relay = relay("mumble", None, "matrix", "!voice:matrix.org", "Mumble");
    let event = room("mumble", "general", "Test message", "user123", None, false);
    match chat_relay.on_event(&event) {
        Some(Command::SendRoomMessage { body, .. }) => {
            assert_eq!(body, "[Mumble] user123: Test message");
        }
        _ => panic!("Expected SendRoomMessage command"),
    }
}

#[test]
fn relayed_message_format() {
    assert_eq!(format_relayed_message("T", "id", Some("Name"), "x"), "[T] Name: x");
    assert_eq!(format_relayed_message("T", "id", None, ""), "[T] id: ");
}
