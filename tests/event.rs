use kelvin_bot::event::{Event, EventKind, User};
use kelvin_bot::service::ServiceId;

#[test]
fn test_event_display_direct_message() {
    let event = Event {
        service_id: ServiceId("test_service".to_string()),
        kind: EventKind::DirectMessage {
            user_id: "@user:example.com".to_string(),
            body: "Hello world".to_string(),
            is_local_user: false,
            sender_id: "@user:example.com".to_string(),
            sender_display_name: None,
            is_self: false,
        },
    };

    let display = event.to_string();
    assert!(display.contains("[test_service]"));
    assert!(display.contains("[DM]"));
    assert!(display.contains("@user:example.com"));
    assert!(display.contains("Hello world"));
}

#[test]
fn test_event_display_room_message() {
    let event = Event {
        service_id: ServiceId("matrix_service".to_string()),
        kind: EventKind::RoomMessage {
            room_id: "!room123:example.com".to_string(),
            body: "Test message".to_string(),
            is_local_user: false,
            sender_id: "@user:example.com".to_string(),
            sender_display_name: None,
            is_self: false,
        },
    };

    let display = event.to_string();
    assert!(display.contains("[matrix_service]"));
    assert!(display.contains("[RM]"));
    assert!(display.contains("!room123:example.com"));
    assert!(display.contains("Test message"));
}

#[test]
fn event_display_exact_texts() {
    let sid = || ServiceId("svc".to_string());
    let dm = Event {
        service_id: sid(),
        kind: EventKind::DirectMessage {
            user_id: "u".to_string(),
            body: "hi".to_string(),
            is_local_user: true,
            sender_id: "u".to_string(),
            sender_display_name: None,
            is_self: false,
        },
    };
    assert_eq!(dm.to_string(), "[svc][DM] u: hi");
    let users = Event {
        service_id: sid(),
        kind: EventKind::UserListUpdate {
            users: vec![User {
                id: "1".to_string(),
                username: "a".to_string(),
                display_name: "A".to_string(),
                is_active: true,
                is_self: false,
            }; 12],
        },
    };
    assert_eq!(users.to_string(), "[svc][UserList] 12 users");
    let down = Event {
        service_id: sid(),
        kind: EventKind::ServiceDisconnected { reason: "eof".to_string(), attempt: 3 },
    };
    assert_eq!(down.to_string(), "[svc][Disconnected] attempt 3: eof");
    let wait = Event {
        service_id: sid(),
        kind: EventKind::ServiceReconnecting { attempt: 2, delay_secs: 40 },
    };
    assert_eq!(wait.to_string(), "[svc][Reconnecting] attempt 2 after 40s");
    let back = Event {
        service_id: sid(),
        kind: EventKind::ServiceReconnected { downtime_secs: 105, total_attempts: 0 },
    };
    assert_eq!(back.to_string(), "[svc][Reconnected] after 105s downtime (0 attempts)");
}
