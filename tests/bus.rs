use kelvin_bot::bus::{Bus, ExitAction, Supervision};
use kelvin_bot::command::Command;
use kelvin_bot::config::{ExponentialBackoff, ReconnectionConfig};
use kelvin_bot::service::ServiceId;

fn sid(s: &str) -> ServiceId {
    ServiceId(s.to_string())
}

fn delay_of(a: ExitAction) -> u64 {
    match a {
        ExitAction::Restart { delay_ms } => delay_ms,
        ExitAction::Retire => panic!("expected a restart"),
    }
}

#[test]
fn supervised_reconnection() {
    // two quick failures, then a run of two seconds
    let mut s = Supervision::new(ReconnectionConfig::default(), 0);
    let d1 = delay_of(s.on_exit_with(50, false, 1000));
    assert_eq!(d1, 1000);
    assert_eq!(s.attempt_count, 1);
    assert!(s.on_backoff_elapsed(1050, false));
    let d2 = delay_of(s.on_exit_with(1100, false, 1000));
    assert_eq!(d2, 2000);
    assert_eq!(s.attempt_count, 2);
    assert!(s.on_backoff_elapsed(3100, false));
    let d3 = delay_of(s.on_exit_with(5100, false, 1000));
    assert_eq!(d3, 4000);
    assert_eq!(s.attempt_count, 3);
}

#[test]
fn restart_delays_with_random_jitter() {
    let mut s = Supervision::new(ReconnectionConfig::default(), 0);
    let d1 = delay_of(s.on_exit(50, false));
    assert!((900..=1100).contains(&d1), "{}", d1);
    s.on_backoff_elapsed(2000, false);
    let d2 = delay_of(s.on_exit(2050, false));
    assert!((1800..=2200).contains(&d2), "{}", d2);
}

#[test]
fn long_run_resets_attempts() {
    let mut s = Supervision::new(ReconnectionConfig::default(), 0);
    s.on_exit_with(10, false, 1000);
    s.on_backoff_elapsed(1010, false);
    s.on_exit_with(1020, false, 1000);
    s.on_backoff_elapsed(3020, false);
    assert_eq!(s.attempt_count, 2);
    let d = delay_of(s.on_exit_with(3020 + 30_001, false, 1000));
    assert_eq!(s.attempt_count, 1);
    assert_eq!(s.backoff.attempt, 1);
    assert_eq!(d, 1000);
}

#[test]
fn exactly_thirty_seconds_is_no_recovery() {
    let mut s = Supervision::new(ReconnectionConfig::default(), 0);
    s.on_exit_with(10, false, 1000);
    s.on_backoff_elapsed(1000, false);
    let d = delay_of(s.on_exit_with(31_000, false, 1000));
    assert_eq!(s.attempt_count, 2);
    assert_eq!(d, 2000);
}

#[test]
fn cancellation_during_backoff_keeps_count() {
    let mut s = Supervision::new(ReconnectionConfig::default(), 0);
    s.on_exit_with(10, false, 1000);
    let before = s;
    assert!(!s.on_backoff_elapsed(500, true));
    assert_eq!(s.attempt_count, before.attempt_count);
    assert_eq!(s.connection_start_ms, before.connection_start_ms);
    assert_eq!(s.on_exit_with(600, true, 1000), ExitAction::Retire);
    assert_eq!(s.attempt_count, 1);
}

#[test]
fn backoff_caps_and_jitters() {
    let cfg = ReconnectionConfig::default();
    let mut b = ExponentialBackoff::new(cfg);
    let mut delays = Vec::new();
    for _ in 0..8 {
        delays.push(b.next_delay_with(1000));
    }
    assert_eq!(delays, vec![1000, 2000, 4000, 8000, 16000, 32000, 60000, 60000]);
    assert_eq!(b.next_delay_with(1100), 66000);
    assert_eq!(b.next_delay_with(900), 54000);
    b.reset();
    assert_eq!(b.attempt, 0);
    assert_eq!(b.next_delay_with(1000), 1000);
    for _ in 0..50 {
        let d = b.next_delay();
        assert!(d <= 66000);
    }
}

#[test]
fn backoff_with_unit_multiplier_stays() {
    let cfg = ReconnectionConfig { initial_delay_ms: 500, max_delay_ms: 1000, multiplier_milli: 1000, jitter_milli: 0 };
    let mut b = ExponentialBackoff::new(cfg);
    b.attempt = 4_000_000_000;
    assert_eq!(b.next_delay(), 500);
}

fn bus() -> Bus {
    Bus::new(
        vec![sid("a"), sid("b")],
        vec![sid("a")],
        vec![vec![0, 1]],
        ReconnectionConfig::default(),
        0,
    )
}

#[test]
fn unknown_command_target() {
    let b = bus();
    let cmd = Command::SendRoomMessage {
        service_id: sid("ghost"),
        room_id: "r".to_string(),
        body: "x".to_string(),
        markdown_body: None,
        with_reply: false,
    };
    assert_eq!(b.route_command(&cmd), None);
    let cmd = Command::EditMessage {
        service_id: sid("b"),
        message_id: "m".to_string(),
        new_body: "y".to_string(),
        new_markdown_body: None,
    };
    assert_eq!(b.route_command(&cmd), Some(1));
}

#[test]
fn pipeline_lookup() {
    let b = bus();
    assert_eq!(b.pipeline_for(&sid("a")), Some(0));
    assert_eq!(b.pipeline_for(&sid("b")), None);
    assert_eq!(b.middlewares_to_start(), vec![0, 1]);
}

#[test]
fn bus_supervises_by_position() {
    let mut b = bus();
    let a = b.service_exited(1, 100, false);
    assert_eq!(a, ExitAction::Restart { delay_ms: match a { ExitAction::Restart { delay_ms } => delay_ms, _ => 0 } });
    assert_eq!(b.supervision[1].attempt_count, 1);
    assert_eq!(b.supervision[0].attempt_count, 0);
    assert!(b.backoff_elapsed(1, 2000, false));
    assert_eq!(b.supervision[1].connection_start_ms, 2000);
    assert_eq!(b.service_exited(0, 10, true), ExitAction::Retire);
    assert_eq!(b.supervision[0].attempt_count, 0);
}

#[test]
fn backoff_scales_exactly_before_rounding() {
    let cfg = ReconnectionConfig { initial_delay_ms: 1, max_delay_ms: 100, multiplier_milli: 1500, jitter_milli: 0 };
    let mut b = ExponentialBackoff::new(cfg);
    let delays: Vec<u64> = (0..6).map(|_| b.next_delay_with(1000)).collect();
    // 1, 1.5, 2.25, 3.375, 5.0625, 7.59375 rounded down
    assert_eq!(delays, vec![1, 1, 2, 3, 5, 7]);
}

#[test]
fn backoff_cap_applies_to_exact_base() {
    let cfg = ReconnectionConfig { initial_delay_ms: 1, max_delay_ms: 2, multiplier_milli: 1500, jitter_milli: 0 };
    let mut b = ExponentialBackoff::new(cfg);
    b.attempt = 2;
    assert_eq!(b.next_delay_with(1000), 2);
    b.attempt = 4_000_000_000;
    assert_eq!(b.next_delay_with(1000), 2);
}

#[test]
fn backoff_shrinking_multiplier() {
    let cfg = ReconnectionConfig { initial_delay_ms: 5000, max_delay_ms: 1000, multiplier_milli: 500, jitter_milli: 0 };
    let mut b = ExponentialBackoff::new(cfg);
    let delays: Vec<u64> = (0..5).map(|_| b.next_delay_with(1000)).collect();
    // 5000, 2500, 1250 stay at the cap; then 625, 312.5
    assert_eq!(delays, vec![1000, 1000, 1000, 625, 312]);
    b.attempt = 4_000_000_000;
    assert_eq!(b.next_delay_with(1000), 0);
}

#[test]
fn backoff_many_failures_reach_cap() {
    let cfg = ReconnectionConfig { initial_delay_ms: 1000, max_delay_ms: 60_000, multiplier_milli: 1100, jitter_milli: 0 };
    let mut b = ExponentialBackoff::new(cfg);
    b.attempt = 3_000_000_000;
    assert_eq!(b.next_delay_with(1000), 60_000);
    b.attempt = 10;
    // 1000 × 1.1^10 = 2593.74...
    assert_eq!(b.next_delay_with(1000), 2593);
}
