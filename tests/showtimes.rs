use kelvin_bot::movie_showtimes::{days_until_next_post, parse_runtime};

#[test]
fn runtime_hours_and_minutes() {
    assert_eq!(parse_runtime("PT01H45M").as_deref(), Some("1h 45m"));
    assert_eq!(parse_runtime("PT02H00M").as_deref(), Some("2h"));
    assert_eq!(parse_runtime("PT00H30M").as_deref(), Some("30m"));
    assert_eq!(parse_runtime("PT90M").as_deref(), Some("90m"));
    assert_eq!(parse_runtime("PT3H").as_deref(), Some("3h"));
    assert_eq!(parse_runtime("PT+1H").as_deref(), Some("1h"));
}

#[test]
fn runtime_rejects_unreadable_text() {
    assert_eq!(parse_runtime("PT00H00M"), None);
    assert_eq!(parse_runtime("02H00M"), None);
    assert_eq!(parse_runtime("PT"), None);
    assert_eq!(parse_runtime("PTxH"), None);
    assert_eq!(parse_runtime("PTH"), None);
    assert_eq!(parse_runtime("PT4294967296H"), None);
    assert_eq!(parse_runtime("PT5M3H"), None);
    assert_eq!(parse_runtime("PT4294967295H").as_deref(), Some("4294967295h"));
}

#[test]
fn next_post_day() {
    // Monday 10:00, post on Monday 18:00: later today
    assert_eq!(days_until_next_post(1, 36_000, 1, 64_800), 0);
    // Monday 19:00: next Monday
    assert_eq!(days_until_next_post(1, 68_400, 1, 64_800), 7);
    // Friday to Monday
    assert_eq!(days_until_next_post(5, 0, 1, 0), 3);
    // Monday to Friday
    assert_eq!(days_until_next_post(1, 0, 5, 0), 4);
}
