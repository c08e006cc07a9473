use kelvin_bot::config::{
    default_data_directory, default_initial_delay, default_jitter_factor, default_max_delay,
    default_multiplier, parse_middleware_list, ReconnectionConfig,
};

#[test]
fn test_config_default_data_directory() {
    assert_eq!(default_data_directory(), "./data");
}

#[test]
fn reconnection_defaults() {
    let c = ReconnectionConfig::default();
    assert_eq!(c.initial_delay_ms, default_initial_delay());
    assert_eq!(c.initial_delay_ms, 1000);
    assert_eq!(c.max_delay_ms, default_max_delay());
    assert_eq!(c.max_delay_ms, 60_000);
    assert_eq!(c.multiplier_milli, default_multiplier());
    assert_eq!(c.jitter_milli, default_jitter_factor());
}

#[test]
fn middleware_list_from_csv() {
    assert_eq!(parse_middleware_list("testecho,testlogger"), vec!["testecho", "testlogger"]);
    assert_eq!(parse_middleware_list(" a , ,b,, c "), vec!["a", "b", "c"]);
    assert!(parse_middleware_list("").is_empty());
    assert!(parse_middleware_list(" , ").is_empty());
    assert_eq!(parse_middleware_list("echo1"), vec!["echo1"]);
}
