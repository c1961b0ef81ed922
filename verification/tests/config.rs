use beemon::aggregator_config::Config as AggregatorConfig;
use beemon::config::Config;
use beemon::http_config::Config as HttpConfig;

fn vars<'a>(pairs: &'a [(&'a str, &'a str)]) -> impl Fn(&str) -> Option<String> + 'a {
    move |name: &str| pairs.iter().find(|(k, _)| *k == name).map(|(_, v)| v.to_string())
}

#[test]
fn test_default_config() {
    let cfg = HttpConfig::default();
    assert_eq!(cfg.http_port, 5055);
    assert_eq!(cfg.rates_poll_millis, 2000);
    assert_eq!(cfg.event_limit, 5000);
    assert_eq!(cfg.log_directive, "info");
    assert_eq!(cfg.scanner_period_secs, 1);
}

#[test]
fn config_test_default_config() {
    let cfg = Config::default();
    assert_eq!(cfg.grpc_addr, "0.0.0.0");
    assert_eq!(cfg.grpc_port, 50051);
    assert_eq!(cfg.rates_poll_millis, 1000);
    assert_eq!(cfg.event_limit, 150);
    assert_eq!(cfg.log_directive, "warn");
}

#[test]
fn test_bind_addr() {
    let cfg = Config::default();
    assert_eq!(cfg.bind_addr(), "0.0.0.0:50051");
}

#[test]
fn test_config_from_env() {
    let env = [
        ("BEEMON_WEBUI_PORT", "9000"),
        ("BEEMON_LOG_LEVEL", "debug"),
        ("BEEMON_EVENT_LIMIT", "200"),
        ("BEEMON_RATES_POLL_MILLIS", "500"),
        ("BEEMON_SCANNER_PERIOD_SECS", "5"),
    ];
    let cfg = HttpConfig::from_vars(&vars(&env));
    assert_eq!(cfg.http_port, 9000);
    assert_eq!(cfg.log_directive, "debug");
    assert_eq!(cfg.event_limit, 200);
    assert_eq!(cfg.rates_poll_millis, 500);
    assert_eq!(cfg.scanner_period_secs, 5);
}

#[test]
fn test_from_env_all_vars() {
    let env = [
        ("BEEMON_GRPC_ADDR", "127.0.0.1"),
        ("BEEMON_GRPC_PORT", "9000"),
        ("BEEMON_RATES_POLL_MILLIS", "10"),
        ("BEEMON_EVENT_LIMIT", "200"),
        ("BEEMON_LOG_LEVEL", "debug"),
    ];
    let cfg = Config::from_vars(&vars(&env));
    assert_eq!(cfg.grpc_addr, "127.0.0.1");
    assert_eq!(cfg.grpc_port, 9000);
    assert_eq!(cfg.rates_poll_millis, 10);
    assert_eq!(cfg.event_limit, 200);
    assert_eq!(cfg.log_directive, "debug");
}

#[test]
fn test_from_env_partial() {
    let env = [("BEEMON_GRPC_PORT", "8080"), ("BEEMON_LOG_LEVEL", "warn")];
    let cfg = Config::from_vars(&vars(&env));
    assert_eq!(cfg.grpc_addr, "0.0.0.0");
    assert_eq!(cfg.grpc_port, 8080);
    assert_eq!(cfg.rates_poll_millis, 1000);
    assert_eq!(cfg.event_limit, 150);
    assert_eq!(cfg.log_directive, "warn");
}

#[test]
fn test_from_env_invalid_values() {
    let env = [("BEEMON_GRPC_PORT", "not_a_number"), ("BEEMON_RATES_POLL_MILLIS", "invalid")];
    let cfg = Config::from_vars(&vars(&env));
    assert_eq!(cfg.grpc_port, 50051);
    assert_eq!(cfg.rates_poll_millis, 1000);
}

#[test]
fn config_floors_and_empty_level() {
    let env = [("BEEMON_RATES_POLL_MILLIS", "3"), ("BEEMON_LOG_LEVEL", ""), ("BEEMON_GRPC_PORT", "70000")];
    let cfg = Config::from_vars(&vars(&env));
    assert_eq!(cfg.rates_poll_millis, 10);
    assert_eq!(cfg.log_directive, "warn");
    assert_eq!(cfg.grpc_port, 50051);
    let env = [("BEEMON_SCANNER_PERIOD_SECS", "0"), ("BEEMON_RATES_POLL_MILLIS", "+40")];
    let cfg = HttpConfig::from_vars(&vars(&env));
    assert_eq!(cfg.scanner_period_secs, 1);
    assert_eq!(cfg.rates_poll_millis, 40);
}

#[test]
fn web_log_filter_defaults_to_warn_when_unset_or_empty() {
    let cfg = HttpConfig::from_vars(&vars(&[]));
    assert_eq!(cfg.log_directive, "warn");
    assert_eq!(cfg.http_port, 5055);
    assert_eq!(cfg.event_limit, 5000);
    assert_eq!(cfg.rates_poll_millis, 2000);
    assert_eq!(cfg.scanner_period_secs, 1);
    let cfg = HttpConfig::from_vars(&vars(&[("BEEMON_LOG_LEVEL", "")]));
    assert_eq!(cfg.log_directive, "warn");
}

#[test]
fn aggregator_config_defaults_and_overrides() {
    let cfg = AggregatorConfig::from_vars(&vars(&[]));
    assert_eq!(cfg.grpc_endpoint, "127.0.0.1:50051");
    assert_eq!(cfg.http_port, 8080);
    let env = [("BEEMON_GRPC_ENDPOINT", "10.0.0.2:7000"), ("BEEMON_HTTP_PORT", "x")];
    let cfg = AggregatorConfig::from_vars(&vars(&env));
    assert_eq!(cfg.grpc_endpoint, "10.0.0.2:7000");
    assert_eq!(cfg.http_port, 8080);
}
