use network_route_visualizer::net::IpAddress;
use network_route_visualizer::config::{
    default_bandwidth_duration, default_bandwidth_port, default_bind_address,
    default_discovery_interval, default_log_level, default_multicast_group,
    default_multicast_port, default_peer_timeout, default_ping_interval, default_port,
    default_true, level_from_lowercase, parse_log_level, CliArgs, Config, ConfigError, ConfigFile,
    LogLevel,
};

fn cli(log_level: &str) -> CliArgs {
    CliArgs {
        port: 3000,
        no_browser: false,
        log_level: log_level.to_string(),
        config: None,
        discovery_interval: 31,
        peer_timeout: 91,
        ping_interval: 61,
        bandwidth_duration: 11,
        bandwidth_port: 9091,
        no_discovery: false,
        no_ping: false,
    }
}

#[test]
fn test_default_config() {
    let config = ConfigFile::default();
    assert_eq!(config.server.port, 8080);
    assert!(config.server.auto_open_browser);
    assert!(config.discovery.enabled);
}

#[test]
fn test_parse_log_level() {
    assert!(matches!(parse_log_level("info"), Ok(LogLevel::Info)));
    assert!(matches!(parse_log_level("debug"), Ok(LogLevel::Debug)));
    assert!(parse_log_level("invalid").is_err());
}

#[test]
fn parse_log_level_ignores_case() {
    assert!(matches!(parse_log_level("INFO"), Ok(LogLevel::Info)));
    assert!(matches!(parse_log_level("Warn"), Ok(LogLevel::Warn)));
    assert!(matches!(parse_log_level("eRRoR"), Ok(LogLevel::Error)));
    assert!(matches!(parse_log_level("TRACE"), Ok(LogLevel::Trace)));
}

#[test]
fn parse_log_level_reports_what_was_given() {
    match parse_log_level("Verbose") {
        Err(ConfigError::InvalidLogLevel(given)) => assert_eq!(given, "Verbose"),
        other => panic!("unexpected: {:?}", other),
    }
    let error = parse_log_level("").unwrap_err();
    assert_eq!(error.message(), "Invalid log level: ");
    let error = parse_log_level("loud").unwrap_err();
    assert_eq!(error.message(), "Invalid log level: loud");
}

#[test]
fn level_from_lowercase_is_exact() {
    assert_eq!(level_from_lowercase("error"), Some(LogLevel::Error));
    assert_eq!(level_from_lowercase("warn"), Some(LogLevel::Warn));
    assert_eq!(level_from_lowercase("info"), Some(LogLevel::Info));
    assert_eq!(level_from_lowercase("debug"), Some(LogLevel::Debug));
    assert_eq!(level_from_lowercase("trace"), Some(LogLevel::Trace));
    assert_eq!(level_from_lowercase("INFO"), None);
    assert_eq!(level_from_lowercase(" info"), None);
    assert_eq!(level_from_lowercase(""), None);
}

#[test]
fn defaults_have_their_documented_values() {
    assert_eq!(default_port(), 8080);
    assert!(default_true());
    assert_eq!(default_bind_address(), "127.0.0.1");
    assert_eq!(default_discovery_interval(), 30);
    assert_eq!(default_peer_timeout(), 90);
    assert_eq!(default_multicast_group(), "239.255.42.1");
    assert_eq!(default_multicast_port(), 5678);
    assert_eq!(default_ping_interval(), 60);
    assert_eq!(default_bandwidth_duration(), 10);
    assert_eq!(default_bandwidth_port(), 9090);
    assert_eq!(default_log_level(), "info");
}

#[test]
fn default_config_file_is_complete() {
    let config = ConfigFile::default();
    assert_eq!(config.server.bind_address, "127.0.0.1");
    assert_eq!(config.discovery.interval_seconds, 30);
    assert_eq!(config.discovery.timeout_seconds, 90);
    assert_eq!(config.discovery.multicast_group, "239.255.42.1");
    assert_eq!(config.discovery.multicast_port, 5678);
    assert!(config.testing.ping_enabled);
    assert_eq!(config.testing.ping_interval_seconds, 60);
    assert_eq!(config.testing.bandwidth_test_duration, 10);
    assert_eq!(config.testing.bandwidth_port, 9090);
    assert_eq!(config.logging.level, "info");
    assert_eq!(config.logging.file, None);
}

#[test]
fn merge_takes_numbers_from_the_command_line() {
    let mut file = ConfigFile::default();
    file.server.bind_address = "0.0.0.0".to_string();
    file.discovery.multicast_group = "239.1.2.3".to_string();
    file.discovery.multicast_port = 7000;
    let merged: Config = Config::merge(&cli("DEBUG"), file).unwrap();
    assert_eq!(merged.port, 3000);
    assert!(merged.auto_open_browser);
    assert_eq!(merged.bind_address, "0.0.0.0");
    assert_eq!(merged.log_level, LogLevel::Debug);
    assert!(merged.discovery_enabled);
    assert_eq!(merged.discovery_interval, 31);
    assert_eq!(merged.peer_timeout, 91);
    assert_eq!(merged.multicast_group, "239.1.2.3");
    assert_eq!(merged.multicast_port, 7000);
    assert!(merged.ping_enabled);
    assert_eq!(merged.ping_interval, 61);
    assert_eq!(merged.bandwidth_port, 9091);
}

#[test]
fn merge_switches_features_off_from_either_side() {
    let mut args = cli("info");
    args.no_browser = true;
    args.no_discovery = true;
    args.no_ping = true;
    let merged = Config::merge(&args, ConfigFile::default()).unwrap();
    assert!(!merged.auto_open_browser);
    assert!(!merged.discovery_enabled);
    assert!(!merged.ping_enabled);

    let mut file = ConfigFile::default();
    file.server.auto_open_browser = false;
    file.discovery.enabled = false;
    file.testing.ping_enabled = false;
    let merged = Config::merge(&cli("info"), file).unwrap();
    assert!(!merged.auto_open_browser);
    assert!(!merged.discovery_enabled);
    assert!(!merged.ping_enabled);
}

#[test]
fn merge_refuses_an_unknown_log_level() {
    match Config::merge(&cli("chatty"), ConfigFile::default()) {
        Err(ConfigError::InvalidLogLevel(given)) => assert_eq!(given, "chatty"),
        Ok(_) => panic!("an unknown level was accepted"),
    }
}

#[test]
fn an_unreadable_bind_address_falls_back_to_loopback() {
    let mut file = ConfigFile::default();
    let merged = Config::merge(&cli("info"), ConfigFile::default()).unwrap();
    assert_eq!(merged.bind_ip(), IpAddress::V4(0x7F00_0001));
    file.server.bind_address = "0.0.0.0".to_string();
    assert_eq!(Config::merge(&cli("info"), file).unwrap().bind_ip(), IpAddress::V4(0));
    let mut file = ConfigFile::default();
    file.server.bind_address = "::".to_string();
    assert_eq!(Config::merge(&cli("info"), file).unwrap().bind_ip(), IpAddress::V6(0));
    let mut file = ConfigFile::default();
    file.server.bind_address = "localhost".to_string();
    assert_eq!(Config::merge(&cli("info"), file).unwrap().bind_ip(), IpAddress::V4(0x7F00_0001));
}
