//! Settings: their defaults, and how the command line and the settings
//! file are merged into what the process runs with.

use crate::net::{ip_of, parse_ip, IpAddress};
use crate::text::chars_of;
use vstd::prelude::*;

verus! {

/// How much is logged.
#[derive(Debug, Clone, Copy, PartialEq, Eq, Structural)]
pub enum LogLevel {
    Error,
    Warn,
    Info,
    Debug,
    Trace,
}

/// Why settings were refused.
#[derive(Debug)]
pub enum ConfigError {
    /// The log level is none of `error`, `warn`, `info`, `debug`, `trace`.
    /// Holds the text that was given.
    InvalidLogLevel(String),
}

impl ConfigError {
    /// The error in words.
    pub fn message(&self) -> (text: String)
        ensures
            match self {
                ConfigError::InvalidLogLevel(given) => text@ == "Invalid log level: "@ + given@,
            },
    {
        match self {
            ConfigError::InvalidLogLevel(given) => {
                let text = "Invalid log level: ".to_owned();
                text.concat(given.as_str())
            },
        }
    }
}

/// The lower-case form of a text.
pub uninterp spec fn lowercase_of(text: Seq<char>) -> Seq<char>;

/// Lower-cases a text with `str::to_lowercase`.
///
/// Trusted: that the outcome is a function of the text alone, by the name
/// [`lowercase_of`].
#[verifier::external_body]
fn to_lowercase(text: &str) -> (lower: String)
    ensures
        lower@ == lowercase_of(text@),
{
    text.to_lowercase()
}

/// The level that a lower-case name stands for, if it is the name of one.
pub open spec fn level_named(name: Seq<char>) -> Option<LogLevel> {
    if name == "error"@ {
        Some(LogLevel::Error)
    } else if name == "warn"@ {
        Some(LogLevel::Warn)
    } else if name == "info"@ {
        Some(LogLevel::Info)
    } else if name == "debug"@ {
        Some(LogLevel::Debug)
    } else if name == "trace"@ {
        Some(LogLevel::Trace)
    } else {
        None
    }
}

/// The level that a lower-case name stands for.
pub fn level_from_lowercase(name: &str) -> (level: Option<LogLevel>)
    ensures
        level == level_named(name@),
{
    let name = name.to_owned();
    if name == "error".to_owned() {
        Some(LogLevel::Error)
    } else if name == "warn".to_owned() {
        Some(LogLevel::Warn)
    } else if name == "info".to_owned() {
        Some(LogLevel::Info)
    } else if name == "debug".to_owned() {
        Some(LogLevel::Debug)
    } else if name == "trace".to_owned() {
        Some(LogLevel::Trace)
    } else {
        None
    }
}

/// The level that a name stands for, whatever its case; an error that holds
/// the name if it stands for none.
pub fn parse_log_level(level_str: &str) -> (parsed: Result<LogLevel, ConfigError>)
    ensures
        match level_named(lowercase_of(level_str@)) {
            Some(level) => parsed == Ok::<LogLevel, ConfigError>(level),
            None => parsed is Err && parsed->Err_0 is InvalidLogLevel
                && parsed->Err_0->InvalidLogLevel_0@ == level_str@,
        },
{
    let lower = to_lowercase(level_str);
    match level_from_lowercase(lower.as_str()) {
        Some(level) => Ok(level),
        None => Err(ConfigError::InvalidLogLevel(level_str.to_owned())),
    }
}

/// The port the web server listens on unless told otherwise.
pub fn default_port() -> (port: u16)
    ensures
        port == 8080,
{
    8080
}

/// The value of a switch that is on unless told otherwise.
pub fn default_true() -> (on: bool)
    ensures
        on,
{
    true
}

/// The address the web server binds to unless told otherwise.
pub fn default_bind_address() -> (address: String)
    ensures
        address@ == "127.0.0.1"@,
{
    "127.0.0.1".to_owned()
}

/// Seconds between two announcements unless told otherwise.
pub fn default_discovery_interval() -> (seconds: u64)
    ensures
        seconds == 30,
{
    30
}

/// Seconds after which a silent peer is dropped unless told otherwise.
pub fn default_peer_timeout() -> (seconds: u64)
    ensures
        seconds == 90,
{
    90
}

/// The multicast group of the discovery protocol unless told otherwise.
pub fn default_multicast_group() -> (group: String)
    ensures
        group@ == "239.255.42.1"@,
{
    "239.255.42.1".to_owned()
}

/// The port of the discovery protocol unless told otherwise.
pub fn default_multicast_port() -> (port: u16)
    ensures
        port == 5678,
{
    5678
}

/// Seconds between two rounds of probes unless told otherwise.
pub fn default_ping_interval() -> (seconds: u64)
    ensures
        seconds == 60,
{
    60
}

/// Seconds that a bandwidth test runs unless told otherwise.
pub fn default_bandwidth_duration() -> (seconds: u64)
    ensures
        seconds == 10,
{
    10
}

/// The port of the bandwidth test unless told otherwise.
pub fn default_bandwidth_port() -> (port: u16)
    ensures
        port == 9090,
{
    9090
}

/// The log level unless told otherwise.
pub fn default_log_level() -> (level: String)
    ensures
        level@ == "info"@,
{
    "info".to_owned()
}

/// What the command line gives.
#[derive(Debug)]
pub struct CliArgs {
    /// Web server port.
    pub port: u16,
    /// Do not open a browser.
    pub no_browser: bool,
    /// Log level by name.
    pub log_level: String,
    /// Path of the settings file.
    pub config: Option<String>,
    /// Seconds between two announcements.
    pub discovery_interval: u64,
    /// Seconds after which a silent peer is dropped.
    pub peer_timeout: u64,
    /// Seconds between two rounds of probes.
    pub ping_interval: u64,
    /// Seconds that a bandwidth test runs.
    pub bandwidth_duration: u64,
    /// Port of the bandwidth test.
    pub bandwidth_port: u16,
    /// Do not discover nodes.
    pub no_discovery: bool,
    /// Do not probe peers.
    pub no_ping: bool,
}

/// The web server's part of the settings file.
#[derive(Debug)]
pub struct ServerConfig {
    pub port: u16,
    pub auto_open_browser: bool,
    pub bind_address: String,
}

/// The discovery part of the settings file.
#[derive(Debug)]
pub struct DiscoveryConfig {
    pub enabled: bool,
    pub interval_seconds: u64,
    pub timeout_seconds: u64,
    pub multicast_group: String,
    pub multicast_port: u16,
}

/// The measurement part of the settings file.
#[derive(Debug)]
pub struct TestingConfig {
    pub ping_enabled: bool,
    pub ping_interval_seconds: u64,
    pub bandwidth_test_duration: u64,
    pub bandwidth_port: u16,
}

/// The logging part of the settings file.
#[derive(Debug)]
pub struct LoggingConfig {
    pub level: String,
    /// Path of the log file, if logging goes to one.
    pub file: Option<String>,
}

/// The settings file.
#[derive(Debug)]
pub struct ConfigFile {
    pub server: ServerConfig,
    pub discovery: DiscoveryConfig,
    pub testing: TestingConfig,
    pub logging: LoggingConfig,
}

impl Default for ServerConfig {
    fn default() -> (config: Self)
        ensures
            config.port == 8080,
            config.auto_open_browser,
            config.bind_address@ == "127.0.0.1"@,
    {
        ServerConfig {
            port: default_port(),
            auto_open_browser: default_true(),
            bind_address: default_bind_address(),
        }
    }
}

impl Default for DiscoveryConfig {
    fn default() -> (config: Self)
        ensures
            config.enabled,
            config.interval_seconds == 30,
            config.timeout_seconds == 90,
            config.multicast_group@ == "239.255.42.1"@,
            config.multicast_port == 5678,
    {
        DiscoveryConfig {
            enabled: default_true(),
            interval_seconds: default_discovery_interval(),
            timeout_seconds: default_peer_timeout(),
            multicast_group: default_multicast_group(),
            multicast_port: default_multicast_port(),
        }
    }
}

impl Default for TestingConfig {
    fn default() -> (config: Self)
        ensures
            config.ping_enabled,
            config.ping_interval_seconds == 60,
            config.bandwidth_test_duration == 10,
            config.bandwidth_port == 9090,
    {
        TestingConfig {
            ping_enabled: default_true(),
            ping_interval_seconds: default_ping_interval(),
            bandwidth_test_duration: default_bandwidth_duration(),
            bandwidth_port: default_bandwidth_port(),
        }
    }
}

impl Default for LoggingConfig {
    fn default() -> (config: Self)
        ensures
            config.level@ == "info"@,
            config.file is None,
    {
        LoggingConfig { level: default_log_level(), file: None }
    }
}

impl Default for ConfigFile {
    fn default() -> (config: Self)
        ensures
            config.server.port == 8080,
            config.server.auto_open_browser,
            config.server.bind_address@ == "127.0.0.1"@,
            config.discovery.enabled,
            config.discovery.interval_seconds == 30,
            config.discovery.timeout_seconds == 90,
            config.discovery.multicast_group@ == "239.255.42.1"@,
            config.discovery.multicast_port == 5678,
            config.testing.ping_enabled,
            config.testing.ping_interval_seconds == 60,
            config.testing.bandwidth_test_duration == 10,
            config.testing.bandwidth_port == 9090,
            config.logging.level@ == "info"@,
            config.logging.file is None,
    {
        ConfigFile {
            server: ServerConfig::default(),
            discovery: DiscoveryConfig::default(),
            testing: TestingConfig::default(),
            logging: LoggingConfig::default(),
        }
    }
}

/// The settings that the process runs with.
#[derive(Debug)]
pub struct Config {
    pub port: u16,
    pub auto_open_browser: bool,
    pub bind_address: String,
    pub log_level: LogLevel,
    pub discovery_enabled: bool,
    pub discovery_interval: u64,
    pub peer_timeout: u64,
    pub multicast_group: String,
    pub multicast_port: u16,
    pub ping_enabled: bool,
    pub ping_interval: u64,
    pub bandwidth_port: u16,
}

impl Config {
    /// The address to bind the web server to: the one that the settings
    /// name, or the loopback address if they name none that can be read.
    pub fn bind_ip(&self) -> (address: IpAddress)
        ensures
            address == match ip_of(self.bind_address@) {
                Some(ip) => ip,
                None => IpAddress::V4(0x7F00_0001),
            },
    {
        match parse_ip(&chars_of(self.bind_address.as_str())) {
            Some(ip) => ip,
            None => IpAddress::V4(0x7F00_0001),
        }
    }

    /// Merges the command line with the settings file. Ports, intervals and
    /// the log level are the command line's; addresses and the multicast
    /// group are the file's; a feature is on if the file has it on and the
    /// command line does not switch it off. Fails if the command line names
    /// no log level.
    pub fn merge(cli_args: &CliArgs, config_file: ConfigFile) -> (merged: Result<
        Config,
        ConfigError,
    >)
        ensures
            match level_named(lowercase_of(cli_args.log_level@)) {
                Some(level) => merged is Ok && merged->Ok_0 == (Config {
                    port: cli_args.port,
                    auto_open_browser: !cli_args.no_browser
                        && config_file.server.auto_open_browser,
                    bind_address: config_file.server.bind_address,
                    log_level: level,
                    discovery_enabled: !cli_args.no_discovery && config_file.discovery.enabled,
                    discovery_interval: cli_args.discovery_interval,
                    peer_timeout: cli_args.peer_timeout,
                    multicast_group: config_file.discovery.multicast_group,
                    multicast_port: config_file.discovery.multicast_port,
                    ping_enabled: !cli_args.no_ping && config_file.testing.ping_enabled,
                    ping_interval: cli_args.ping_interval,
                    bandwidth_port: cli_args.bandwidth_port,
                }),
                None => merged is Err && merged->Err_0 is InvalidLogLevel
                    && merged->Err_0->InvalidLogLevel_0@ == cli_args.log_level@,
            },
    {
        let log_level = match parse_log_level(cli_args.log_level.as_str()) {
            Ok(level) => level,
            Err(error) => {
                return Err(error);
            },
        };
        Ok(
            Config {
                port: cli_args.port,
                auto_open_browser: !cli_args.no_browser && config_file.server.auto_open_browser,
                bind_address: config_file.server.bind_address,
                log_level,
                discovery_enabled: !cli_args.no_discovery && config_file.discovery.enabled,
                discovery_interval: cli_args.discovery_interval,
                peer_timeout: cli_args.peer_timeout,
                multicast_group: config_file.discovery.multicast_group,
                multicast_port: config_file.discovery.multicast_port,
                ping_enabled: !cli_args.no_ping && config_file.testing.ping_enabled,
                ping_interval: cli_args.ping_interval,
                bandwidth_port: cli_args.bandwidth_port,
            },
        )
    }
}

} // verus!
