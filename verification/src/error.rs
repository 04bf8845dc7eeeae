//! What can go wrong, in the user's words, and when to try again.

use vstd::prelude::*;

verus! {

/// Something that went wrong. Each kind holds the detail it was raised
/// with.
#[derive(Debug)]
pub enum AppError {
    RoutingTableParse(String),
    CommandExecution(String),
    Network(String),
    Io(String),
    Config(String),
    Discovery(String),
    Traceroute(String),
    InvalidDestination(String),
    NoRouteToHost(String),
    BandwidthTest(String),
    WebSocket(String),
    Serialization(String),
    Unknown(String),
}

impl AppError {
    /// The detail that the error holds.
    pub open spec fn spec_detail(&self) -> Seq<char> {
        match self {
            AppError::RoutingTableParse(detail) => detail@,
            AppError::CommandExecution(detail) => detail@,
            AppError::Network(detail) => detail@,
            AppError::Io(detail) => detail@,
            AppError::Config(detail) => detail@,
            AppError::Discovery(detail) => detail@,
            AppError::Traceroute(detail) => detail@,
            AppError::InvalidDestination(detail) => detail@,
            AppError::NoRouteToHost(detail) => detail@,
            AppError::BandwidthTest(detail) => detail@,
            AppError::WebSocket(detail) => detail@,
            AppError::Serialization(detail) => detail@,
            AppError::Unknown(detail) => detail@,
        }
    }

    /// The words that the kind of the error is introduced with.
    pub open spec fn spec_heading(&self) -> Seq<char> {
        match self {
            AppError::RoutingTableParse(_) => "Failed to parse routing table: "@,
            AppError::CommandExecution(_) => "Failed to execute command: "@,
            AppError::Network(_) => "Network error: "@,
            AppError::Io(_) => "IO error: "@,
            AppError::Config(_) => "Configuration error: "@,
            AppError::Discovery(_) => "Discovery error: "@,
            AppError::Traceroute(_) => "Traceroute error: "@,
            AppError::InvalidDestination(_) => "Invalid destination: "@,
            AppError::NoRouteToHost(_) => "No route to host: "@,
            AppError::BandwidthTest(_) => "Bandwidth test error: "@,
            AppError::WebSocket(_) => "WebSocket error: "@,
            AppError::Serialization(_) => "JSON serialization error: "@,
            AppError::Unknown(_) => "Unknown error: "@,
        }
    }

    /// What to tell the user.
    pub open spec fn spec_user_message(&self) -> Seq<char> {
        match self {
            AppError::RoutingTableParse(_) => "Failed to read routing table. Please ensure you have proper permissions."@,
            AppError::CommandExecution(command) => "Failed to execute command. Make sure "@
                + command@ + " is installed."@,
            AppError::Network(_) => "Network error occurred. Please check your connection."@,
            AppError::Io(_) => "File system error. Check permissions and disk space."@,
            AppError::Config(_) => "Configuration error. Check your config file or command-line arguments."@,
            AppError::Discovery(_) => "Node discovery failed. Check network settings and firewall rules."@,
            AppError::Traceroute(detail) => "Traceroute failed: "@ + detail@
                + ". Ensure traceroute/tracert is installed and you have proper permissions."@,
            AppError::InvalidDestination(_) => "Invalid destination. Please provide a valid IP address or domain name."@,
            AppError::NoRouteToHost(_) => "No route found to destination. Check your routing table and network connectivity."@,
            AppError::BandwidthTest(_) => "Bandwidth test failed. Ensure both nodes are reachable and ports are open."@,
            AppError::WebSocket(_) => "WebSocket connection error. Try refreshing the page."@,
            AppError::Serialization(_) => "Data format error. This might be a bug, please report it."@,
            AppError::Unknown(_) => "An unexpected error occurred. Please try again."@,
        }
    }

    /// The error in words: what kind it is, and its detail.
    pub fn message(&self) -> (text: String)
        ensures
            text@ == self.spec_heading() + self.spec_detail(),
    {
        match self {
            AppError::RoutingTableParse(detail) => "Failed to parse routing table: ".to_owned().concat(
                detail.as_str(),
            ),
            AppError::CommandExecution(detail) => "Failed to execute command: ".to_owned().concat(
                detail.as_str(),
            ),
            AppError::Network(detail) => "Network error: ".to_owned().concat(detail.as_str()),
            AppError::Io(detail) => "IO error: ".to_owned().concat(detail.as_str()),
            AppError::Config(detail) => "Configuration error: ".to_owned().concat(detail.as_str()),
            AppError::Discovery(detail) => "Discovery error: ".to_owned().concat(detail.as_str()),
            AppError::Traceroute(detail) => "Traceroute error: ".to_owned().concat(detail.as_str()),
            AppError::InvalidDestination(detail) => "Invalid destination: ".to_owned().concat(
                detail.as_str(),
            ),
            AppError::NoRouteToHost(detail) => "No route to host: ".to_owned().concat(
                detail.as_str(),
            ),
            AppError::BandwidthTest(detail) => "Bandwidth test error: ".to_owned().concat(
                detail.as_str(),
            ),
            AppError::WebSocket(detail) => "WebSocket error: ".to_owned().concat(detail.as_str()),
            AppError::Serialization(detail) => "JSON serialization error: ".to_owned().concat(
                detail.as_str(),
            ),
            AppError::Unknown(detail) => "Unknown error: ".to_owned().concat(detail.as_str()),
        }
    }

    /// What to tell the user.
    pub fn user_message(&self) -> (text: String)
        ensures
            text@ == self.spec_user_message(),
    {
        match self {
            AppError::RoutingTableParse(_) => "Failed to read routing table. Please ensure you have proper permissions.".to_owned(),
            AppError::CommandExecution(command) => "Failed to execute command. Make sure ".to_owned().concat(
                command.as_str(),
            ).concat(" is installed."),
            AppError::Network(_) => "Network error occurred. Please check your connection.".to_owned(),
            AppError::Io(_) => "File system error. Check permissions and disk space.".to_owned(),
            AppError::Config(_) => "Configuration error. Check your config file or command-line arguments.".to_owned(),
            AppError::Discovery(_) => "Node discovery failed. Check network settings and firewall rules.".to_owned(),
            AppError::Traceroute(detail) => "Traceroute failed: ".to_owned().concat(
                detail.as_str(),
            ).concat(
                ". Ensure traceroute/tracert is installed and you have proper permissions.",
            ),
            AppError::InvalidDestination(_) => "Invalid destination. Please provide a valid IP address or domain name.".to_owned(),
            AppError::NoRouteToHost(_) => "No route found to destination. Check your routing table and network connectivity.".to_owned(),
            AppError::BandwidthTest(_) => "Bandwidth test failed. Ensure both nodes are reachable and ports are open.".to_owned(),
            AppError::WebSocket(_) => "WebSocket connection error. Try refreshing the page.".to_owned(),
            AppError::Serialization(_) => "Data format error. This might be a bug, please report it.".to_owned(),
            AppError::Unknown(_) => "An unexpected error occurred. Please try again.".to_owned(),
        }
    }

    /// Whether trying again may help: it may after an error of the
    /// network, of discovery or of a WebSocket, and after no other.
    pub fn is_retryable(&self) -> (retryable: bool)
        ensures
            retryable == (self is Network || self is Discovery || self is WebSocket),
    {
        match self {
            AppError::Network(_) => true,
            AppError::Discovery(_) => true,
            AppError::WebSocket(_) => true,
            _ => false,
        }
    }
}

/// When and how often to try again. The delay before a new attempt grows
/// by a whole factor with each attempt, up to a ceiling.
#[derive(Debug, Clone, Copy, PartialEq, Eq, Structural)]
pub struct RetryConfig {
    pub max_attempts: u32,
    pub initial_delay_ms: u64,
    pub max_delay_ms: u64,
    pub backoff_multiplier: u32,
}

impl Default for RetryConfig {
    fn default() -> (config: Self)
        ensures
            config == (RetryConfig {
                max_attempts: 3,
                initial_delay_ms: 100,
                max_delay_ms: 5000,
                backoff_multiplier: 2,
            }),
    {
        RetryConfig {
            max_attempts: 3,
            initial_delay_ms: 100,
            max_delay_ms: 5000,
            backoff_multiplier: 2,
        }
    }
}

/// A delay after it has grown `attempts` times by the factor.
pub open spec fn grown(delay: int, factor: int, attempts: nat) -> int
    decreases attempts,
{
    if attempts == 0 {
        delay
    } else {
        grown(delay, factor, (attempts - 1) as nat) * factor
    }
}

/// The smaller of two numbers.
pub open spec fn at_most(value: int, ceiling: int) -> int {
    if value <= ceiling {
        value
    } else {
        ceiling
    }
}

/// What to do after an attempt has failed.
#[derive(Debug, Clone, Copy, PartialEq, Eq, Structural)]
pub enum RetryStep {
    /// Try again after so many milliseconds.
    RetryAfter(u64),
    /// Give up: the attempts are used up.
    GiveUp,
}

impl RetryConfig {
    /// The delay before the attempt that follows attempt number `attempt`,
    /// counted from zero.
    pub open spec fn spec_delay(&self, attempt: u32) -> int {
        at_most(
            grown(self.initial_delay_ms as int, self.backoff_multiplier as int, attempt as nat),
            self.max_delay_ms as int,
        )
    }

    /// The delay in milliseconds before the attempt that follows attempt
    /// number `attempt`, counted from zero.
    pub fn delay_for_attempt(&self, attempt: u32) -> (delay: u64)
        ensures
            delay as int == self.spec_delay(attempt),
    {
        let ceiling: u128 = self.max_delay_ms as u128;
        let factor: u128 = self.backoff_multiplier as u128;
        let mut value: u128 = self.initial_delay_ms as u128;
        if value > ceiling {
            value = ceiling + 1;
        }
        let mut done: u32 = 0;
        while done < attempt
            invariant
                done <= attempt,
                ceiling == self.max_delay_ms,
                factor == self.backoff_multiplier,
                value as int == at_most(
                    grown(self.initial_delay_ms as int, factor as int, done as nat),
                    ceiling + 1,
                ),
            decreases attempt - done,
        {
            let ghost exact = grown(self.initial_delay_ms as int, factor as int, done as nat);
            assert(at_most(at_most(exact, ceiling + 1) * factor, ceiling + 1) == at_most(
                exact * factor,
                ceiling + 1,
            )) by (nonlinear_arith)
                requires
                    factor >= 0,
                    ceiling >= 0,
            ;
            assert(value * factor <= (ceiling + 1) * factor) by (nonlinear_arith)
                requires
                    value <= ceiling + 1,
                    factor >= 0,
            ;
            assert((ceiling + 1) * factor <= 0x1_0000_0000_0000_0000 * 0x1_0000_0000)
                by (nonlinear_arith)
                requires
                    0 <= ceiling + 1 <= 0x1_0000_0000_0000_0000,
                    0 <= factor <= 0x1_0000_0000,
            ;
            value = value * factor;
            if value > ceiling {
                value = ceiling + 1;
            }
            done = done + 1;
        }
        if value > ceiling {
            self.max_delay_ms
        } else {
            value as u64
        }
    }

    /// What to do after a failure that was preceded by `failures` others:
    /// give up if that makes as many attempts as are allowed, and otherwise
    /// try again after the delay of the attempt that failed.
    pub fn after_failure(&self, failures: u32) -> (step: RetryStep)
        ensures
            step == if failures + 1 >= self.max_attempts {
                RetryStep::GiveUp
            } else {
                RetryStep::RetryAfter(self.spec_delay(failures) as u64)
            },
    {
        if failures == 0xFFFF_FFFF || failures + 1 >= self.max_attempts {
            RetryStep::GiveUp
        } else {
            RetryStep::RetryAfter(self.delay_for_attempt(failures))
        }
    }
}

} // verus!
