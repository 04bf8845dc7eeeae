//! The bandwidth test: what its first byte asks for, and how far a test
//! has come.

use vstd::prelude::*;

verus! {

/// The port that the bandwidth test listens on.
pub const BANDWIDTH_TEST_PORT: u16 = 8081;

/// Seconds that each direction of a test runs.
pub const BANDWIDTH_TEST_DURATION_SECS: u64 = 10;

/// Bytes written or read at a time.
pub const CHUNK_SIZE: usize = 65536;

/// What a client asks of the server with the first byte it sends.
#[derive(Debug, Clone, Copy, PartialEq, Eq, Structural)]
pub enum TestMode {
    /// The client sends and the server receives.
    Receive,
    /// The server sends and the client receives.
    Send,
}

/// What the first byte of a connection asks for: zero to receive, one to
/// send, and nothing else is a request.
pub fn mode_of(byte: u8) -> (mode: Option<TestMode>)
    ensures
        mode == if byte == 0 {
            Some(TestMode::Receive)
        } else if byte == 1 {
            Some(TestMode::Send)
        } else {
            None
        },
{
    if byte == 0 {
        Some(TestMode::Receive)
    } else if byte == 1 {
        Some(TestMode::Send)
    } else {
        None
    }
}

/// The seconds that a whole test takes: both directions.
pub fn total_duration_secs() -> (seconds: u64)
    ensures
        seconds == 2 * BANDWIDTH_TEST_DURATION_SECS,
{
    BANDWIDTH_TEST_DURATION_SECS * 2
}

/// The share of a phase that has passed when it has run for so many
/// seconds, in fortieths of the whole test, reduced to what a byte holds.
pub open spec fn phase_share(elapsed_secs: u64) -> int {
    (elapsed_secs * 40 / BANDWIDTH_TEST_DURATION_SECS as int) % 256
}

/// The percentage to report in a phase that begins at `base` percent and
/// has run for `elapsed_secs`. A phase covers forty percent of the test.
pub fn phase_progress(base: u8, elapsed_secs: u64) -> (percent: u8)
    requires
        elapsed_secs * 40 <= u64::MAX,
        base + phase_share(elapsed_secs) <= 255,
    ensures
        percent as int == base + phase_share(elapsed_secs),
{
    let share: u64 = (elapsed_secs * 40 / BANDWIDTH_TEST_DURATION_SECS) % 256;
    base + share as u8
}

} // verus!
