use vstd::prelude::*;

verus! {

// The connection and read loops do their I/O outside the library; what
// stands here is every decision they take. Connecting retries a fixed
// number of times with a fixed delay between attempts, and exhausting the
// retries is fatal. The read loop uses a bounded poll timeout so the same
// thread can drain its outbound queue between reads: a timeout with no
// data is normal control flow, while any other failure tears the
// connection down.

/// How many times a fresh connection attempt is retried after a failure.
pub const CONNECT_TRIES: u8 = 5;

/// Seconds to wait between connection attempts.
pub const CONNECT_RETRY_DELAY_SECS: u64 = 1;

/// What the connect loop does after one failed attempt.
#[derive(Clone, Copy, PartialEq, Eq, Structural, Debug)]
pub enum ConnectStep {
    /// Wait the fixed delay, then try again with this many retries left.
    RetryAfterDelay(u8),
    /// No retries remain: the failure is surfaced to the caller.
    GiveUp,
}

/// Decides the connect loop's next move after a failed attempt with
/// `tries_left` retries remaining: retry with one fewer until none
/// remain, then give up.
pub fn connect_step(tries_left: u8) -> (r: ConnectStep)
    ensures
        tries_left == 0 ==> r == ConnectStep::GiveUp,
        tries_left > 0 ==> r == ConnectStep::RetryAfterDelay((tries_left - 1) as u8),
{
    if tries_left == 0 {
        ConnectStep::GiveUp
    } else {
        ConnectStep::RetryAfterDelay(tries_left - 1)
    }
}

/// What one bounded-timeout read of the connection produced.
#[derive(Clone, Copy, PartialEq, Eq, Structural, Debug)]
pub enum ReadOutcome {
    /// Bytes arrived.
    Data,
    /// The poll timeout elapsed with nothing to read.
    TimedOut,
    /// The connection failed in some other way.
    Failed,
}

/// Decides whether the read loop keeps running after one read: a timeout
/// is not an error and data keeps the loop alive; any other failure tears
/// the connection down.
pub fn keep_reading(outcome: ReadOutcome) -> (r: bool)
    ensures
        r == !(outcome == ReadOutcome::Failed),
{
    match outcome {
        ReadOutcome::Data => true,
        ReadOutcome::TimedOut => true,
        ReadOutcome::Failed => false,
    }
}

} // verus!
