//! The decisions taken while waiting for a process that has a time limit.
//! The caller polls the process and reads the clock; these functions say
//! what to do with what it saw.
use vstd::prelude::*;

verus! {

/// What one poll of a running process found.
#[derive(Debug, Clone, Copy, PartialEq, Eq, Structural)]
pub enum PollResult {
    /// The process has exited.
    Exited,
    /// The process is still running.
    Running,
}

/// What to do after a poll.
#[derive(Debug, Clone, Copy, PartialEq, Eq, Structural)]
pub enum WaitStep {
    /// Collect the output of the process, which has exited.
    Collect,
    /// Stop the process and report that it timed out.
    StopForTimeout,
    /// Sleep for a short while, then poll again.
    PollAgain,
}

/// How long to sleep, in milliseconds, before polling a running process again.
pub const POLL_INTERVAL_MILLIS: u64 = 10;

/// The step after a poll, given the time elapsed since the process started
/// and the time limit, both in nanoseconds: an exited process is collected; a
/// running one is stopped once the elapsed time reaches the limit, and polled
/// again before that.
pub fn next_wait_step(poll: PollResult, elapsed_nanos: u128, limit_nanos: u128) -> (s: WaitStep)
    ensures
        poll == PollResult::Exited ==> s == WaitStep::Collect,
        poll == PollResult::Running && elapsed_nanos >= limit_nanos ==> s
            == WaitStep::StopForTimeout,
        poll == PollResult::Running && elapsed_nanos < limit_nanos ==> s == WaitStep::PollAgain,
{
    match poll {
        PollResult::Exited => WaitStep::Collect,
        PollResult::Running => {
            if elapsed_nanos >= limit_nanos {
                WaitStep::StopForTimeout
            } else {
                WaitStep::PollAgain
            }
        },
    }
}

} // verus!
