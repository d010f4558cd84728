//! Errors that can occur when running a command.
use vstd::prelude::*;

verus! {

/// The operating system's error type, carried unchanged inside [`CmdError::SpawnFailed`].
#[verifier::external_type_specification]
#[verifier::external_body]
pub struct ExIoError(std::io::Error);

/// Errors that can occur when running a command.
#[derive(Debug)]
pub enum CmdError {
    /// The process failed to spawn.
    SpawnFailed(std::io::Error),
    /// The process exceeded the configured time limit.
    Timeout,
    /// An assertion on the command output failed.
    AssertionFailed {
        /// What was being checked.
        context: String,
        /// The expected value.
        expected: String,
        /// The actual value.
        actual: String,
    },
}

/// The text of an operating system error, as its `Display` implementation
/// writes it. Nothing is stated of the text: it is the operating system's.
#[verifier::external_body]
fn io_error_text(e: &std::io::Error) -> String {
    e.to_string()
}

/// The first words of the message of [`CmdError::SpawnFailed`].
pub open spec fn spawn_failed_prefix() -> Seq<char> {
    "failed to spawn process: "@
}

/// The message for a process that failed to spawn, given the operating
/// system's description of the failure.
pub fn spawn_failed_message(detail: &str) -> (m: String)
    ensures
        m@ == spawn_failed_prefix() + detail@,
{
    let mut m = String::new();
    m.append("failed to spawn process: ");
    m.append(detail);
    m
}

impl CmdError {
    /// The human-readable description of the error.
    pub fn message(&self) -> (m: String)
        ensures
            match self {
                CmdError::SpawnFailed(_) => m@.len() >= spawn_failed_prefix().len() && m@.take(
                    spawn_failed_prefix().len() as int,
                ) == spawn_failed_prefix(),
                CmdError::Timeout => m@ == "process timed out"@,
                CmdError::AssertionFailed { context, expected, actual } => m@ == "assertion failed: "@
                    + context@ + "\n  expected: "@ + expected@ + "\n  actual:   "@ + actual@,
            },
    {
        match self {
            CmdError::SpawnFailed(e) => {
                let detail = io_error_text(e);
                let m = spawn_failed_message(detail.as_str());
                assert(m@.take(spawn_failed_prefix().len() as int) =~= spawn_failed_prefix());
                m
            },
            CmdError::Timeout => {
                let mut m = String::new();
                m.append("process timed out");
                assert(m@ =~= "process timed out"@);
                m
            },
            CmdError::AssertionFailed { context, expected, actual } => {
                let mut m = String::new();
                m.append("assertion failed: ");
                m.append(context.as_str());
                m.append("\n  expected: ");
                m.append(expected.as_str());
                m.append("\n  actual:   ");
                m.append(actual.as_str());
                m
            },
        }
    }
}

} // verus!
