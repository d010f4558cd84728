//! Fluent assertions on the exit code, standard output and standard error of
//! a command line program, with a builder that describes the command to run.
//!
//! The builder ([`Cmd`], made with [`cmd`]) records the program, its
//! arguments, environment variables, standard input, working directory and
//! time limit. The captured result ([`CmdOutput`]) offers assertions that can
//! be chained; glob matching ([`glob_match`]) supports `*` and `?`.
pub mod command;
pub mod error;
pub mod glob;
pub mod output;
pub mod text;
pub mod watch;

pub use command::{cmd, Cmd, CmdView};
pub use error::{spawn_failed_message, CmdError};
pub use glob::{glob_match, glob_match_inner};
pub use output::CmdOutput;
pub use watch::{next_wait_step, PollResult, WaitStep, POLL_INTERVAL_MILLIS};
