use philiprehberger_assert_cmd::{
    cmd, next_wait_step, spawn_failed_message, Cmd, CmdError, PollResult, WaitStep,
    POLL_INTERVAL_MILLIS,
};
use std::time::Duration;

#[test]
fn new_command_is_bare() {
    let c = Cmd::new("echo");
    assert_eq!(c.get_program(), "echo");
    assert!(c.get_args().is_empty());
    assert!(c.get_envs().is_empty());
    assert_eq!(c.get_stdin(), None);
    assert_eq!(c.get_current_dir(), None);
    assert_eq!(c.get_timeout(), None);
}

#[test]
fn builder_records_everything_in_order() {
    let c = cmd("sh")
        .arg("-c")
        .args(&["echo $A", "x"])
        .arg("y")
        .env("A", "1")
        .env("B", "2")
        .stdin("data\n")
        .current_dir("/tmp")
        .timeout(Duration::from_millis(250));
    assert_eq!(c.get_program(), "sh");
    assert_eq!(c.get_args(), &vec!["-c".to_string(), "echo $A".to_string(), "x".to_string(), "y".to_string()]);
    assert_eq!(
        c.get_envs(),
        &vec![("A".to_string(), "1".to_string()), ("B".to_string(), "2".to_string())]
    );
    assert_eq!(c.get_stdin(), Some("data\n"));
    assert_eq!(c.get_current_dir(), Some("/tmp"));
    assert_eq!(c.get_timeout(), Some(Duration::from_millis(250)));
}

#[test]
fn later_settings_replace_earlier_ones() {
    let c = cmd("cat")
        .stdin("first")
        .stdin("second")
        .current_dir("/a")
        .current_dir("/b")
        .timeout(Duration::from_secs(1))
        .timeout(Duration::from_secs(2));
    assert_eq!(c.get_stdin(), Some("second"));
    assert_eq!(c.get_current_dir(), Some("/b"));
    assert_eq!(c.get_timeout(), Some(Duration::from_secs(2)));
}

#[test]
fn args_is_the_same_as_repeated_arg() {
    let a = cmd("p").args(&["x", "y", "z"]);
    let b = cmd("p").arg("x").arg("y").arg("z");
    assert_eq!(a.get_args(), b.get_args());
    let c = cmd("p").args(&[]);
    assert!(c.get_args().is_empty());
}

#[test]
fn error_messages() {
    assert_eq!(CmdError::Timeout.message(), "process timed out");
    let e = CmdError::AssertionFailed {
        context: "stdout".to_string(),
        expected: "a".to_string(),
        actual: "b".to_string(),
    };
    assert_eq!(e.message(), "assertion failed: stdout\n  expected: a\n  actual:   b");
    let io = std::io::Error::new(std::io::ErrorKind::NotFound, "no such program");
    let m = CmdError::SpawnFailed(io).message();
    assert_eq!(m, "failed to spawn process: no such program");
    assert_eq!(spawn_failed_message("denied"), "failed to spawn process: denied");
}

#[test]
fn wait_steps() {
    assert_eq!(next_wait_step(PollResult::Exited, 0, 5), WaitStep::Collect);
    assert_eq!(next_wait_step(PollResult::Exited, 9, 5), WaitStep::Collect);
    assert_eq!(next_wait_step(PollResult::Running, 5, 5), WaitStep::StopForTimeout);
    assert_eq!(next_wait_step(PollResult::Running, 6, 5), WaitStep::StopForTimeout);
    assert_eq!(next_wait_step(PollResult::Running, 4, 5), WaitStep::PollAgain);
    assert_eq!(POLL_INTERVAL_MILLIS, 10);
}
