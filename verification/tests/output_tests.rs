use philiprehberger_assert_cmd::text::{is_whitespace, str_contains, str_equals, trim_chars};
use philiprehberger_assert_cmd::CmdOutput;

fn output(status: i32, stdout: &str, stderr: &str) -> CmdOutput {
    CmdOutput {
        status,
        stdout: stdout.to_string(),
        stderr: stderr.to_string(),
    }
}

#[test]
fn test_stdout_lines() {
    let output = CmdOutput {
        status: 0,
        stdout: "line1\nline2\nline3".to_string(),
        stderr: String::new(),
    };
    assert_eq!(output.stdout_lines(), vec!["line1", "line2", "line3"]);
}

#[test]
fn test_assert_stdout_line_count() {
    let output = CmdOutput {
        status: 0,
        stdout: "line1\nline2\nline3".to_string(),
        stderr: String::new(),
    };
    output.assert_stdout_line_count(3);
}

#[test]
fn test_assert_stdout_is_empty() {
    let output = CmdOutput {
        status: 0,
        stdout: String::new(),
        stderr: String::new(),
    };
    output.assert_stdout_is_empty();
}

#[test]
#[should_panic(expected = "assertion failed")]
fn test_assert_success_panics_on_failure() {
    let output = CmdOutput {
        status: 1,
        stdout: String::new(),
        stderr: String::new(),
    };
    output.assert_success();
}

#[test]
#[should_panic(expected = "assertion failed")]
fn test_assert_failure_panics_on_success() {
    let output = CmdOutput {
        status: 0,
        stdout: String::new(),
        stderr: String::new(),
    };
    output.assert_failure();
}

#[test]
fn chained_assertions_on_a_version_line() {
    let out = output(0, "rustc 1.80.0 (abc 2024-07-21)\n", "");
    out.assert_success()
        .assert_exit_code(0)
        .assert_stdout_contains("rustc")
        .assert_stderr_is_empty();
}

#[test]
fn chaining_returns_the_same_output() {
    let out = output(2, "a", "b");
    let back = out.assert_failure().assert_exit_code(2);
    assert!(std::ptr::eq(back, &out));
}

#[test]
fn stdout_equals_exact_text() {
    let out = output(0, "input data\n", "");
    out.assert_success().assert_stdout_equals("input data\n");
}

#[test]
fn stdout_equality_is_exact() {
    assert!(str_equals("input data\n", "input data\n"));
    assert!(!str_equals("input data\n", "input data"));
    assert!(!str_equals("abc", "abd"));
    assert!(str_equals("", ""));
}

#[test]
fn containment_search() {
    assert!(!str_contains("hello world", "goodbye"));
    assert!(!str_contains("hello", "hello world"));
    assert!(str_contains("hello world", "world"));
    assert!(str_contains("aaab", "aab"));
    assert!(str_contains("", ""));
}

#[test]
fn stdout_contains_the_empty_text_and_itself() {
    let out = output(0, "hello world", "");
    out.assert_stdout_contains("").assert_stdout_contains("hello world");
    out.assert_stdout_contains("o w");
}

#[test]
fn stderr_assertions() {
    let out = output(1, "", "error: bad flag\n");
    out.assert_failure()
        .assert_stderr_contains("bad flag")
        .assert_stderr_equals("error: bad flag\n")
        .assert_stdout_is_empty();
}

#[test]
fn stdout_matches_after_trimming() {
    let out = output(0, "  version 1.2.3\n", "");
    out.assert_stdout_matches("version *");
    out.assert_stdout_matches("version ?.?.?");
    out.assert_stdout_matches("*1.2.3");
}

#[test]
fn trimming_removes_unicode_white_space() {
    let t: Vec<char> = " \t\u{3000}a b\u{a0}\n".chars().collect();
    let r: Vec<char> = trim_chars(&t);
    assert_eq!(r.into_iter().collect::<String>(), "a b");
    let blank: Vec<char> = " \n\t".chars().collect();
    assert!(trim_chars(&blank).is_empty());
    assert!(is_whitespace('\u{2028}'));
    assert!(!is_whitespace('x'));
}

#[test]
fn lines_drop_carriage_return_before_line_feed() {
    let out = output(0, "a\r\nb\n", "");
    assert_eq!(out.stdout_lines(), vec!["a", "b"]);
    out.assert_stdout_line_count(2);
}

#[test]
fn lines_keep_carriage_return_without_line_feed() {
    let out = output(0, "a\rb", "");
    assert_eq!(out.stdout_lines(), vec!["a\rb"]);
}

#[test]
fn lines_keep_empty_lines_in_the_middle() {
    let out = output(0, "a\n\nb", "");
    assert_eq!(out.stdout_lines(), vec!["a", "", "b"]);
    out.assert_stdout_line_count(2);
}

#[test]
fn lines_of_a_single_line_feed() {
    let out = output(0, "\n", "");
    assert_eq!(out.stdout_lines(), vec![""]);
    out.assert_stdout_line_count(0);
}

#[test]
fn empty_output_has_no_lines() {
    let out = output(0, "", "");
    assert!(out.stdout_lines().is_empty());
    out.assert_stdout_line_count(0).assert_stdout_is_empty();
}

#[test]
fn final_line_feed_adds_no_line() {
    let with = output(0, "one\ntwo\n", "");
    let without = output(0, "one\ntwo", "");
    assert_eq!(with.stdout_lines(), without.stdout_lines());
}

#[test]
fn lines_of_non_ascii_text() {
    let out = output(0, "héllo\nwörld", "");
    assert_eq!(out.stdout_lines(), vec!["héllo", "wörld"]);
}

#[test]
fn line_count_of_text_with_final_line_feed() {
    let out = output(0, "a\nb\n", "");
    assert_eq!(out.stdout_lines().len(), 2);
    out.assert_stdout_line_count(2);
}

#[test]
fn captured_output_keeps_code_and_text() {
    let out = CmdOutput::from_captured(Some(3), b"hi\n", b"oops");
    assert_eq!(out.status, 3);
    assert_eq!(out.stdout, "hi\n");
    assert_eq!(out.stderr, "oops");
}

#[test]
fn captured_output_without_code_reports_minus_one() {
    let out = CmdOutput::from_captured(None, b"", b"");
    assert_eq!(out.status, -1);
    out.assert_exit_code(-1).assert_failure();
}

#[test]
fn captured_output_replaces_invalid_bytes() {
    let out = CmdOutput::from_captured(Some(0), &[b'a', 0xff, b'b'], &[]);
    assert_eq!(out.stdout, "a\u{FFFD}b");
    assert_eq!(out.stderr, "");
}

#[test]
fn test_assert_stdout_equals() {
    let output = output(0, "hello\n", "");
    let trimmed = output.stdout.trim().to_string();
    let expected_output = CmdOutput {
        status: 0,
        stdout: format!("{}\n", trimmed),
        stderr: String::new(),
    };
    expected_output.assert_stdout_equals(&format!("{}\n", trimmed));
}

#[test]
fn test_assert_stdout_matches() {
    let output = output(0, "hello world\n", "");
    output.assert_stdout_matches("hello*");
}

#[test]
fn test_chaining() {
    let output = output(0, "rustc 1.80.0 (051478957 2024-07-21)\n", "");
    output
        .assert_success()
        .assert_exit_code(0)
        .assert_stdout_contains("rustc")
        .assert_stderr_is_empty();
}

#[test]
fn joined_lines_give_the_text_back() {
    for text in ["line1\nline2\nline3", "", "a", "a\n\nb", "\nx"] {
        let out = output(0, text, "");
        assert_eq!(out.stdout_lines().join("\n"), text);
    }
}
