//! The captured result of running a command, with chainable assertions on it.
use crate::glob::{glob, glob_match_inner};
use crate::text::{
    chars_of, contains_seq, count_non_empty, line_bounds, lines, str_contains, str_equals, trim, trim_chars,
};
use vstd::prelude::*;
use vstd::utf8::{decode_utf8, valid_utf8};

verus! {

/// The text that `String::from_utf8_lossy` makes of a byte sequence: valid
/// UTF-8 decoded, each invalid sequence replaced by U+FFFD.
pub uninterp spec fn lossy_text(bytes: Seq<u8>) -> Seq<char>;

/// Calls `String::from_utf8_lossy` and takes the text as an owned string.
/// Believed of it: the text is `lossy_text` of the bytes, and bytes that are
/// valid UTF-8 are decoded unchanged (the documentation's promise).
#[verifier::external_body]
fn decode_lossy(bytes: &[u8]) -> (s: String)
    ensures
        s@ == lossy_text(bytes@),
        valid_utf8(bytes@) ==> s@ == decode_utf8(bytes@),
{
    String::from_utf8_lossy(bytes).to_string()
}

/// The result of running a command, with chainable assertion methods.
///
/// Each assertion method demands that its condition hold and returns the
/// output itself, so that assertions can be chained. Its condition is also
/// tested when the program runs: a caller that was not verified and breaks it
/// stops with a panic whose message starts with "assertion failed".
#[derive(Debug, Clone)]
pub struct CmdOutput {
    /// The exit code of the process.
    pub status: i32,
    /// The captured standard output.
    pub stdout: String,
    /// The captured standard error.
    pub stderr: String,
}

/// The exit code reported for a process: its own code, or -1 when it has
/// none (it was ended by a signal).
pub open spec fn exit_code_of(code: Option<i32>) -> i32 {
    match code {
        Some(c) => c,
        None => -1i32,
    }
}

impl CmdOutput {
    /// The output of a finished process, from its exit code (if it had one)
    /// and the bytes it wrote to standard output and standard error.
    pub fn from_captured(code: Option<i32>, stdout: &[u8], stderr: &[u8]) -> (o: CmdOutput)
        ensures
            o.status == exit_code_of(code),
            o.stdout@ == lossy_text(stdout@),
            o.stderr@ == lossy_text(stderr@),
            valid_utf8(stdout@) ==> o.stdout@ == decode_utf8(stdout@),
            valid_utf8(stderr@) ==> o.stderr@ == decode_utf8(stderr@),
    {
        let status = match code {
            Some(c) => c,
            None => -1,
        };
        CmdOutput { status, stdout: decode_lossy(stdout), stderr: decode_lossy(stderr) }
    }

    /// Assert that the command exited with code 0.
    pub fn assert_success(&self) -> (r: &Self)
        requires
            self.status == 0,
        ensures
            r == self,
    {
        vstd::pervasive::runtime_assert(self.status == 0);
        self
    }

    /// Assert that the command exited with a non-zero exit code.
    pub fn assert_failure(&self) -> (r: &Self)
        requires
            self.status != 0,
        ensures
            r == self,
    {
        vstd::pervasive::runtime_assert(self.status != 0);
        self
    }

    /// Assert that the command exited with the given exit code.
    pub fn assert_exit_code(&self, code: i32) -> (r: &Self)
        requires
            self.status == code,
        ensures
            r == self,
    {
        vstd::pervasive::runtime_assert(self.status == code);
        self
    }

    /// Assert that stdout contains the given substring.
    pub fn assert_stdout_contains(&self, substring: &str) -> (r: &Self)
        requires
            contains_seq(self.stdout@, substring@),
        ensures
            r == self,
    {
        let found = str_contains(self.stdout.as_str(), substring);
        vstd::pervasive::runtime_assert(found);
        self
    }

    /// Assert that stdout equals the given string exactly.
    pub fn assert_stdout_equals(&self, expected: &str) -> (r: &Self)
        requires
            self.stdout@ == expected@,
        ensures
            r == self,
    {
        let same = str_equals(self.stdout.as_str(), expected);
        vstd::pervasive::runtime_assert(same);
        self
    }

    /// Assert that stdout is empty.
    pub fn assert_stdout_is_empty(&self) -> (r: &Self)
        requires
            self.stdout@.len() == 0,
        ensures
            r == self,
    {
        let empty = self.stdout.as_str().is_empty();
        vstd::pervasive::runtime_assert(empty);
        self
    }

    /// Assert that stdout has exactly the given number of non-empty lines,
    /// among the lines that [`CmdOutput::stdout_lines`] gives.
    pub fn assert_stdout_line_count(&self, count: usize) -> (r: &Self)
        requires
            count_non_empty(lines(self.stdout@)) == count,
        ensures
            r == self,
    {
        let found = self.stdout_lines();
        let n = found.len();
        let mut non_empty: usize = 0;
        let mut i: usize = 0;
        while i < n
            invariant
                i <= n,
                n == found@.len(),
                found@.map_values(|l: &str| l@) == lines(self.stdout@),
                non_empty == count_non_empty(lines(self.stdout@).take(i as int)),
                non_empty <= i,
            decreases n - i,
        {
            let ghost ls = lines(self.stdout@);
            assert(ls.take(i + 1).drop_last() =~= ls.take(i as int));
            assert(ls[i as int] == found@[i as int]@);
            if !found[i].is_empty() {
                non_empty = non_empty + 1;
            }
            i = i + 1;
        }
        assert(lines(self.stdout@).take(n as int) =~= lines(self.stdout@));
        vstd::pervasive::runtime_assert(non_empty == count);
        self
    }

    /// Assert that stdout, without leading and trailing white space, matches
    /// the given glob pattern: `*` stands for any number of characters and `?`
    /// for exactly one.
    pub fn assert_stdout_matches(&self, pattern: &str) -> (r: &Self)
        requires
            glob(pattern@, trim(self.stdout@)),
        ensures
            r == self,
    {
        let text = chars_of(self.stdout.as_str());
        let trimmed = trim_chars(&text);
        let pat = chars_of(pattern);
        let matched = glob_match_inner(pat.as_slice(), trimmed.as_slice());
        vstd::pervasive::runtime_assert(matched);
        self
    }

    /// Assert that stderr contains the given substring.
    pub fn assert_stderr_contains(&self, substring: &str) -> (r: &Self)
        requires
            contains_seq(self.stderr@, substring@),
        ensures
            r == self,
    {
        let found = str_contains(self.stderr.as_str(), substring);
        vstd::pervasive::runtime_assert(found);
        self
    }

    /// Assert that stderr equals the given string exactly.
    pub fn assert_stderr_equals(&self, expected: &str) -> (r: &Self)
        requires
            self.stderr@ == expected@,
        ensures
            r == self,
    {
        let same = str_equals(self.stderr.as_str(), expected);
        vstd::pervasive::runtime_assert(same);
        self
    }

    /// Assert that stderr is empty.
    pub fn assert_stderr_is_empty(&self) -> (r: &Self)
        requires
            self.stderr@.len() == 0,
        ensures
            r == self,
    {
        let empty = self.stderr.as_str().is_empty();
        vstd::pervasive::runtime_assert(empty);
        self
    }

    /// Split stdout into lines: at each `'\n'`, with a `'\r'` right before a
    /// `'\n'` dropped, and no empty line after a final line feed.
    pub fn stdout_lines(&self) -> (r: Vec<&str>)
        ensures
            r@.map_values(|l: &str| l@) == lines(self.stdout@),
    {
        let text = self.stdout.as_str();
        let chars = chars_of(text);
        let bounds = line_bounds(&chars);
        let n = bounds.len();
        let mut r: Vec<&str> = Vec::new();
        let mut i: usize = 0;
        while i < n
            invariant
                i <= n,
                n == bounds@.len(),
                n == lines(chars@).len(),
                chars@ == text@,
                forall|k: int|
                    0 <= k < n ==> {
                        &&& (#[trigger] bounds@[k]).0 <= bounds@[k].1 <= chars@.len()
                        &&& chars@.subrange(bounds@[k].0 as int, bounds@[k].1 as int) == lines(
                            chars@,
                        )[k]
                    },
                r@.map_values(|l: &str| l@) == lines(chars@).take(i as int),
            decreases n - i,
        {
            let (a, b) = bounds[i];
            assert(bounds@[i as int] == (a, b));
            let line = text.substring_char(a, b);
            assert(line@ == lines(chars@)[i as int]);
            let ghost before = r@;
            r.push(line);
            assert(r@.map_values(|l: &str| l@) =~= before.map_values(|l: &str| l@).push(line@));
            assert(lines(chars@).take(i + 1) =~= lines(chars@).take(i as int).push(
                lines(chars@)[i as int],
            ));
            i = i + 1;
        }
        assert(lines(chars@).take(n as int) =~= lines(chars@));
        r
    }
}

} // verus!
