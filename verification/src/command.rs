//! The description of a command to run: program, arguments, environment,
//! standard input, working directory and time limit.
use std::time::Duration;
use vstd::prelude::*;

verus! {

/// What a [`Cmd`] describes, as mathematical values.
pub struct CmdView {
    /// The program to run.
    pub program: Seq<char>,
    /// The arguments, in the order they are passed.
    pub args: Seq<Seq<char>>,
    /// The environment variables to set, in the order they were given.
    pub env: Seq<(Seq<char>, Seq<char>)>,
    /// The text piped into standard input, if any.
    pub stdin: Option<Seq<char>>,
    /// The working directory, if one was set.
    pub current_dir: Option<Seq<char>>,
    /// The time limit, if one was set.
    pub timeout: Option<Duration>,
}

/// The characters of each string of a sequence.
pub open spec fn string_views(v: Seq<String>) -> Seq<Seq<char>> {
    v.map_values(|s: String| s@)
}

/// The characters of both strings of each pair of a sequence.
pub open spec fn pair_views(v: Seq<(String, String)>) -> Seq<(Seq<char>, Seq<char>)> {
    v.map_values(|p: (String, String)| (p.0@, p.1@))
}

/// The characters of a string, if there is one.
pub open spec fn option_view(o: Option<String>) -> Option<Seq<char>> {
    match o {
        Some(s) => Some(s@),
        None => None,
    }
}

/// `v` with the argument `a` appended.
pub open spec fn with_arg(v: CmdView, a: Seq<char>) -> CmdView {
    CmdView { args: v.args.push(a), ..v }
}

/// `v` with the arguments `xs` appended, in order.
pub open spec fn with_args(v: CmdView, xs: Seq<Seq<char>>) -> CmdView {
    CmdView { args: v.args + xs, ..v }
}

/// Appending a list of arguments at once describes the same command as
/// appending them one by one: no arguments change nothing, and one more
/// argument at the end of the list is one more call of `arg`.
pub proof fn lemma_args_is_repeated_arg(v: CmdView, xs: Seq<Seq<char>>, a: Seq<char>)
    ensures
        with_args(v, Seq::empty()) == v,
        with_args(v, xs.push(a)) == with_arg(with_args(v, xs), a),
{
    assert(v.args + Seq::<Seq<char>>::empty() =~= v.args);
    assert(v.args + xs.push(a) =~= (v.args + xs).push(a));
}

/// Each argument is passed verbatim: `arg` adds exactly its argument at the
/// end and `args` adds exactly its list at the end, in order, with every
/// earlier argument and every other setting left as it was.
pub proof fn lemma_arguments_are_appended_verbatim(v: CmdView, a: Seq<char>, xs: Seq<Seq<char>>)
    ensures
        with_arg(v, a).args.len() == v.args.len() + 1,
        with_arg(v, a).args[v.args.len() as int] == a,
        forall|k: int| 0 <= k < v.args.len() ==> #[trigger] with_arg(v, a).args[k] == v.args[k],
        with_args(v, xs).args.len() == v.args.len() + xs.len(),
        forall|k: int| 0 <= k < v.args.len() ==> #[trigger] with_args(v, xs).args[k] == v.args[k],
        forall|k: int|
            0 <= k < xs.len() ==> #[trigger] with_args(v, xs).args[v.args.len() + k] == xs[k],
        with_arg(v, a).program == v.program && with_args(v, xs).program == v.program,
        with_arg(v, a).env == v.env && with_args(v, xs).env == v.env,
        with_arg(v, a).stdin == v.stdin && with_args(v, xs).stdin == v.stdin,
        with_arg(v, a).current_dir == v.current_dir && with_args(v, xs).current_dir
            == v.current_dir,
        with_arg(v, a).timeout == v.timeout && with_args(v, xs).timeout == v.timeout,
{
}

/// A builder for configuring a command line program to run.
///
/// Use [`cmd`] or [`Cmd::new`] to create one, then chain builder methods.
pub struct Cmd {
    program: String,
    args: Vec<String>,
    env: Vec<(String, String)>,
    stdin_data: Option<String>,
    current_dir: Option<String>,
    timeout: Option<Duration>,
}

impl View for Cmd {
    type V = CmdView;

    closed spec fn view(&self) -> CmdView {
        CmdView {
            program: self.program@,
            args: string_views(self.args@),
            env: pair_views(self.env@),
            stdin: option_view(self.stdin_data),
            current_dir: option_view(self.current_dir),
            timeout: self.timeout,
        }
    }
}

/// Create a new [`Cmd`] builder for the given program; the same as [`Cmd::new`].
pub fn cmd(program: &str) -> (c: Cmd)
    ensures
        c@.program == program@,
        c@.args.len() == 0,
        c@.env.len() == 0,
        c@.stdin is None,
        c@.current_dir is None,
        c@.timeout is None,
{
    Cmd::new(program)
}

impl Cmd {
    /// Create a new `Cmd` builder for the given program, with no arguments,
    /// no environment variables, no standard input, no working directory and
    /// no time limit.
    pub fn new(program: &str) -> (c: Self)
        ensures
            c@.program == program@,
            c@.args.len() == 0,
            c@.env.len() == 0,
            c@.stdin is None,
            c@.current_dir is None,
            c@.timeout is None,
    {
        let c = Cmd {
            program: program.to_owned(),
            args: Vec::new(),
            env: Vec::new(),
            stdin_data: None,
            current_dir: None,
            timeout: None,
        };
        assert(c@.args =~= Seq::<Seq<char>>::empty());
        assert(c@.env =~= Seq::<(Seq<char>, Seq<char>)>::empty());
        c
    }

    /// Append a single argument to the command.
    pub fn arg(self, arg: &str) -> (c: Self)
        ensures
            c@ == with_arg(self@, arg@),
    {
        let mut this = self;
        let ghost before = this.args@;
        this.args.push(arg.to_owned());
        assert(string_views(this.args@) =~= string_views(before).push(arg@));
        this
    }

    /// Append multiple arguments to the command, in order.
    pub fn args(self, args: &[&str]) -> (c: Self)
        ensures
            c@ == with_args(self@, args@.map_values(|a: &str| a@)),
    {
        let mut this = self;
        let ghost start = this.args@;
        let n = args.len();
        let mut i: usize = 0;
        while i < n
            invariant
                i <= n,
                n == args@.len(),
                string_views(this.args@) == string_views(start) + args@.take(i as int).map_values(
                    |a: &str| a@,
                ),
                string_views(start) == self@.args,
                this@ == (CmdView { args: string_views(this.args@), ..self@ }),
            decreases n - i,
        {
            let ghost before = this.args@;
            this.args.push(args[i].to_owned());
            assert(args@.take(i + 1).map_values(|a: &str| a@) =~= args@.take(i as int).map_values(
                |a: &str| a@,
            ).push(args@[i as int]@));
            assert(string_views(this.args@) =~= string_views(before).push(args@[i as int]@));
            i = i + 1;
        }
        assert(args@.take(n as int) =~= args@);
        this
    }

    /// Set an environment variable for the command; variables are passed in
    /// the order they were set.
    pub fn env(self, key: &str, value: &str) -> (c: Self)
        ensures
            c@ == (CmdView { env: self@.env.push((key@, value@)), ..self@ }),
    {
        let mut this = self;
        let ghost before = this.env@;
        this.env.push((key.to_owned(), value.to_owned()));
        assert(pair_views(this.env@) =~= pair_views(before).push((key@, value@)));
        this
    }

    /// Provide data to pipe into the command's standard input, replacing any
    /// data given before.
    pub fn stdin(self, data: &str) -> (c: Self)
        ensures
            c@ == (CmdView { stdin: Some(data@), ..self@ }),
    {
        let mut this = self;
        this.stdin_data = Some(data.to_owned());
        this
    }

    /// Set the working directory for the command, replacing any set before.
    pub fn current_dir(self, dir: &str) -> (c: Self)
        ensures
            c@ == (CmdView { current_dir: Some(dir@), ..self@ }),
    {
        let mut this = self;
        this.current_dir = Some(dir.to_owned());
        this
    }

    /// Set a time limit for the command, replacing any set before. A process
    /// that runs longer is stopped and reported as timed out.
    pub fn timeout(self, duration: Duration) -> (c: Self)
        ensures
            c@ == (CmdView { timeout: Some(duration), ..self@ }),
    {
        let mut this = self;
        this.timeout = Some(duration);
        this
    }

    /// The program to run.
    pub fn get_program(&self) -> (r: &str)
        ensures
            r@ == self@.program,
    {
        self.program.as_str()
    }

    /// The arguments, in the order they are passed.
    pub fn get_args(&self) -> (r: &Vec<String>)
        ensures
            string_views(r@) == self@.args,
    {
        &self.args
    }

    /// The environment variables to set, in the order they were given.
    pub fn get_envs(&self) -> (r: &Vec<(String, String)>)
        ensures
            pair_views(r@) == self@.env,
    {
        &self.env
    }

    /// The text to pipe into standard input, if any.
    pub fn get_stdin(&self) -> (r: Option<&str>)
        ensures
            match r {
                Some(s) => self@.stdin == Some(s@),
                None => self@.stdin is None,
            },
    {
        match &self.stdin_data {
            Some(s) => Some(s.as_str()),
            None => None,
        }
    }

    /// The working directory, if one was set.
    pub fn get_current_dir(&self) -> (r: Option<&str>)
        ensures
            match r {
                Some(s) => self@.current_dir == Some(s@),
                None => self@.current_dir is None,
            },
    {
        match &self.current_dir {
            Some(s) => Some(s.as_str()),
            None => None,
        }
    }

    /// The time limit, if one was set.
    pub fn get_timeout(&self) -> (r: Option<Duration>)
        ensures
            r == self@.timeout,
    {
        self.timeout
    }
}

} // verus!
