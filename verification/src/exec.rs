//! Commands as values: what to run, with which arguments, environment, input and
//! hint, and how a finished command's result is judged and read.
//!
//! Running a [`Cmd`] is the caller's business; this module describes it and
//! interprets the [`CmdResult`] that running it produced.
pub mod bash;
pub mod fzf;
pub mod git;

use vstd::prelude::*;

use crate::error::{debug_quoted, debug_str, Error};
use crate::text::{
    chars_of, is_ws, join, join_strs, lead_ws, lemma_lead_ws, lemma_trail_ws, output_lines,
    output_lines_of, owned, strs, trail_ws, lemma_strs_push, trim, trim_end, trim_start, trim_str,
};

verus! {

/// The program and leading arguments of a configured command (`git`, `fzf`, `bash`).
#[derive(Debug, Clone, PartialEq, Eq)]
pub struct CmdConfig {
    pub name: String,
    pub args: Vec<String>,
}

/// How a command announces itself before it runs.
#[derive(Debug, Clone, PartialEq, Eq)]
pub enum CmdHint {
    /// Show the full command line.
    Raw,
    /// Show this message.
    Message(String),
    /// Show nothing and capture both output streams.
    Silent,
}

/// A command to run.
#[derive(Debug, Clone, PartialEq, Eq)]
pub struct Cmd {
    pub program: String,
    pub args: Vec<String>,
    pub envs: Vec<(String, String)>,
    pub dir: Option<String>,
    pub input: Option<String>,
    pub hint: CmdHint,
}

/// What a finished command gave back.
#[derive(Debug, Clone, PartialEq, Eq)]
pub struct CmdResult {
    pub name: String,
    pub code: i32,
    pub stdout: Option<String>,
    pub stderr: Option<String>,
}

/// Early exit without a message.
#[derive(Debug, Clone, Copy, PartialEq, Eq)]
pub struct SilentExit {
    pub code: u8,
}

pub open spec fn strs_of(a: Seq<&str>) -> Seq<Seq<char>> {
    a.map_values(|x: &str| x@)
}

/// Characters that a shell word may hold without quoting.
pub open spec fn is_standard_char(c: char) -> bool {
    ('a' <= c && c <= 'z') || ('A' <= c && c <= 'Z') || ('0' <= c && c <= '9') || c == '.' || c
        == '_' || c == '/' || c == '-'
}

/// The argument matches `^[a-zA-Z0-9._/-]+$`.
pub open spec fn is_standard_arg(s: Seq<char>) -> bool {
    s.len() > 0 && forall|i: int| 0 <= i < s.len() ==> is_standard_char(#[trigger] s[i])
}

/// An argument as the command line shows it: bare when standard, quoted otherwise.
pub open spec fn escaped_arg(s: Seq<char>) -> Seq<char> {
    if is_standard_arg(s) {
        s
    } else {
        debug_quoted(s)
    }
}

/// The command line shown for a program and its arguments.
pub open spec fn full_line(program: Seq<char>, args: Seq<Seq<char>>) -> Seq<char> {
    join(seq![program] + args.map_values(|a: Seq<char>| escaped_arg(a)), " "@)
}

/// The trimmed standard output of a result, empty when it was not captured.
pub open spec fn trimmed_stdout(r: CmdResult) -> Seq<char> {
    match r.stdout {
        Some(s) => trim(s@),
        None => Seq::empty(),
    }
}

/// The outcome of checking a result: success on code 0, otherwise an error
/// carrying the captured stderr, or a silent exit when stderr went to the terminal.
pub open spec fn check_spec(r: CmdResult) -> Result<(), Error> {
    if r.code == 0 {
        Ok(())
    } else {
        match r.stderr {
            Some(e) => Err(Error::BadExitCode(r.name, r.code, e)),
            None => Err(Error::SilentExit(130)),
        }
    }
}

impl CmdConfig {
    /// A command running this program with the configured arguments.
    pub fn new_cmd(&self) -> (c: Cmd)
        ensures
            c.program@ == self.name@,
            strs(c.args@) == strs(self.args@),
            c.envs@.len() == 0,
            c.dir is None,
            c.input is None,
            c.hint == CmdHint::Raw,
    {
        let mut c = Cmd::new(self.name.as_str());
        c.args = clone_strings(&self.args);
        c
    }
}

/// A copy of a list of strings.
pub fn clone_strings(v: &Vec<String>) -> (r: Vec<String>)
    ensures
        strs(r@) == strs(v@),
{
    let mut r: Vec<String> = Vec::new();
    let mut i: usize = 0;
    while i < v.len()
        invariant
            i <= v.len(),
            strs(r@) == strs(v@).take(i as int),
        decreases v.len() - i,
    {
        let ghost prev = r@;
        let x = v[i].clone();
        r.push(x);
        proof {
            lemma_strs_push(prev, x);
            assert(strs(v@).take(i + 1) =~= strs(v@).take(i as int).push(v@[i as int]@));
        }
        i += 1;
    }
    assert(strs(v@).take(v.len() as int) =~= strs(v@));
    r
}

/// Owned copies of string slices.
pub fn to_strings(a: &[&str]) -> (r: Vec<String>)
    ensures
        strs(r@) == strs_of(a@),
{
    let mut r: Vec<String> = Vec::new();
    let mut i: usize = 0;
    while i < a.len()
        invariant
            i <= a.len(),
            strs(r@) == strs_of(a@).take(i as int),
        decreases a.len() - i,
    {
        let ghost prev = r@;
        let x = owned(a[i]);
        r.push(x);
        proof {
            lemma_strs_push(prev, x);
            assert(strs_of(a@).take(i + 1) =~= strs_of(a@).take(i as int).push(a@[i as int]@));
        }
        i += 1;
    }
    assert(strs_of(a@).take(a.len() as int) =~= strs_of(a@));
    r
}

/// Appends copies of `extra` to `v`.
pub fn extend_strings(v: &mut Vec<String>, extra: &[&str])
    ensures
        strs(final(v)@) == strs(old(v)@) + strs_of(extra@),
{
    let mut i: usize = 0;
    while i < extra.len()
        invariant
            i <= extra.len(),
            strs(v@) == strs(old(v)@) + strs_of(extra@).take(i as int),
        decreases extra.len() - i,
    {
        let ghost prev = v@;
        let x = owned(extra[i]);
        v.push(x);
        proof {
            lemma_strs_push(prev, x);
            assert(strs_of(extra@).take(i + 1) =~= strs_of(extra@).take(i as int).push(extra@[i as int]@));
            assert(strs(v@) =~= strs(old(v)@) + strs_of(extra@).take(i + 1));
        }
        i += 1;
    }
    assert(strs_of(extra@).take(extra.len() as int) =~= strs_of(extra@));
}

/// Whether an argument can be shown without quoting.
pub fn is_arg_standard(arg: &str) -> (r: bool)
    ensures
        r == is_standard_arg(arg@),
{
    let v = chars_of(arg);
    if v.len() == 0 {
        return false;
    }
    let mut i: usize = 0;
    while i < v.len()
        invariant
            v@ == arg@,
            i <= v.len(),
            forall|j: int| 0 <= j < i ==> is_standard_char(#[trigger] v@[j]),
        decreases v.len() - i,
    {
        let c = v[i];
        if !(('a' <= c && c <= 'z') || ('A' <= c && c <= 'Z') || ('0' <= c && c <= '9') || c == '.'
            || c == '_' || c == '/' || c == '-') {
            return false;
        }
        i += 1;
    }
    true
}

/// An argument as the command line shows it.
pub fn get_escaped_arg(arg: &str) -> (r: String)
    ensures
        r@ == escaped_arg(arg@),
{
    if is_arg_standard(arg) {
        owned(arg)
    } else {
        debug_str(arg)
    }
}

impl Cmd {
    /// A command running `program` with no arguments, announced by its full line.
    pub fn new(program: &str) -> (c: Cmd)
        ensures
            c.program@ == program@,
            c.args@.len() == 0,
            c.envs@.len() == 0,
            c.dir is None,
            c.input is None,
            c.hint == CmdHint::Raw,
    {
        Cmd {
            program: owned(program),
            args: Vec::new(),
            envs: Vec::new(),
            dir: None,
            input: None,
            hint: CmdHint::Raw,
        }
    }

    /// Appends arguments.
    pub fn args(self, args: &[&str]) -> (c: Cmd)
        ensures
            strs(c.args@) == strs(self.args@) + strs_of(args@),
            c.program == self.program,
            c.envs == self.envs,
            c.dir == self.dir,
            c.input == self.input,
            c.hint == self.hint,
    {
        let mut c = self;
        extend_strings(&mut c.args, args);
        c
    }

    /// Runs silently, capturing both output streams.
    pub fn mute(self) -> (c: Cmd)
        ensures
            c == (Cmd { hint: CmdHint::Silent, ..self }),
    {
        Cmd { hint: CmdHint::Silent, ..self }
    }

    /// Announces the command with a message.
    pub fn message(self, message: &str) -> (c: Cmd)
        ensures
            c.hint matches CmdHint::Message(m) && m@ == message@,
            c.program == self.program,
            c.args == self.args,
            c.envs == self.envs,
            c.dir == self.dir,
            c.input == self.input,
    {
        Cmd { hint: CmdHint::Message(owned(message)), ..self }
    }

    /// Feeds `input` to the command's standard input.
    pub fn input(self, input: &str) -> (c: Cmd)
        ensures
            c.input matches Some(i) && i@ == input@,
            c.program == self.program,
            c.args == self.args,
            c.envs == self.envs,
            c.dir == self.dir,
            c.hint == self.hint,
    {
        Cmd { input: Some(owned(input)), ..self }
    }

    /// Runs the command in `dir`.
    pub fn current_dir(self, dir: &str) -> (c: Cmd)
        ensures
            c.dir matches Some(d) && d@ == dir@,
            c.program == self.program,
            c.args == self.args,
            c.envs == self.envs,
            c.input == self.input,
            c.hint == self.hint,
    {
        Cmd { dir: Some(owned(dir)), ..self }
    }

    /// Sets an environment variable for the command.
    pub fn env(self, key: &str, value: &str) -> (c: Cmd)
        ensures
            c.envs@.len() == self.envs@.len() + 1,
            c.envs@.drop_last() == self.envs@,
            c.envs@.last().0@ == key@,
            c.envs@.last().1@ == value@,
            c.program == self.program,
            c.args == self.args,
            c.dir == self.dir,
            c.input == self.input,
            c.hint == self.hint,
    {
        let mut c = self;
        c.envs.push((owned(key), owned(value)));
        assert(c.envs@.drop_last() =~= self.envs@);
        c
    }

    /// The command line as it is shown to the user.
    pub fn full(&self) -> (r: String)
        ensures
            r@ == full_line(self.program@, strs(self.args@)),
    {
        let mut parts: Vec<String> = Vec::new();
        parts.push(self.program.clone());
        let mut i: usize = 0;
        let ghost target = seq![self.program@] + strs(self.args@).map_values(|a: Seq<char>| escaped_arg(a));
        assert(strs(parts@) =~= target.take(1));
        while i < self.args.len()
            invariant
                i <= self.args.len(),
                target == seq![self.program@] + strs(self.args@).map_values(|a: Seq<char>| escaped_arg(a)),
                strs(parts@) == target.take(i + 1),
            decreases self.args.len() - i,
        {
            let e = get_escaped_arg(self.args[i].as_str());
            let ghost prev = parts@;
            parts.push(e);
            proof {
                lemma_strs_push(prev, e);
                assert(target[i + 1] == escaped_arg(self.args@[i as int]@));
                assert(target.take(i + 2) =~= target.take(i + 1).push(target[i + 1]));
            }
            i += 1;
        }
        assert(target.take(self.args.len() + 1) =~= target);
        join_strs(&parts, " ")
    }
}

impl CmdResult {
    /// Success on code 0; otherwise an error with the captured stderr, or a
    /// silent exit when stderr was shown on the terminal.
    pub fn check(&self) -> (r: Result<(), Error>)
        ensures
            r == check_spec(*self),
    {
        if self.code == 0 {
            return Ok(());
        }
        match &self.stderr {
            Some(stderr) => Err(Error::BadExitCode(self.name.clone(), self.code, stderr.clone())),
            None => Err(Error::SilentExit(130)),
        }
    }

    /// The trimmed standard output of a successful command.
    pub fn output(&self) -> (r: Result<String, Error>)
        ensures
            check_spec(*self) is Err ==> r == Err::<String, Error>(check_spec(*self)->Err_0),
            check_spec(*self) is Ok ==> (r matches Ok(o) && o@ == trimmed_stdout(*self)),
    {
        match self.check() {
            Err(e) => Err(e),
            Ok(()) => match &self.stdout {
                Some(s) => Ok(trim_str(s.as_str())),
                None => Ok(String::new()),
            },
        }
    }

    /// The non-empty, trimmed lines of the standard output of a successful command.
    pub fn lines(&self) -> (r: Result<Vec<String>, Error>)
        ensures
            check_spec(*self) is Err ==> r == Err::<Vec<String>, Error>(check_spec(*self)->Err_0),
            check_spec(*self) is Ok ==> (r matches Ok(ls) && strs(ls@) == output_lines(trimmed_stdout(*self))),
    {
        let out = self.output()?;
        let ls = output_lines_of(out.as_str());
        proof {
            lemma_trim_idempotent(out@);
        }
        Ok(ls)
    }
}

/// Trimming twice trims nothing more.
pub proof fn lemma_trim_idempotent(s: Seq<char>)
    ensures
        output_lines(trim(s)) == output_lines(s),
{
    crate::text::lemma_trim_twice(s);
}

} // verus!
