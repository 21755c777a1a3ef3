//! Terminal-side helpers: judging and reading command results, git commands
//! run with `-C <dir>`, confirmation answers, item editing, progress bars and
//! plain tables.
use vstd::prelude::*;

use crate::error::Error;
use crate::exec::fzf::position;
use crate::exec::{extend_strings, strs_of};
use crate::text::{
    concat, dec, dec_int, eq_str, i64_to_string, lemma_strs_push, nonempty_trimmed, output_lines,
    output_lines_of, owned, split_char, split_char_str, strs, trim, trim_str,
};

verus! {

/// What a finished command gave back. `display` is the command line when its
/// output was captured, `None` when it was shown on the terminal.
#[derive(Debug, Clone, PartialEq, Eq)]
pub struct CmdResult {
    pub code: Option<i32>,
    pub stdout: String,
    pub stderr: String,
    pub display: Option<String>,
}

/// A command to run: program, arguments and optional input.
#[derive(Debug, Clone, PartialEq, Eq)]
pub struct Cmd {
    pub program: String,
    pub args: Vec<String>,
    pub input: Option<String>,
}

/// `s` with line breaks turned into `; ` and single quotes dropped.
pub open spec fn no_break(s: Seq<char>) -> Seq<char>
    decreases s.len(),
{
    if s.len() == 0 {
        Seq::empty()
    } else {
        let r = no_break(s.drop_last());
        if s.last() == '\n' {
            r + "; "@
        } else if s.last() == '\'' {
            r
        } else {
            r.push(s.last())
        }
    }
}

/// Output as an error message shows it.
pub open spec fn trim_output_spec(s: Seq<char>, no_brk: bool) -> Seq<char> {
    if no_brk {
        no_break(trim(s))
    } else {
        trim(s)
    }
}

/// The message of a failed command whose output was captured.
pub open spec fn bad_code_message(r: CmdResult, name: Seq<char>) -> Seq<char> {
    "command `"@ + name + "` exited with bad code "@ + match r.code {
        Some(c) => dec_int(c as int),
        None => "<unknown>"@,
    } + if r.stdout@.len() > 0 {
        ", stdout: '"@ + trim_output_spec(r.stdout@, true) + "'"@
    } else {
        Seq::empty()
    } + if r.stderr@.len() > 0 {
        ", stderr: '"@ + trim_output_spec(r.stderr@, true) + "'"@
    } else {
        Seq::empty()
    }
}

/// The outcome of checking a result: success on code 0; a silent exit when the
/// command was shown on the terminal; otherwise a message with the captured output.
pub open spec fn term_check(r: CmdResult) -> Option<Seq<char>> {
    if r.code == Some(0i32) {
        None
    } else {
        match r.display {
            None => Some(Seq::empty()),
            Some(d) => Some(bad_code_message(r, d@)),
        }
    }
}

/// `r` is the error that `term_check` describes for `c`.
pub open spec fn is_check_error(c: CmdResult, e: Error) -> bool {
    match c.display {
        None => e == Error::SilentExit(130),
        Some(d) => e matches Error::Message(m) && m@ == bad_code_message(c, d@),
    }
}

impl CmdResult {
    /// Output as an error message shows it: trimmed, and with `no_break` on one line.
    pub fn trim_output(s: &str, no_brk: bool) -> (r: String)
        ensures
            r@ == trim_output_spec(s@, no_brk),
    {
        let t = trim_str(s);
        if !no_brk {
            return t;
        }
        let v = crate::text::chars_of(t.as_str());
        let mut r = String::new();
        let mut i: usize = 0;
        while i < v.len()
            invariant
                i <= v.len(),
                r@ == no_break(v@.take(i as int)),
            decreases v.len() - i,
        {
            assert(v@.take(i + 1).drop_last() =~= v@.take(i as int));
            let c = v[i];
            if c == '\n' {
                r.append("; ");
            } else if c != '\'' {
                crate::text::push_char(&mut r, c);
            }
            i += 1;
        }
        assert(v@.take(v.len() as int) =~= v@);
        r
    }

    /// Success on code 0, a silent exit when the command was shown on the
    /// terminal, otherwise an error with the command line and captured output.
    pub fn check(&self) -> (r: Result<(), Error>)
        ensures
            term_check(*self) is None <==> r is Ok,
            r matches Err(e) ==> is_check_error(*self, e),
    {
        if let Some(code) = self.code {
            if code == 0 {
                return Ok(());
            }
        }
        let cmd_name = match &self.display {
            None => return Err(Error::SilentExit(130)),
            Some(d) => d,
        };
        let code = match self.code {
            Some(code) => i64_to_string(code as i64),
            None => owned("<unknown>"),
        };
        let m = concat("command `", cmd_name.as_str());
        let m = concat(m.as_str(), "` exited with bad code ");
        let mut msg = concat(m.as_str(), code.as_str());
        let ghost m0 = msg@;
        if !self.stdout.as_str().is_empty() {
            msg.append(", stdout: '");
            let o = CmdResult::trim_output(self.stdout.as_str(), true);
            msg.append(o.as_str());
            msg.append("'");
        }
        let ghost m1 = msg@;
        if !self.stderr.as_str().is_empty() {
            msg.append(", stderr: '");
            let o = CmdResult::trim_output(self.stderr.as_str(), true);
            msg.append(o.as_str());
            msg.append("'");
        }
        assert(msg@ =~= bad_code_message(*self, cmd_name@));
        Err(Error::Message(msg))
    }

    /// The trimmed output of a successful command.
    pub fn read(&self) -> (r: Result<String, Error>)
        ensures
            term_check(*self) is None ==> (r matches Ok(o) && o@ == trim(self.stdout@)),
            term_check(*self) is Some ==> (r matches Err(e) && is_check_error(*self, e)),
    {
        self.check()?;
        Ok(CmdResult::trim_output(self.stdout.as_str(), false))
    }

    /// The non-empty, trimmed lines of the output of a successful command.
    pub fn lines(&self) -> (r: Result<Vec<String>, Error>)
        ensures
            term_check(*self) is None ==> (r matches Ok(ls) && strs(ls@) == output_lines(self.stdout@)),
            term_check(*self) is Some ==> (r matches Err(e) && is_check_error(*self, e)),
    {
        let out = self.read()?;
        let ls = output_lines_of(out.as_str());
        proof {
            crate::exec::lemma_trim_idempotent(self.stdout@);
        }
        Ok(ls)
    }
}

impl Cmd {
    /// A git command with these arguments, run in the current directory.
    pub fn git(args: &[&str]) -> (c: Cmd)
        ensures
            c.program@ == "git"@,
            strs(c.args@) == strs_of(args@),
            c.input is None,
    {
        Cmd { program: owned("git"), args: crate::exec::to_strings(args), input: None }
    }
}

/// Git run with `-C <dir>` when a directory is given.
pub struct GitCmd {
    pub prefix: Vec<String>,
}

impl GitCmd {
    /// Git working in `path` (in the current directory when `path` is empty).
    pub fn with_path(path: &str) -> (g: GitCmd)
        ensures
            path@.len() > 0 ==> strs(g.prefix@) == seq!["-C"@, path@],
            path@.len() == 0 ==> g.prefix@.len() == 0,
    {
        let mut prefix: Vec<String> = Vec::new();
        if !path.is_empty() {
            prefix.push(owned("-C"));
            prefix.push(owned(path));
            assert(strs(prefix@) =~= seq!["-C"@, path@]);
        }
        GitCmd { prefix }
    }

    /// The git command with these arguments after the directory prefix.
    pub fn command(&self, args: &[&str]) -> (c: Cmd)
        ensures
            c.program@ == "git"@,
            strs(c.args@) == strs(self.prefix@) + strs_of(args@),
            c.input is None,
    {
        let mut a = crate::exec::clone_strings(&self.prefix);
        extend_strings(&mut a, args);
        Cmd { program: owned("git"), args: a, input: None }
    }

    /// Judges a git command run for its effect.
    pub fn exec(&self, result: &CmdResult) -> (r: Result<(), Error>)
        ensures
            term_check(*result) is None <==> r is Ok,
            r matches Err(e) ==> is_check_error(*result, e),
    {
        result.check()
    }

    /// The lines that a git command printed.
    pub fn lines(&self, result: &CmdResult) -> (r: Result<Vec<String>, Error>)
        ensures
            term_check(*result) is None ==> (r matches Ok(ls) && strs(ls@) == output_lines(result.stdout@)),
            term_check(*result) is Some ==> (r matches Err(e) && is_check_error(*result, e)),
    {
        result.lines()
    }

    /// The trimmed output that a git command printed.
    pub fn read(&self, result: &CmdResult) -> (r: Result<String, Error>)
        ensures
            term_check(*result) is None ==> (r matches Ok(o) && o@ == trim(result.stdout@)),
            term_check(*result) is Some ==> (r matches Err(e) && is_check_error(*result, e)),
    {
        result.read()
    }

    /// The command that switches to a branch, tag or commit.
    pub fn checkout(&self, arg: &str) -> (c: Cmd)
        ensures
            c.program@ == "git"@,
            strs(c.args@) == strs(self.prefix@) + seq!["checkout"@, arg@],
    {
        let a: &[&str] = &["checkout", arg];
        assert(strs_of(a@) =~= seq!["checkout"@, arg@]);
        self.command(a)
    }
}

/// Width of the progress bar for a terminal of `term_size` columns.
pub open spec fn bar_size_spec(term_size: usize) -> usize {
    if term_size <= 20 {
        0
    } else {
        (term_size / 4) as usize
    }
}

/// Width of the progress bar for a terminal of `term_size` columns.
pub fn bar_size(term_size: usize) -> (r: usize)
    ensures
        r == bar_size_spec(term_size),
{
    if term_size <= 20 {
        0
    } else {
        term_size / 4
    }
}

/// Number of filled cells of a bar of `bar` cells at `current` out of `total`.
pub open spec fn filled_cells(current: usize, total: usize, bar: usize, scaled: u64) -> int {
    if current >= total {
        bar as int
    } else if scaled >= bar {
        bar as int
    } else {
        scaled as int
    }
}

/// `n` copies of `c`.
pub open spec fn repeat(c: char, n: int) -> Seq<char> {
    Seq::new(n as nat, |_i: int| c)
}

/// The bar: `[`, the filled part (`=`s ended by `>`), padding spaces, `]`.
pub open spec fn bar_text(filled: int, bar: int) -> Seq<char> {
    let f = if filled == 0 {
        Seq::empty()
    } else {
        repeat('=', filled - 1).push('>')
    };
    "["@ + f + repeat(' ', bar - filled) + "]"@
}

fn push_repeat(s: &mut String, c: char, n: usize)
    ensures
        final(s)@ == old(s)@ + repeat(c, n as int),
{
    let mut i: usize = 0;
    while i < n
        invariant
            i <= n,
            s@ == old(s)@ + repeat(c, i as int),
        decreases n - i,
    {
        crate::text::push_char(s, c);
        assert(old(s)@ + repeat(c, i + 1) =~= (old(s)@ + repeat(c, i as int)).push(c));
        i += 1;
    }
}

/// The progress bar of `bar` cells at `current` out of `total`: all cells
/// filled once `current` reaches `total`, else `scaled` of them (at most
/// `bar`), where `scaled` is `bar` times the share `current / total` as
/// floating-point arithmetic computes and truncates it (the caller computes
/// it; no float enters this library).
pub fn render_bar(current: usize, total: usize, bar: usize, scaled: u64) -> (r: String)
    ensures
        r@ == bar_text(filled_cells(current, total, bar, scaled), bar as int),
{
    let count: usize = if current >= total {
        bar
    } else if scaled >= bar as u64 {
        bar
    } else {
        scaled as usize
    };
    let mut r = owned("[");
    let ghost r0 = r@;
    if count > 0 {
        push_repeat(&mut r, '=', count - 1);
        crate::text::push_char(&mut r, '>');
    }
    push_repeat(&mut r, ' ', bar - count);
    r.append("]");
    assert(r@ =~= bar_text(count as int, bar as int));
    r
}

/// A confirmation answered no ends the program quietly.
pub fn must_confirm(confirmed: bool) -> (r: Result<(), Error>)
    ensures
        confirmed ==> r is Ok,
        !confirmed ==> r == Err::<(), Error>(Error::SilentExit(60)),
{
    if !confirmed {
        return Err(Error::SilentExit(60));
    }
    Ok(())
}

/// Confirming an action on items: there is nothing to do without items, and a
/// no ends the program quietly.
pub fn must_confirm_items(items: &[String], confirmed: bool) -> (r: Result<(), Error>)
    ensures
        items@.len() > 0 && confirmed ==> r is Ok,
        items@.len() == 0 || !confirmed ==> r == Err::<(), Error>(Error::SilentExit(60)),
{
    if items.len() == 0 || !confirmed {
        return Err(Error::SilentExit(60));
    }
    Ok(())
}

/// The text handed to the editor: one item per line.
pub fn edit_items_content(items: &Vec<String>) -> (r: String)
    ensures
        r@ == crate::text::join(strs(items@), "\n"@),
{
    crate::text::join_strs(items, "\n")
}

/// The items that the edited text holds: its lines, trimmed, without empty ones.
pub open spec fn edited_items(lines: Seq<Seq<char>>) -> Seq<Seq<char>>
    decreases lines.len(),
{
    if lines.len() == 0 {
        Seq::empty()
    } else {
        let r = edited_items(lines.drop_last());
        if trim(lines.last()).len() > 0 {
            r.push(trim(lines.last()))
        } else {
            r
        }
    }
}

/// The items that the edited text holds: its lines, trimmed, without empty ones.
pub fn edit_items(content: &str) -> (r: Vec<String>)
    ensures
        strs(r@) == edited_items(split_char(content@, '\n')),
{
    let pieces = split_char_str(content, '\n');
    let mut r: Vec<String> = Vec::new();
    let mut i: usize = 0;
    assert(strs(pieces@).take(0) =~= Seq::<Seq<char>>::empty());
    assert(strs(r@) =~= Seq::<Seq<char>>::empty());
    while i < pieces.len()
        invariant
            i <= pieces.len(),
            strs(r@) == edited_items(strs(pieces@).take(i as int)),
        decreases pieces.len() - i,
    {
        assert(strs(pieces@).take(i + 1).drop_last() =~= strs(pieces@).take(i as int));
        let t = trim_str(pieces[i].as_str());
        if !t.as_str().is_empty() {
            let ghost prev = r@;
            r.push(t);
            proof {
                lemma_strs_push(prev, t);
            }
        }
        i += 1;
    }
    assert(strs(pieces@).take(pieces.len() as int) =~= strs(pieces@));
    r
}

/// The command that runs fzf on the keys, one per line.
pub fn fzf_cmd(keys: &[&str]) -> (c: Cmd)
    ensures
        c.program@ == "fzf"@,
        c.args@.len() == 0,
        c.input matches Some(i) && i@ == crate::exec::fzf::fzf_input(strs_of(keys@)),
{
    let mut input = String::new();
    let mut i: usize = 0;
    while i < keys.len()
        invariant
            i <= keys.len(),
            input@ == crate::exec::fzf::fzf_input(strs_of(keys@).take(i as int)),
        decreases keys.len() - i,
    {
        assert(strs_of(keys@).take(i + 1).drop_last() =~= strs_of(keys@).take(i as int));
        input.append(keys[i]);
        input.append("\n");
        i += 1;
    }
    assert(strs_of(keys@).take(keys.len() as int) =~= strs_of(keys@));
    Cmd { program: owned("fzf"), args: Vec::new(), input: Some(input) }
}

/// The error that an exit of fzf other than 0 stands for.
pub open spec fn fzf_exit_error(code: Option<i32>) -> Error {
    match code {
        Some(c) => if c == 1 {
            Error::FzfNoMatch
        } else if c == 2 {
            Error::FzfReturnedAnError
        } else if c == 130 {
            Error::SilentExit(130)
        } else if 128 <= c <= 254 {
            Error::FzfWasTerminated
        } else {
            Error::FzfUnknownError
        },
        None => Error::FzfWasTerminated,
    }
}

/// The index of the key that the user picked, from fzf's answer.
pub fn fzf_search(keys: &[&str], result: &CmdResult) -> (r: Result<usize, Error>)
    ensures
        result.code == Some(0i32) ==> match position(strs_of(keys@), trim(result.stdout@)) {
            Some(i) => r == Ok::<usize, Error>(i as usize),
            None => r matches Err(Error::FzfKeyNotFound(k)) && k@ == trim(result.stdout@),
        },
        result.code != Some(0i32) ==> r == Err::<usize, Error>(fzf_exit_error(result.code)),
{
    match result.code {
        Some(0) => {
            let output = trim_str(result.stdout.as_str());
            let ghost its = strs_of(keys@);
            let mut i: usize = 0;
            assert(its.subrange(0, its.len() as int) =~= its);
            while i < keys.len()
                invariant
                    its == strs_of(keys@),
                    i <= keys.len(),
                    result.code == Some(0i32),
                    output@ == trim(result.stdout@),
                    position(its, output@) == match position(its.subrange(i as int, its.len() as int), output@) {
                        Some(k) => Some(k + i),
                        None => None,
                    },
                decreases keys.len() - i,
            {
                let ghost rest = its.subrange(i as int, its.len() as int);
                assert(rest[0] == keys@[i as int]@);
                if eq_str(keys[i], output.as_str()) {
                    return Ok(i);
                }
                assert(rest.subrange(1, rest.len() as int) =~= its.subrange(i + 1, its.len() as int));
                i += 1;
            }
            Err(Error::FzfKeyNotFound(output))
        },
        Some(1) => Err(Error::FzfNoMatch),
        Some(2) => Err(Error::FzfReturnedAnError),
        Some(130) => Err(Error::SilentExit(130)),
        Some(128..=254) | None => Err(Error::FzfWasTerminated),
        _ => Err(Error::FzfUnknownError),
    }
}

/// Fails when `git status -s` printed any uncommitted change.
pub fn ensure_no_uncommitted(result: &CmdResult) -> (r: Result<(), Error>)
    ensures
        term_check(*result) is Some ==> (r matches Err(e) && is_check_error(*result, e)),
        term_check(*result) is None && output_lines(result.stdout@).len() == 0 ==> r is Ok,
        term_check(*result) is None && output_lines(result.stdout@).len() > 0 ==> r == Err::<(), Error>(
            Error::UncommittedToHandle(output_lines(result.stdout@).len() as u64),
        ),
{
    let lines = result.lines()?;
    if lines.len() > 0 {
        return Err(Error::UncommittedToHandle(lines.len() as u64));
    }
    Ok(())
}

/// A plain table of rows with the same number of columns.
pub struct Table {
    pub ncol: usize,
    pub rows: Vec<Vec<String>>,
}

impl Table {
    /// Every row has `ncol` cells, and `ncol` is set once there is a row.
    pub open spec fn wf(&self) -> bool {
        &&& (self.rows@.len() > 0 ==> self.ncol > 0)
        &&& forall|i: int| 0 <= i < self.rows@.len() ==> (#[trigger] self.rows@[i])@.len() == self.ncol
    }

    pub fn with_capacity(size: usize) -> (t: Table)
        ensures
            t.ncol == 0,
            t.rows@.len() == 0,
            t.wf(),
    {
        Table { ncol: 0, rows: Vec::with_capacity(size) }
    }

    /// Adds a row; the first row fixes the number of columns.
    pub fn add(&mut self, row: Vec<String>)
        requires
            old(self).wf(),
            row@.len() > 0,
            old(self).ncol == 0 || row@.len() == old(self).ncol,
        ensures
            final(self).wf(),
            final(self).rows@ == old(self).rows@.push(row),
            final(self).ncol == row@.len(),
    {
        if self.ncol == 0 {
            self.ncol = row.len();
        }
        self.rows.push(row);
    }
}

} // verus!
