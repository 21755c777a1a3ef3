//! Branches of a repository as `git branch -vv` and `git branch -al` report them.
use vstd::prelude::*;

use crate::error::Error;
use crate::exec::git::{git_cmd_spec, GitCmd};
use crate::exec::{check_spec, trimmed_stdout, Cmd, CmdResult};
use crate::text::{
    chars_of, contains, keep_some, lemma_keep_some_push, output_lines, owned, seq_contains,
    starts_with, starts_with_str, string_of, strs, trim, trim_start_matches, trim_start_matches_str,
    trim_str,
};

verus! {

/// How a local branch stands against its upstream.
#[derive(Debug, Clone, Copy, PartialEq, Eq, Structural)]
pub enum BranchStatus {
    Sync,
    Gone,
    Ahead,
    Behind,
    Conflict,
    Detached,
}

/// A local branch.
#[derive(Debug, Clone, PartialEq, Eq)]
pub struct Branch {
    pub name: String,
    pub status: BranchStatus,
    pub current: bool,
    pub commit_id: String,
    pub commit_message: String,
}

/// A page of branches to show.
pub struct BranchList {
    pub branches: Vec<Branch>,
    pub total: u32,
}

/// The fields of a branch: whether it is checked out, its name, commit id,
/// status and commit message.
pub type BranchFields = (bool, Seq<char>, Seq<char>, BranchStatus, Seq<char>);

impl View for Branch {
    type V = BranchFields;

    open spec fn view(&self) -> BranchFields {
        (self.current, self.name@, self.commit_id@, self.status, self.commit_message@)
    }
}

/// The first position at or after `i` that does not hold `c`.
pub open spec fn span_eq(s: Seq<char>, i: int, c: char) -> int
    decreases s.len() - i,
{
    if 0 <= i < s.len() && s[i] == c {
        span_eq(s, i + 1, c)
    } else {
        i
    }
}

/// The first position at or after `i` that holds `c` (or the end).
pub open spec fn span_ne(s: Seq<char>, i: int, c: char) -> int
    decreases s.len() - i,
{
    if 0 <= i < s.len() && s[i] != c {
        span_ne(s, i + 1, c)
    } else {
        i
    }
}

pub proof fn lemma_span_ne_ge(s: Seq<char>, i: int, c: char)
    ensures
        span_ne(s, i, c) >= i,
        0 <= i <= s.len() ==> span_ne(s, i, c) <= s.len(),
    decreases s.len() - i,
{
    if 0 <= i < s.len() && s[i] != c {
        lemma_span_ne_ge(s, i + 1, c);
    }
}

/// The run of bracketed groups `[...]` that starts at `i`: where it ends, and
/// the bounds of its last group.
pub open spec fn brackets(s: Seq<char>, i: int) -> (int, Option<(int, int)>)
    decreases s.len() - i,
{
    if 0 <= i < s.len() && s[i] == '[' {
        let j = span_ne(s, i + 1, ']');
        proof {
            lemma_span_ne_ge(s, i + 1, ']');
        }
        if j < s.len() {
            let (e, last) = brackets(s, j + 1);
            (e, if last is Some { last } else { Some((i, j + 1)) })
        } else {
            (i, None)
        }
    } else {
        (i, None)
    }
}

/// The status that the upstream description of `git branch -vv` gives.
pub open spec fn status_of(desc: Option<Seq<char>>) -> BranchStatus {
    match desc {
        None => BranchStatus::Detached,
        Some(d) => if contains(d, "gone"@) {
            BranchStatus::Gone
        } else if contains(d, "ahead"@) && contains(d, "behind"@) {
            BranchStatus::Conflict
        } else if contains(d, "ahead"@) {
            BranchStatus::Ahead
        } else if contains(d, "behind"@) {
            BranchStatus::Behind
        } else {
            BranchStatus::Sync
        },
    }
}

/// A line of `git branch -vv` read as the pattern
/// `^(\*)*[ ]*([^ ]*)[ ]*([^ ]*)[ ]*(\[[^\]]*\])*[ ]*(.*)$` reads it:
/// leading stars mark the current branch, then come the name, the commit id,
/// the bracketed upstream descriptions (the last one counts) and the message.
/// A line with a line break does not match.
pub open spec fn branch_line(s: Seq<char>) -> Option<BranchFields> {
    if s.contains('\n') {
        None
    } else {
        let a = span_eq(s, 0, '*');
        let b = span_eq(s, a, ' ');
        let c = span_ne(s, b, ' ');
        let d = span_eq(s, c, ' ');
        let e = span_ne(s, d, ' ');
        let f = span_eq(s, e, ' ');
        let g = brackets(s, f).0;
        let last = brackets(s, f).1;
        let h = span_eq(s, g, ' ');
        let desc = match last {
            Some(p) => Some(s.subrange(p.0, p.1)),
            None => None,
        };
        Some((a > 0, s.subrange(b, c), s.subrange(d, e), status_of(desc), s.subrange(h, s.len() as int)))
    }
}

/// Every line parsed, or the first failure.
pub open spec fn branch_lines(ls: Seq<Seq<char>>) -> Option<Seq<BranchFields>>
    decreases ls.len(),
{
    if ls.len() == 0 {
        Some(Seq::empty())
    } else {
        match (branch_lines(ls.drop_last()), branch_line(ls.last())) {
            (Some(bs), Some(b)) => Some(bs.push(b)),
            _ => None,
        }
    }
}

/// A line that fails to parse makes the whole list fail.
pub proof fn lemma_branch_lines_fail(ls: Seq<Seq<char>>, i: int)
    requires
        0 <= i < ls.len(),
        branch_line(ls[i]) is None,
    ensures
        branch_lines(ls) is None,
    decreases ls.len(),
{
    if i < ls.len() - 1 {
        assert(ls.drop_last()[i] == ls[i]);
        lemma_branch_lines_fail(ls.drop_last(), i);
    }
}

pub open spec fn views(bs: Seq<Branch>) -> Seq<BranchFields> {
    bs.map_values(|b: Branch| b@)
}

/// The remote branch that a line of `git branch -al` names, if it is a branch
/// of `origin` other than its `HEAD` pointer.
pub open spec fn remote_branch_of(line: Seq<char>) -> Option<Seq<char>> {
    if !starts_with(line, "remotes/"@) {
        None
    } else {
        let l = trim_start_matches(line, "remotes/"@);
        if !starts_with(l, "origin/"@) {
            None
        } else {
            let l2 = trim_start_matches(l, "origin/"@);
            if l2.len() == 0 || starts_with(l2, "HEAD ->"@) {
                None
            } else {
                Some(l2)
            }
        }
    }
}

/// The default branch that `git symbolic-ref refs/remotes/<remote>/HEAD` reports.
pub open spec fn symref_default(remote: Seq<char>, out: Seq<char>) -> Result<Seq<char>, Error> {
    let b = trim(trim_start_matches(out, "refs/remotes/"@ + remote + "/"@));
    if b.len() == 0 {
        Err(Error::EmptyRemoteDefaultBranch)
    } else {
        Ok(b)
    }
}

/// The default branch that the lines of `git remote show <remote>` report.
pub open spec fn show_default(lines: Seq<Seq<char>>) -> Result<Seq<char>, Error>
    decreases lines.len(),
{
    if lines.len() == 0 {
        Err(Error::NoRemoteShowDefaultBranch)
    } else if starts_with(lines[0], "HEAD branch:"@) {
        let b = trim(trim_start_matches(lines[0], "HEAD branch:"@));
        if b.len() == 0 {
            Err(Error::EmptyRemoteShowDefaultBranch)
        } else {
            Ok(b)
        }
    } else {
        show_default(lines.subrange(1, lines.len() as int))
    }
}

/// The answer of the symbolic ref decides the default branch when that
/// command succeeded; otherwise the remote's details are asked for.
pub open spec fn remote_default_spec(cmd: GitCmd, remote: Seq<char>, symref: CmdResult, r: RemoteDefault) -> bool {
    &&& check_spec(symref) is Ok ==> (r matches RemoteDefault::Found(f) && match (f, symref_default(remote, trimmed_stdout(symref))) {
        (Ok(b), Ok(s)) => b@ == s,
        (Err(e), Err(s)) => e == s,
        _ => false,
    })
    &&& check_spec(symref) is Err ==> (r matches RemoteDefault::AskRemote(c)
        && git_cmd_spec(cmd, seq!["remote"@, "show"@, remote], "Getting default branch by remote show"@, c))
}

/// What finding a remote's default branch takes next.
pub enum RemoteDefault {
    /// The symbolic ref answered.
    Found(Result<String, Error>),
    /// The symbolic ref failed; this command lists the remote's details.
    AskRemote(Cmd),
}

fn span_eq_exec(v: &Vec<char>, i: usize, c: char) -> (r: usize)
    requires
        i <= v.len(),
    ensures
        r as int == span_eq(v@, i as int, c),
        i <= r <= v.len(),
    decreases v.len() - i,
{
    if i < v.len() && v[i] == c {
        span_eq_exec(v, i + 1, c)
    } else {
        i
    }
}

fn span_ne_exec(v: &Vec<char>, i: usize, c: char) -> (r: usize)
    requires
        i <= v.len(),
    ensures
        r as int == span_ne(v@, i as int, c),
        i <= r <= v.len(),
    decreases v.len() - i,
{
    if i < v.len() && v[i] != c {
        span_ne_exec(v, i + 1, c)
    } else {
        i
    }
}

fn brackets_exec(v: &Vec<char>, i: usize) -> (r: (usize, Option<(usize, usize)>))
    requires
        i <= v.len(),
    ensures
        i <= r.0 <= v.len(),
        r.0 as int == brackets(v@, i as int).0,
        match (r.1, brackets(v@, i as int).1) {
            (None, None) => true,
            (Some(p), Some(q)) => p.0 as int == q.0 && p.1 as int == q.1 && p.0 <= p.1 <= v.len(),
            _ => false,
        },
    decreases v.len() - i,
{
    if i < v.len() && v[i] == '[' {
        let j = span_ne_exec(v, i + 1, ']');
        if j < v.len() {
            let (e, last) = brackets_exec(v, j + 1);
            let l = match last {
                Some(p) => Some(p),
                None => Some((i, j + 1)),
            };
            (e, l)
        } else {
            (i, None)
        }
    } else {
        (i, None)
    }
}

impl BranchStatus {
    /// The status that an upstream description gives.
    pub fn from_desc(desc: Option<&str>) -> (r: BranchStatus)
        ensures
            r == status_of(match desc {
                Some(d) => Some(d@),
                None => None,
            }),
    {
        match desc {
            None => BranchStatus::Detached,
            Some(d) => {
                let v = chars_of(d);
                let behind = seq_contains(&v, &chars_of("behind"));
                let ahead = seq_contains(&v, &chars_of("ahead"));
                if seq_contains(&v, &chars_of("gone")) {
                    BranchStatus::Gone
                } else if ahead && behind {
                    BranchStatus::Conflict
                } else if ahead {
                    BranchStatus::Ahead
                } else if behind {
                    BranchStatus::Behind
                } else {
                    BranchStatus::Sync
                }
            },
        }
    }
}

impl Branch {
    /// The command that lists local branches with their upstream state.
    pub fn list_cmd(cmd: &GitCmd) -> (c: Cmd)
        ensures
            git_cmd_spec(*cmd, seq!["branch"@, "-vv"@], "Listing git branch"@, c),
    {
        let a: &[&str] = &["branch", "-vv"];
        proof {
            assert(crate::exec::strs_of(a@) =~= seq!["branch"@, "-vv"@]);
        }
        cmd.cmd(a, "Listing git branch")
    }

    /// Reads a line of `git branch -vv`.
    pub fn parse(line: &str) -> (r: Result<Branch, Error>)
        ensures
            match branch_line(line@) {
                Some(f) => r matches Ok(b) && b@ == f,
                None => r == Err::<Branch, Error>(Error::InvalidBranchLine),
            },
    {
        let v = chars_of(line);
        if crate::text::contains_char(line, '\n') {
            return Err(Error::InvalidBranchLine);
        }
        let a = span_eq_exec(&v, 0, '*');
        let b = span_eq_exec(&v, a, ' ');
        let c = span_ne_exec(&v, b, ' ');
        let d = span_eq_exec(&v, c, ' ');
        let e = span_ne_exec(&v, d, ' ');
        let f = span_eq_exec(&v, e, ' ');
        let (g, last) = brackets_exec(&v, f);
        let h = span_eq_exec(&v, g, ' ');
        let status = match last {
            Some((p, q)) => {
                let desc = string_of(&v, p, q);
                BranchStatus::from_desc(Some(desc.as_str()))
            },
            None => BranchStatus::from_desc(None),
        };
        Ok(Branch {
            name: string_of(&v, b, c),
            status,
            current: a > 0,
            commit_id: string_of(&v, d, e),
            commit_message: string_of(&v, h, v.len()),
        })
    }

    /// The local branches that `git branch -vv` reported.
    pub fn list(result: &CmdResult) -> (r: Result<Vec<Branch>, Error>)
        ensures
            check_spec(*result) is Err ==> r == Err::<Vec<Branch>, Error>(check_spec(*result)->Err_0),
            check_spec(*result) is Ok ==> match branch_lines(output_lines(trimmed_stdout(*result))) {
                Some(bs) => r matches Ok(v) && views(v@) == bs,
                None => r == Err::<Vec<Branch>, Error>(Error::InvalidBranchLine),
            },
    {
        let lines = result.lines()?;
        let ghost ls = strs(lines@);
        let mut branches: Vec<Branch> = Vec::new();
        let mut i: usize = 0;
        assert(ls.take(0) =~= Seq::<Seq<char>>::empty());
        assert(views(branches@) =~= Seq::<BranchFields>::empty());
        while i < lines.len()
            invariant
                ls == strs(lines@),
                check_spec(*result) is Ok,
                ls == output_lines(trimmed_stdout(*result)),
                i <= lines.len(),
                branch_lines(ls.take(i as int)) == Some(views(branches@)),
            decreases lines.len() - i,
        {
            assert(ls.take(i + 1).drop_last() =~= ls.take(i as int));
            assert(ls.take(i + 1).last() == lines@[i as int]@);
            let b = match Branch::parse(lines[i].as_str()) {
                Ok(b) => b,
                Err(e) => {
                    proof {
                        lemma_branch_lines_fail(ls, i as int);
                    }
                    return Err(e);
                },
            };
            let ghost prev = branches@;
            branches.push(b);
            assert(views(branches@) =~= views(prev).push(b@));
            i += 1;
        }
        assert(ls.take(lines.len() as int) =~= ls);
        Ok(branches)
    }

    /// The command that lists all branches, remote ones included.
    pub fn list_remote_cmd(cmd: &GitCmd) -> (c: Cmd)
        ensures
            git_cmd_spec(*cmd, seq!["branch"@, "-al"@], "Listing git remote branch"@, c),
    {
        let a: &[&str] = &["branch", "-al"];
        proof {
            assert(crate::exec::strs_of(a@) =~= seq!["branch"@, "-al"@]);
        }
        cmd.cmd(a, "Listing git remote branch")
    }

    /// The branch of `origin` that a line of `git branch -al` names.
    pub fn remote_branch(line: &str) -> (r: Option<String>)
        ensures
            match remote_branch_of(line@) {
                Some(b) => r matches Some(s) && s@ == b,
                None => r is None,
            },
    {
        if !starts_with_str(line, "remotes/") {
            return None;
        }
        let l = trim_start_matches_str(line, "remotes/");
        if !starts_with_str(l.as_str(), "origin/") {
            return None;
        }
        let l2 = trim_start_matches_str(l.as_str(), "origin/");
        if l2.as_str().is_empty() || starts_with_str(l2.as_str(), "HEAD ->") {
            return None;
        }
        Some(l2)
    }

    /// The branches of `origin` that `git branch -al` reported.
    pub fn list_remote(result: &CmdResult) -> (r: Result<Vec<String>, Error>)
        ensures
            check_spec(*result) is Err ==> r == Err::<Vec<String>, Error>(check_spec(*result)->Err_0),
            check_spec(*result) is Ok ==> (r matches Ok(v) && strs(v@) == keep_some(
                output_lines(trimmed_stdout(*result)).map_values(|l: Seq<char>| remote_branch_of(l)),
            )),
    {
        let lines = result.lines()?;
        let ghost ls = strs(lines@).map_values(|l: Seq<char>| remote_branch_of(l));
        let mut branches: Vec<String> = Vec::new();
        let mut i: usize = 0;
        assert(ls.take(0) =~= Seq::<Option<Seq<char>>>::empty());
        assert(strs(branches@) =~= Seq::<Seq<char>>::empty());
        while i < lines.len()
            invariant
                ls == strs(lines@).map_values(|l: Seq<char>| remote_branch_of(l)),
                i <= lines.len(),
                strs(branches@) == keep_some(ls.take(i as int)),
            decreases lines.len() - i,
        {
            assert(ls.take(i + 1) =~= ls.take(i as int).push(remote_branch_of(lines@[i as int]@)));
            proof {
                lemma_keep_some_push(ls.take(i as int), remote_branch_of(lines@[i as int]@));
            }
            let ghost prev = branches@;
            match Branch::remote_branch(lines[i].as_str()) {
                Some(b) => {
                    branches.push(b);
                    assert(strs(branches@) =~= strs(prev).push(b@));
                },
                None => {},
            }
            i += 1;
        }
        assert(ls.take(lines.len() as int) =~= ls);
        Ok(branches)
    }

    /// The command that asks for the symbolic ref of a remote's `HEAD`.
    pub fn symref_cmd(cmd: &GitCmd, remote: &str) -> (c: Cmd)
        ensures
            git_cmd_spec(*cmd, seq!["symbolic-ref"@, "refs/remotes/"@ + remote@ + "/HEAD"@], "Getting default branch by symbolic-ref"@, c),
    {
        let head_ref = crate::text::concat("refs/remotes/", remote);
        let head_ref = crate::text::concat(head_ref.as_str(), "/HEAD");
        let a: &[&str] = &["symbolic-ref", head_ref.as_str()];
        proof {
            assert(crate::exec::strs_of(a@) =~= seq!["symbolic-ref"@, head_ref@]);
        }
        cmd.cmd(a, "Getting default branch by symbolic-ref")
    }

    /// The command that shows a remote's details.
    pub fn remote_show_cmd(cmd: &GitCmd, remote: &str) -> (c: Cmd)
        ensures
            git_cmd_spec(*cmd, seq!["remote"@, "show"@, remote@], "Getting default branch by remote show"@, c),
    {
        let a: &[&str] = &["remote", "show", remote];
        proof {
            assert(crate::exec::strs_of(a@) =~= seq!["remote"@, "show"@, remote@]);
        }
        cmd.cmd(a, "Getting default branch by remote show")
    }

    /// The default branch of `origin`, from the answer of its symbolic ref.
    pub fn default(cmd: &GitCmd, symref: &CmdResult) -> (r: RemoteDefault)
        ensures
            remote_default_spec(*cmd, "origin"@, *symref, r),
    {
        Branch::remote_default(cmd, "origin", symref)
    }

    /// The default branch of `remote`, from the answer of its symbolic ref; when
    /// that command failed, the command whose answer
    /// [`Branch::remote_default_from_show`] reads instead.
    pub fn remote_default(cmd: &GitCmd, remote: &str, symref: &CmdResult) -> (r: RemoteDefault)
        ensures
            remote_default_spec(*cmd, remote@, *symref, r),
    {
        match symref.output() {
            Ok(out) => {
                let prefix = crate::text::concat("refs/remotes/", remote);
                let prefix = crate::text::concat(prefix.as_str(), "/");
                let b = trim_start_matches_str(out.as_str(), prefix.as_str());
                let b = trim_str(b.as_str());
                if b.as_str().is_empty() {
                    RemoteDefault::Found(Err(Error::EmptyRemoteDefaultBranch))
                } else {
                    RemoteDefault::Found(Ok(b))
                }
            },
            Err(_) => RemoteDefault::AskRemote(Branch::remote_show_cmd(cmd, remote)),
        }
    }

    /// The default branch that `git remote show <remote>` reported.
    pub fn remote_default_from_show(result: &CmdResult) -> (r: Result<String, Error>)
        ensures
            check_spec(*result) is Err ==> r == Err::<String, Error>(check_spec(*result)->Err_0),
            check_spec(*result) is Ok ==> match (r, show_default(output_lines(trimmed_stdout(*result)))) {
                (Ok(b), Ok(s)) => b@ == s,
                (Err(e), Err(s)) => e == s,
                _ => false,
            },
    {
        let lines = result.lines()?;
        let ghost ls = strs(lines@);
        let mut i: usize = 0;
        assert(ls.subrange(0, ls.len() as int) =~= ls);
        while i < lines.len()
            invariant
                ls == strs(lines@),
                check_spec(*result) is Ok,
                ls == output_lines(trimmed_stdout(*result)),
                i <= lines.len(),
                show_default(ls.subrange(i as int, ls.len() as int)) == show_default(ls),
            decreases lines.len() - i,
        {
            let ghost rest = ls.subrange(i as int, ls.len() as int);
            assert(rest[0] == lines@[i as int]@);
            if starts_with_str(lines[i].as_str(), "HEAD branch:") {
                let b = trim_start_matches_str(lines[i].as_str(), "HEAD branch:");
                let b = trim_str(b.as_str());
                if b.as_str().is_empty() {
                    return Err(Error::EmptyRemoteShowDefaultBranch);
                }
                return Ok(b);
            }
            assert(rest.subrange(1, rest.len() as int) =~= ls.subrange(i + 1, ls.len() as int));
            i += 1;
        }
        Err(Error::NoRemoteShowDefaultBranch)
    }

    /// The command that names the checked-out branch.
    pub fn current_cmd(cmd: &GitCmd) -> (c: Cmd)
        ensures
            git_cmd_spec(*cmd, seq!["branch"@, "--show-current"@], "Getting current branch"@, c),
    {
        let a: &[&str] = &["branch", "--show-current"];
        proof {
            assert(crate::exec::strs_of(a@) =~= seq!["branch"@, "--show-current"@]);
        }
        cmd.cmd(a, "Getting current branch")
    }

    /// The checked-out branch that `git branch --show-current` reported.
    pub fn current(result: &CmdResult) -> (r: Result<String, Error>)
        ensures
            check_spec(*result) is Err ==> r == Err::<String, Error>(check_spec(*result)->Err_0),
            check_spec(*result) is Ok && trimmed_stdout(*result).len() == 0 ==> r == Err::<String, Error>(Error::EmptyCurrentBranch),
            check_spec(*result) is Ok && trimmed_stdout(*result).len() > 0 ==> (r matches Ok(b) && b@ == trimmed_stdout(*result)),
    {
        let branch = result.output()?;
        if branch.as_str().is_empty() {
            return Err(Error::EmptyCurrentBranch);
        }
        Ok(branch)
    }
}

/// How an upstream description decides a branch's status, by the words in
/// it: `gone` wins, then `ahead` with `behind` is a conflict, `ahead` alone
/// is ahead, `behind` alone is behind, neither is in sync; no description
/// at all is a detached branch.
pub proof fn law_status_words(d: Seq<char>)
    ensures
        status_of(None) == BranchStatus::Detached,
        contains(d, seq!['g', 'o', 'n', 'e']) ==> status_of(Some(d)) == BranchStatus::Gone,
        !contains(d, seq!['g', 'o', 'n', 'e']) && contains(d, seq!['a', 'h', 'e', 'a', 'd']) && contains(
            d,
            seq!['b', 'e', 'h', 'i', 'n', 'd'],
        ) ==> status_of(Some(d)) == BranchStatus::Conflict,
        !contains(d, seq!['g', 'o', 'n', 'e']) && contains(d, seq!['a', 'h', 'e', 'a', 'd']) && !contains(
            d,
            seq!['b', 'e', 'h', 'i', 'n', 'd'],
        ) ==> status_of(Some(d)) == BranchStatus::Ahead,
        !contains(d, seq!['g', 'o', 'n', 'e']) && !contains(d, seq!['a', 'h', 'e', 'a', 'd']) && contains(
            d,
            seq!['b', 'e', 'h', 'i', 'n', 'd'],
        ) ==> status_of(Some(d)) == BranchStatus::Behind,
        !contains(d, seq!['g', 'o', 'n', 'e']) && !contains(d, seq!['a', 'h', 'e', 'a', 'd']) && !contains(
            d,
            seq!['b', 'e', 'h', 'i', 'n', 'd'],
        ) ==> status_of(Some(d)) == BranchStatus::Sync,
{
    reveal_strlit("gone");
    reveal_strlit("ahead");
    reveal_strlit("behind");
    assert("gone"@ =~= seq!['g', 'o', 'n', 'e']);
    assert("ahead"@ =~= seq!['a', 'h', 'e', 'a', 'd']);
    assert("behind"@ =~= seq!['b', 'e', 'h', 'i', 'n', 'd']);
}

} // verus!
