//! Git branches, remotes and tags of the current repository, read from the
//! output of git commands run through [`crate::term`].
use vstd::prelude::*;

use crate::error::Error;
use crate::exec::git::branch::{branch_line, Branch, BranchStatus};
use crate::exec::strs_of;
use crate::term::{is_check_error, term_check, Cmd, CmdResult};
use crate::text::{
    all_digits, chars_of, concat, dec_int, digits_value, eq_str, join, join_strs, keep_some,
    lemma_keep_some_push, lemma_strs_push, output_lines, owned, split_whitespace, starts_with,
    starts_with_str, strip_prefix_str, string_of, strs, trim, trim_str, words,
};

verus! {

/// A local branch and its state.
#[derive(Debug, PartialEq, Eq)]
pub struct GitBranch {
    pub name: String,
    pub status: BranchStatus,
    pub current: bool,
}

/// A git remote, by name.
pub struct GitRemote(pub String);

/// A git tag, by name.
pub struct GitTag(pub String);

/// The name, status and current flag that a line of `git branch -vv` gives.
pub open spec fn git_branch_line(line: Seq<char>) -> Option<(Seq<char>, BranchStatus, bool)> {
    match branch_line(line) {
        Some(f) => Some((trim(f.1), f.3, f.0)),
        None => None,
    }
}

pub open spec fn git_branch_view(b: GitBranch) -> (Seq<char>, BranchStatus, bool) {
    (b.name@, b.status, b.current)
}

pub open spec fn git_branch_lines(ls: Seq<Seq<char>>) -> Option<Seq<(Seq<char>, BranchStatus, bool)>>
    decreases ls.len(),
{
    if ls.len() == 0 {
        Some(Seq::empty())
    } else {
        match (git_branch_lines(ls.drop_last()), git_branch_line(ls.last())) {
            (Some(bs), Some(b)) => Some(bs.push(b)),
            _ => None,
        }
    }
}

/// The branch of `remote` that a (trimmed) line of `git branch -al` names.
pub open spec fn remote_item(line: Seq<char>, remote: Seq<char>) -> Option<Seq<char>> {
    let l = trim(line);
    let p = remote + "/"@;
    if l.len() == 0 || !starts_with(l, "remotes/"@) {
        None
    } else {
        let item = l.subrange(8, l.len() as int);
        if !starts_with(item, p) {
            None
        } else {
            let b = trim(item.subrange(p.len() as int, item.len() as int));
            if b.len() == 0 || starts_with(b, "HEAD ->"@) {
                None
            } else {
                Some(b)
            }
        }
    }
}

/// The branch name that a line of `git branch` gives (without the `*` marker).
pub open spec fn local_name(line: Seq<char>) -> Option<Seq<char>> {
    let l = trim(line);
    if l.len() == 0 {
        None
    } else if starts_with(l, "*"@) {
        Some(trim(l.subrange(1, l.len() as int)))
    } else {
        Some(l)
    }
}

/// The items not in `local`, in order.
pub open spec fn not_local(items: Seq<Seq<char>>, local: Seq<Seq<char>>) -> Seq<Seq<char>>
    decreases items.len(),
{
    if items.len() == 0 {
        Seq::empty()
    } else {
        let r = not_local(items.drop_last(), local);
        if local.contains(items.last()) {
            r
        } else {
            r.push(items.last())
        }
    }
}

/// The default branch that the lines of `git remote show` report.
pub open spec fn parse_default_spec(lines: Seq<Seq<char>>) -> Option<Seq<char>>
    decreases lines.len(),
{
    if lines.len() == 0 {
        None
    } else if starts_with(trim(lines[0]), "HEAD branch:"@) {
        Some(trim(trim(lines[0]).subrange(12, trim(lines[0]).len() as int)))
    } else {
        parse_default_spec(lines.subrange(1, lines.len() as int))
    }
}

/// What finding a remote's default branch takes next.
pub enum DefaultBranch {
    /// The symbolic ref answered.
    Found(Result<String, Error>),
    /// The symbolic ref failed; this command lists the remote's details, whose
    /// lines [`GitBranch::parse_default_branch`] reads.
    AskRemote(Cmd),
}

impl GitBranch {
    /// The command that lists local branches with their upstream state.
    pub fn list_cmd() -> (c: Cmd)
        ensures
            c.program@ == "git"@,
            strs(c.args@) == seq!["branch"@, "-vv"@],
    {
        let a: &[&str] = &["branch", "-vv"];
        assert(strs_of(a@) =~= seq!["branch"@, "-vv"@]);
        Cmd::git(a)
    }

    /// Reads a line of `git branch -vv`.
    pub fn parse(line: &str) -> (r: Result<GitBranch, Error>)
        ensures
            match git_branch_line(line@) {
                Some(f) => r matches Ok(b) && git_branch_view(b) == f,
                None => r matches Err(Error::InvalidBranchDescription(l)) && l@ == line@,
            },
    {
        match Branch::parse(line) {
            Ok(b) => Ok(GitBranch { name: trim_str(b.name.as_str()), status: b.status, current: b.current }),
            Err(_) => Err(Error::InvalidBranchDescription(owned(line))),
        }
    }

    /// The local branches that `git branch -vv` printed.
    pub fn list(result: &CmdResult) -> (r: Result<Vec<GitBranch>, Error>)
        ensures
            term_check(*result) is Some ==> (r matches Err(e) && is_check_error(*result, e)),
            term_check(*result) is None ==> match git_branch_lines(output_lines(result.stdout@)) {
                Some(bs) => r matches Ok(v) && v@.map_values(|b: GitBranch| git_branch_view(b)) == bs,
                None => r matches Err(Error::InvalidBranchDescription(_)),
            },
    {
        let lines = result.lines()?;
        let ghost ls = strs(lines@);
        let mut branches: Vec<GitBranch> = Vec::new();
        let mut i: usize = 0;
        assert(ls.take(0) =~= Seq::<Seq<char>>::empty());
        assert(branches@.map_values(|b: GitBranch| git_branch_view(b)) =~= Seq::<(Seq<char>, BranchStatus, bool)>::empty());
        while i < lines.len()
            invariant
                ls == strs(lines@),
                term_check(*result) is None,
                ls == output_lines(result.stdout@),
                i <= lines.len(),
                git_branch_lines(ls.take(i as int)) == Some(branches@.map_values(|b: GitBranch| git_branch_view(b))),
            decreases lines.len() - i,
        {
            assert(ls.take(i + 1).drop_last() =~= ls.take(i as int));
            assert(ls.take(i + 1).last() == lines@[i as int]@);
            let b = match GitBranch::parse(lines[i].as_str()) {
                Ok(b) => b,
                Err(e) => {
                    proof {
                        lemma_git_branch_lines_fail(ls, i as int);
                    }
                    return Err(e);
                },
            };
            let ghost prev = branches@;
            let ghost bv = git_branch_view(b);
            branches.push(b);
            assert(branches@.map_values(|b: GitBranch| git_branch_view(b)) =~= prev.map_values(|b: GitBranch| git_branch_view(b)).push(bv));
            i += 1;
        }
        assert(ls.take(lines.len() as int) =~= ls);
        Ok(branches)
    }

    /// The branches of `remote` that `git branch -al` printed, without those
    /// that `git branch` lists as local.
    pub fn list_remote(remote: &str, all: &CmdResult, local: &CmdResult) -> (r: Result<Vec<String>, Error>)
        ensures
            term_check(*all) is Some ==> (r matches Err(e) && is_check_error(*all, e)),
            term_check(*all) is None && term_check(*local) is Some ==> (r matches Err(e) && is_check_error(*local, e)),
            term_check(*all) is None && term_check(*local) is None ==> (r matches Ok(v) && strs(v@) == not_local(
                keep_some(output_lines(all.stdout@).map_values(|l: Seq<char>| remote_item(l, remote@))),
                keep_some(output_lines(local.stdout@).map_values(|l: Seq<char>| local_name(l))),
            )),
    {
        let lines = all.lines()?;
        let ghost ls = strs(lines@).map_values(|l: Seq<char>| remote_item(l, remote@));
        let mut items: Vec<String> = Vec::new();
        let mut i: usize = 0;
        assert(ls.take(0) =~= Seq::<Option<Seq<char>>>::empty());
        assert(strs(items@) =~= Seq::<Seq<char>>::empty());
        while i < lines.len()
            invariant
                ls == strs(lines@).map_values(|l: Seq<char>| remote_item(l, remote@)),
                i <= lines.len(),
                strs(items@) == keep_some(ls.take(i as int)),
            decreases lines.len() - i,
        {
            assert(ls.take(i + 1) =~= ls.take(i as int).push(remote_item(lines@[i as int]@, remote@)));
            proof {
                lemma_keep_some_push(ls.take(i as int), remote_item(lines@[i as int]@, remote@));
            }
            let ghost prev = items@;
            match GitBranch::remote_item(lines[i].as_str(), remote) {
                Some(b) => {
                    items.push(b);
                    assert(strs(items@) =~= strs(prev).push(b@));
                },
                None => {},
            }
            i += 1;
        }
        assert(ls.take(lines.len() as int) =~= ls);
        let locals = local.lines()?;
        let ghost lm = strs(locals@).map_values(|l: Seq<char>| local_name(l));
        let mut names: Vec<String> = Vec::new();
        let mut k: usize = 0;
        assert(lm.take(0) =~= Seq::<Option<Seq<char>>>::empty());
        assert(strs(names@) =~= Seq::<Seq<char>>::empty());
        while k < locals.len()
            invariant
                lm == strs(locals@).map_values(|l: Seq<char>| local_name(l)),
                k <= locals.len(),
                strs(names@) == keep_some(lm.take(k as int)),
            decreases locals.len() - k,
        {
            assert(lm.take(k + 1) =~= lm.take(k as int).push(local_name(locals@[k as int]@)));
            proof {
                lemma_keep_some_push(lm.take(k as int), local_name(locals@[k as int]@));
            }
            let ghost prev = names@;
            match GitBranch::local_branch(locals[k].as_str()) {
                Some(b) => {
                    names.push(b);
                    assert(strs(names@) =~= strs(prev).push(b@));
                },
                None => {},
            }
            k += 1;
        }
        assert(lm.take(locals.len() as int) =~= lm);
        let ghost is = strs(items@);
        let ghost ns = strs(names@);
        let mut result: Vec<String> = Vec::new();
        let mut j: usize = 0;
        assert(is.take(0) =~= Seq::<Seq<char>>::empty());
        assert(strs(result@) =~= Seq::<Seq<char>>::empty());
        while j < items.len()
            invariant
                is == strs(items@),
                ns == strs(names@),
                j <= items.len(),
                strs(result@) == not_local(is.take(j as int), ns),
            decreases items.len() - j,
        {
            assert(is.take(j + 1).drop_last() =~= is.take(j as int));
            assert(is.take(j + 1).last() == items@[j as int]@);
            if !contains_string(&names, items[j].as_str()) {
                let ghost prev = result@;
                let x = items[j].clone();
                result.push(x);
                proof {
                    lemma_strs_push(prev, x);
                }
            }
            j += 1;
        }
        assert(is.take(items.len() as int) =~= is);
        Ok(result)
    }

    /// The branch of `remote` that a line of `git branch -al` names.
    fn remote_item(line: &str, remote: &str) -> (r: Option<String>)
        ensures
            match remote_item(line@, remote@) {
                Some(b) => r matches Some(s) && s@ == b,
                None => r is None,
            },
    {
        proof {
            reveal_strlit("remotes/");
        }
        let prefix = concat(remote, "/");
        let l = trim_str(line);
        if l.as_str().is_empty() {
            return None;
        }
        let item = match strip_prefix_str(l.as_str(), "remotes/") {
            Some(x) => x,
            None => return None,
        };
        let rest = match strip_prefix_str(item.as_str(), prefix.as_str()) {
            Some(x) => x,
            None => return None,
        };
        let b = trim_str(rest.as_str());
        if b.as_str().is_empty() || starts_with_str(b.as_str(), "HEAD ->") {
            return None;
        }
        Some(b)
    }

    /// The branch name that a line of `git branch` gives.
    fn local_branch(line: &str) -> (r: Option<String>)
        ensures
            match local_name(line@) {
                Some(b) => r matches Some(s) && s@ == b,
                None => r is None,
            },
    {
        proof {
            reveal_strlit("*");
        }
        let l = trim_str(line);
        if l.as_str().is_empty() {
            return None;
        }
        match strip_prefix_str(l.as_str(), "*") {
            Some(x) => Some(trim_str(x.as_str())),
            None => Some(l),
        }
    }

    /// The default branch of `origin`, from the answer of its symbolic ref.
    pub fn default(symref: &CmdResult) -> (r: DefaultBranch)
        ensures
            default_branch_spec("origin"@, *symref, r),
    {
        GitBranch::default_by_remote("origin", symref)
    }

    /// The default branch of `remote`, from the answer of its symbolic ref; when
    /// that command failed, the command to ask the remote instead.
    pub fn default_by_remote(remote: &str, symref: &CmdResult) -> (r: DefaultBranch)
        ensures
            default_branch_spec(remote@, *symref, r),
    {
        match symref.read() {
            Ok(out) => {
                if out.as_str().is_empty() {
                    return DefaultBranch::Found(Err(Error::EmptyDefaultBranch));
                }
                let remote_ref = concat("refs/remotes/", remote);
                let remote_ref = concat(remote_ref.as_str(), "/");
                match strip_prefix_str(out.as_str(), remote_ref.as_str()) {
                    Some(s) => DefaultBranch::Found(Ok(s)),
                    None => DefaultBranch::Found(Err(Error::InvalidRef(out))),
                }
            },
            Err(_) => {
                let a: &[&str] = &["remote", "show", remote];
                assert(strs_of(a@) =~= seq!["remote"@, "show"@, remote@]);
                DefaultBranch::AskRemote(Cmd::git(a))
            },
        }
    }

    /// The default branch that the lines of `git remote show` report.
    pub fn parse_default_branch(lines: &Vec<String>) -> (r: Result<String, Error>)
        ensures
            match parse_default_spec(strs(lines@)) {
                Some(b) => if b.len() == 0 {
                    r == Err::<String, Error>(Error::EmptyRemoteShowDefault)
                } else {
                    r matches Ok(s) && s@ == b
                },
                None => r == Err::<String, Error>(Error::NoRemoteShowDefault),
            },
    {
        proof {
            reveal_strlit("HEAD branch:");
        }
        let ghost ls = strs(lines@);
        let mut i: usize = 0;
        assert(ls.subrange(0, ls.len() as int) =~= ls);
        while i < lines.len()
            invariant
                ls == strs(lines@),
                i <= lines.len(),
                parse_default_spec(ls.subrange(i as int, ls.len() as int)) == parse_default_spec(ls),
            decreases lines.len() - i,
        {
            proof {
                reveal_strlit("HEAD branch:");
            }
            let ghost rest = ls.subrange(i as int, ls.len() as int);
            assert(rest[0] == lines@[i as int]@);
            let t = trim_str(lines[i].as_str());
            if let Some(b) = strip_prefix_str(t.as_str(), "HEAD branch:") {
                let b = trim_str(b.as_str());
                if b.as_str().is_empty() {
                    return Err(Error::EmptyRemoteShowDefault);
                }
                return Ok(b);
            }
            assert(rest.subrange(1, rest.len() as int) =~= ls.subrange(i + 1, ls.len() as int));
            i += 1;
        }
        Err(Error::NoRemoteShowDefault)
    }

    /// The checked-out branch that `git branch --show-current` printed.
    pub fn current(result: &CmdResult) -> (r: Result<String, Error>)
        ensures
            term_check(*result) is None ==> (r matches Ok(o) && o@ == trim(result.stdout@)),
            term_check(*result) is Some ==> (r matches Err(e) && is_check_error(*result, e)),
    {
        result.read()
    }
}

/// The symbolic ref decides when it answered: a non-empty output must start
/// with `refs/remotes/<remote>/`; otherwise the remote is asked.
pub open spec fn default_branch_spec(remote: Seq<char>, symref: CmdResult, r: DefaultBranch) -> bool {
    let out = trim(symref.stdout@);
    let p = "refs/remotes/"@ + remote + "/"@;
    &&& term_check(symref) is None && out.len() == 0 ==> (r matches DefaultBranch::Found(f) && f == Err::<String, Error>(Error::EmptyDefaultBranch))
    &&& term_check(symref) is None && out.len() > 0 && starts_with(out, p) ==> (r matches DefaultBranch::Found(f)
        && f matches Ok(b) && b@ == out.subrange(p.len() as int, out.len() as int))
    &&& term_check(symref) is None && out.len() > 0 && !starts_with(out, p) ==> (r matches DefaultBranch::Found(f)
        && f matches Err(Error::InvalidRef(o)) && o@ == out)
    &&& term_check(symref) is Some ==> (r matches DefaultBranch::AskRemote(c) && c.program@ == "git"@
        && strs(c.args@) == seq!["remote"@, "show"@, remote])
}

pub proof fn lemma_git_branch_lines_fail(ls: Seq<Seq<char>>, i: int)
    requires
        0 <= i < ls.len(),
        git_branch_line(ls[i]) is None,
    ensures
        git_branch_lines(ls) is None,
    decreases ls.len(),
{
    if i < ls.len() - 1 {
        assert(ls.drop_last()[i] == ls[i]);
        lemma_git_branch_lines_fail(ls.drop_last(), i);
    }
}

/// Whether `s` is one of the strings of `v`.
pub fn contains_string(v: &Vec<String>, s: &str) -> (r: bool)
    ensures
        r == strs(v@).contains(s@),
{
    let mut i: usize = 0;
    while i < v.len()
        invariant
            i <= v.len(),
            forall|j: int| 0 <= j < i ==> strs(v@)[j] != s@,
        decreases v.len() - i,
    {
        if eq_str(v[i].as_str(), s) {
            assert(strs(v@)[i as int] == s@);
            return true;
        }
        i += 1;
    }
    false
}

/// The commit message that a line of `git log --left-right --oneline` of the
/// current side gives: the words after the commit id.
pub open spec fn legacy_commit(line: Seq<char>) -> Option<Seq<char>> {
    if !starts_with(line, "<"@) {
        None
    } else {
        let w = words(line.subrange(1, line.len() as int));
        Some(join(if w.len() == 0 { w } else { w.subrange(1, w.len() as int) }, " "@))
    }
}

impl GitRemote {
    /// The remotes that `git remote` printed.
    pub fn list(result: &CmdResult) -> (r: Result<Vec<GitRemote>, Error>)
        ensures
            term_check(*result) is Some ==> (r matches Err(e) && is_check_error(*result, e)),
            term_check(*result) is None ==> (r matches Ok(v) && v@.map_values(|x: GitRemote| x.0@) == output_lines(result.stdout@)),
    {
        let lines = result.lines()?;
        let mut remotes: Vec<GitRemote> = Vec::new();
        let mut i: usize = 0;
        while i < lines.len()
            invariant
                i <= lines.len(),
                remotes@.map_values(|x: GitRemote| x.0@) == strs(lines@).take(i as int),
            decreases lines.len() - i,
        {
            let ghost prev = remotes@;
            let x = lines[i].clone();
            remotes.push(GitRemote(x));
            assert(remotes@.map_values(|x: GitRemote| x.0@) =~= prev.map_values(|x: GitRemote| x.0@).push(lines@[i as int]@));
            assert(strs(lines@).take(i + 1) =~= strs(lines@).take(i as int).push(lines@[i as int]@));
            i += 1;
        }
        assert(strs(lines@).take(lines.len() as int) =~= strs(lines@));
        Ok(remotes)
    }

    /// The `origin` remote.
    pub fn new() -> (r: GitRemote)
        ensures
            r.0@ == "origin"@,
    {
        GitRemote(owned("origin"))
    }

    /// The target `remote/branch`, once fetching the branch succeeded; the
    /// branch is the given one, or the remote's default branch.
    pub fn target(&self, branch: &str, fetch: &CmdResult) -> (r: Result<String, Error>)
        ensures
            term_check(*fetch) is Some ==> (r matches Err(e) && is_check_error(*fetch, e)),
            term_check(*fetch) is None ==> (r matches Ok(t) && t@ == self.0@ + "/"@ + branch@),
    {
        fetch.check()?;
        let t = concat(self.0.as_str(), "/");
        Ok(concat(t.as_str(), branch))
    }

    /// The command that fetches a branch of this remote.
    pub fn fetch_cmd(&self, branch: &str) -> (c: Cmd)
        ensures
            c.program@ == "git"@,
            strs(c.args@) == seq!["fetch"@, self.0@, branch@],
    {
        let a: &[&str] = &["fetch", self.0.as_str(), branch];
        assert(strs_of(a@) =~= seq!["fetch"@, self.0@, branch@]);
        Cmd::git(a)
    }

    /// The commit message that a log line of the current side gives.
    pub fn commit_of(line: &str) -> (r: Option<String>)
        requires
            starts_with(trim(line@), "<"@) ==> starts_with(line@, "<"@),
        ensures
            match legacy_commit(line@) {
                Some(c) => r matches Some(s) && s@ == c,
                None => r is None,
            },
    {
        proof {
            reveal_strlit("<");
        }
        let t = trim_str(line);
        if !starts_with_str(t.as_str(), "<") {
            proof {
                if starts_with(line@, "<"@) {
                    assert(line@.subrange(0, 1)[0] == line@[0]);
                    assert(line@[0] == '<');
                    crate::text::lemma_trim_keeps_start(line@);
                    assert(trim(line@).subrange(0, 1) =~= "<"@);
                }
            }
            return None;
        }
        let v = chars_of(line);
        let rest = string_of(&v, 1, v.len());
        let fields = split_whitespace(rest.as_str());
        let mut kept: Vec<String> = Vec::new();
        let mut i: usize = 1;
        if fields.len() == 0 {
            assert(strs(kept@) =~= strs(fields@));
            return Some(join_strs(&kept, " "));
        }
        while i < fields.len()
            invariant
                1 <= i <= fields.len(),
                strs(kept@) == strs(fields@).subrange(1, i as int),
            decreases fields.len() - i,
        {
            let ghost prev = kept@;
            let f = fields[i].clone();
            kept.push(f);
            proof {
                lemma_strs_push(prev, f);
                assert(strs(fields@).subrange(1, i + 1) =~= strs(fields@).subrange(1, i as int).push(fields@[i as int]@));
            }
            i += 1;
        }
        Some(join_strs(&kept, " "))
    }

    /// The commit messages of the current side that the log printed.
    pub fn commits_between(&self, log: &CmdResult) -> (r: Result<Vec<String>, Error>)
        ensures
            term_check(*log) is Some ==> (r matches Err(e) && is_check_error(*log, e)),
            term_check(*log) is None ==> (r matches Ok(v) && strs(v@) == keep_some(
                output_lines(log.stdout@).map_values(|l: Seq<char>| legacy_commit(l)),
            )),
    {
        let lines = log.lines()?;
        let ghost ls = strs(lines@).map_values(|l: Seq<char>| legacy_commit(l));
        let mut commits: Vec<String> = Vec::new();
        let mut i: usize = 0;
        assert(ls.take(0) =~= Seq::<Option<Seq<char>>>::empty());
        assert(strs(commits@) =~= Seq::<Seq<char>>::empty());
        while i < lines.len()
            invariant
                ls == strs(lines@).map_values(|l: Seq<char>| legacy_commit(l)),
                term_check(*log) is None,
                strs(lines@) == output_lines(log.stdout@),
                i <= lines.len(),
                strs(commits@) == keep_some(ls.take(i as int)),
            decreases lines.len() - i,
        {
            assert(ls.take(i + 1) =~= ls.take(i as int).push(legacy_commit(lines@[i as int]@)));
            proof {
                lemma_keep_some_push(ls.take(i as int), legacy_commit(lines@[i as int]@));
                crate::text::lemma_output_lines_trimmed(log.stdout@, i as int);
            }
            let ghost prev = commits@;
            match GitRemote::commit_of(lines[i].as_str()) {
                Some(c) => {
                    commits.push(c);
                    assert(strs(commits@) =~= strs(prev).push(c@));
                },
                None => {},
            }
            i += 1;
        }
        assert(ls.take(lines.len() as int) =~= ls);
        Ok(commits)
    }

    /// The url that `git remote get-url` printed.
    pub fn get_url(&self, result: &CmdResult) -> (r: Result<String, Error>)
        ensures
            term_check(*result) is None ==> (r matches Ok(o) && o@ == trim(result.stdout@)),
            term_check(*result) is Some ==> (r matches Err(e) && is_check_error(*result, e)),
    {
        result.read()
    }
}

impl GitTag {
    pub fn as_str(&self) -> (r: &str)
        ensures
            r@ == self.0@,
    {
        self.0.as_str()
    }

    pub fn new(s: &str) -> (r: GitTag)
        ensures
            r.0@ == s@,
    {
        GitTag(owned(s))
    }

    /// The tags that `git tag` printed.
    pub fn list(result: &CmdResult) -> (r: Result<Vec<GitTag>, Error>)
        ensures
            term_check(*result) is Some ==> (r matches Err(e) && is_check_error(*result, e)),
            term_check(*result) is None ==> (r matches Ok(v) && v@.map_values(|x: GitTag| x.0@) == output_lines(result.stdout@)),
    {
        let lines = result.lines()?;
        let mut tags: Vec<GitTag> = Vec::new();
        let mut i: usize = 0;
        while i < lines.len()
            invariant
                i <= lines.len(),
                tags@.map_values(|x: GitTag| x.0@) == strs(lines@).take(i as int),
            decreases lines.len() - i,
        {
            let ghost prev = tags@;
            let x = lines[i].clone();
            tags.push(GitTag(x));
            assert(tags@.map_values(|x: GitTag| x.0@) =~= prev.map_values(|x: GitTag| x.0@).push(lines@[i as int]@));
            assert(strs(lines@).take(i + 1) =~= strs(lines@).take(i as int).push(lines@[i as int]@));
            i += 1;
        }
        assert(strs(lines@).take(lines.len() as int) =~= strs(lines@));
        Ok(tags)
    }

    /// The tag `s` among those that `git tag` printed.
    pub fn get(result: &CmdResult, s: &str) -> (r: Result<GitTag, Error>)
        ensures
            term_check(*result) is Some ==> (r matches Err(e) && is_check_error(*result, e)),
            term_check(*result) is None && output_lines(result.stdout@).contains(s@) ==> (r matches Ok(t) && t.0@ == s@),
            term_check(*result) is None && !output_lines(result.stdout@).contains(s@) ==> (r matches Err(Error::TagNotFoundQuoted(n)) && n@ == s@),
    {
        let tags = GitTag::list(result)?;
        let ghost names = tags@.map_values(|x: GitTag| x.0@);
        let mut i: usize = 0;
        while i < tags.len()
            invariant
                names == tags@.map_values(|x: GitTag| x.0@),
                term_check(*result) is None,
                names == output_lines(result.stdout@),
                i <= tags.len(),
                forall|j: int| 0 <= j < i ==> names[j] != s@,
            decreases tags.len() - i,
        {
            if eq_str(tags[i].as_str(), s) {
                assert(names[i as int] == s@);
                return Ok(GitTag::new(s));
            }
            i += 1;
        }
        assert(!names.contains(s@));
        Err(Error::TagNotFoundQuoted(owned(s)))
    }

    /// The latest tag that `git describe` named, once fetching tags succeeded.
    pub fn latest(fetch: &CmdResult, describe: &CmdResult) -> (r: Result<GitTag, Error>)
        ensures
            term_check(*fetch) is Some ==> (r matches Err(e) && is_check_error(*fetch, e)),
            term_check(*fetch) is None && term_check(*describe) is Some ==> (r matches Err(e) && is_check_error(*describe, e)),
            term_check(*fetch) is None && term_check(*describe) is None && trim(describe.stdout@).len() == 0 ==> r == Err::<GitTag, Error>(Error::NoLatestTag),
            term_check(*fetch) is None && term_check(*describe) is None && trim(describe.stdout@).len() > 0 ==> (r matches Ok(t) && t.0@ == trim(describe.stdout@)),
    {
        fetch.check()?;
        let output = describe.read()?;
        if output.as_str().is_empty() {
            return Err(Error::NoLatestTag);
        }
        Ok(GitTag(output))
    }
}

} // verus!
