//! Remotes of a repository.
use vstd::prelude::*;

use crate::error::Error;
use crate::exec::git::{git_cmd_spec, GitCmd};
use crate::exec::{check_spec, strs_of, trimmed_stdout, Cmd, CmdResult};
use crate::text::{
    concat, join, join_strs, output_lines, owned, split_whitespace, starts_with, strs, trim,
    trim_start_matches, trim_start_matches_str, trim_str, words, lemma_strs_push, eq_str,
};

verus! {

/// A git remote, by name.
#[derive(Debug, Clone, PartialEq, Eq)]
pub struct Remote(pub String);

pub open spec fn remote_names(rs: Seq<Remote>) -> Seq<Seq<char>> {
    rs.map_values(|r: Remote| r.0@)
}

/// The index of the first `origin` among remote names, if any.
pub open spec fn first_origin(ls: Seq<Seq<char>>) -> Option<int>
    decreases ls.len(),
{
    if ls.len() == 0 {
        None
    } else if ls[0] == "origin"@ {
        Some(0)
    } else {
        match first_origin(ls.subrange(1, ls.len() as int)) {
            Some(i) => Some(i + 1),
            None => None,
        }
    }
}

/// The commit a line of `git log --left-right --oneline` contributes: only
/// lines of the current side (starting with `<`), without the marker, and
/// without the commit id unless `with_id`; a line without a message is dropped
/// when ids are left out.
pub open spec fn commit_of(line: Seq<char>, with_id: bool) -> Option<Seq<char>> {
    if !starts_with(line, "<"@) {
        None
    } else {
        let l = trim(trim_start_matches(line, "<"@));
        if with_id {
            Some(l)
        } else if words(l).len() < 2 {
            None
        } else {
            Some(join(words(l).subrange(1, words(l).len() as int), " "@))
        }
    }
}

impl Remote {
    pub fn new(name: &str) -> (r: Remote)
        ensures
            r.0@ == name@,
    {
        Remote(owned(name))
    }

    pub fn as_str(&self) -> (r: &str)
        ensures
            r@ == self.0@,
    {
        self.0.as_str()
    }

    /// The command that lists the remotes.
    pub fn list_cmd(cmd: &GitCmd) -> (c: Cmd)
        ensures
            git_cmd_spec(*cmd, seq!["remote"@], "List remote"@, c),
    {
        let a: &[&str] = &["remote"];
        assert(strs_of(a@) =~= seq!["remote"@]);
        cmd.cmd(a, "List remote")
    }

    /// The remotes that `git remote` reported.
    pub fn list(result: &CmdResult) -> (r: Result<Vec<Remote>, Error>)
        ensures
            check_spec(*result) is Err ==> r == Err::<Vec<Remote>, Error>(check_spec(*result)->Err_0),
            check_spec(*result) is Ok ==> (r matches Ok(v) && remote_names(v@) == output_lines(trimmed_stdout(*result))),
    {
        let lines = result.lines()?;
        let mut remotes: Vec<Remote> = Vec::new();
        let mut i: usize = 0;
        while i < lines.len()
            invariant
                i <= lines.len(),
                remote_names(remotes@) == strs(lines@).take(i as int),
            decreases lines.len() - i,
        {
            let ghost prev = remotes@;
            let x = lines[i].clone();
            remotes.push(Remote(x));
            assert(remote_names(remotes@) =~= remote_names(prev).push(lines@[i as int]@));
            assert(strs(lines@).take(i + 1) =~= strs(lines@).take(i as int).push(lines@[i as int]@));
            i += 1;
        }
        assert(strs(lines@).take(lines.len() as int) =~= strs(lines@));
        Ok(remotes)
    }

    /// The `origin` remote among those that `git remote` reported.
    pub fn origin(result: &CmdResult) -> (r: Result<Option<Remote>, Error>)
        ensures
            check_spec(*result) is Err ==> r == Err::<Option<Remote>, Error>(check_spec(*result)->Err_0),
            check_spec(*result) is Ok ==> (r matches Ok(o) && (o is Some <==> output_lines(trimmed_stdout(*result)).contains("origin"@))
                && (o matches Some(x) ==> x.0@ == "origin"@)),
    {
        let remotes = Remote::list(result)?;
        let ghost names = remote_names(remotes@);
        let mut i: usize = 0;
        while i < remotes.len()
            invariant
                names == remote_names(remotes@),
                check_spec(*result) is Ok,
                names == output_lines(trimmed_stdout(*result)),
                i <= remotes.len(),
                forall|j: int| 0 <= j < i ==> names[j] != "origin"@,
            decreases remotes.len() - i,
        {
            if eq_str(remotes[i].as_str(), "origin") {
                assert(names[i as int] == "origin"@);
                return Ok(Some(Remote(remotes[i].0.clone())));
            }
            i += 1;
        }
        assert(!names.contains("origin"@));
        Ok(None)
    }

    /// The command that asks for this remote's url.
    pub fn get_url_cmd(&self, cmd: &GitCmd) -> (c: Cmd)
        ensures
            git_cmd_spec(*cmd, seq!["remote"@, "get-url"@, self.0@], "Get url for remote "@ + self.0@, c),
    {
        let a: &[&str] = &["remote", "get-url", self.as_str()];
        assert(strs_of(a@) =~= seq!["remote"@, "get-url"@, self.0@]);
        let m = concat("Get url for remote ", self.as_str());
        cmd.cmd(a, m.as_str())
    }

    /// The url that `git remote get-url` reported for this remote.
    pub fn get_url(&self, result: &CmdResult) -> (r: Result<String, Error>)
        ensures
            check_spec(*result) is Err ==> r == Err::<String, Error>(check_spec(*result)->Err_0),
            check_spec(*result) is Ok && trimmed_stdout(*result).len() == 0 ==> (r matches Err(Error::EmptyRemoteUrl(n)) && n@ == self.0@),
            check_spec(*result) is Ok && trimmed_stdout(*result).len() > 0 ==> (r matches Ok(u) && u@ == trimmed_stdout(*result)),
    {
        let url = result.output()?;
        if url.as_str().is_empty() {
            return Err(Error::EmptyRemoteUrl(self.0.clone()));
        }
        Ok(url)
    }

    /// The `remote/branch` name of a branch of this remote.
    pub fn target_of(&self, branch: &str) -> (r: String)
        ensures
            r@ == self.0@ + "/"@ + branch@,
    {
        let t = concat(self.as_str(), "/");
        concat(t.as_str(), branch)
    }

    /// The command that fetches a branch of this remote.
    pub fn fetch_cmd(&self, cmd: &GitCmd, branch: &str) -> (c: Cmd)
        ensures
            git_cmd_spec(*cmd, seq!["fetch"@, self.0@, branch@], "Fetch target "@ + self.0@ + "/"@ + branch@, c),
    {
        let a: &[&str] = &["fetch", self.as_str(), branch];
        assert(strs_of(a@) =~= seq!["fetch"@, self.0@, branch@]);
        let t = self.target_of(branch);
        let m = concat("Fetch target ", t.as_str());
        assert(m@ == "Fetch target "@ + self.0@ + "/"@ + branch@);
        cmd.cmd(a, m.as_str())
    }

    /// The branch that a target names: `branch`, or the remote's default
    /// branch `default` where `branch` is empty.
    pub fn target_branch(branch: &str, default: &str) -> (r: String)
        ensures
            r@ == (if branch@.len() == 0 { default@ } else { branch@ }),
    {
        if branch.is_empty() {
            owned(default)
        } else {
            owned(branch)
        }
    }

    /// The fetched target `remote/b`, once the fetch of `b` succeeded, where
    /// `b` is `branch`, or the remote's default branch `default` (as
    /// [`crate::exec::git::branch::Branch::remote_default`] finds it) where
    /// `branch` is empty. `fetch` is the result of [`Remote::fetch_cmd`] run
    /// for that same `b`.
    pub fn get_target(&self, branch: &str, default: &str, fetch: &CmdResult) -> (r: Result<String, Error>)
        ensures
            check_spec(*fetch) is Err ==> r == Err::<String, Error>(check_spec(*fetch)->Err_0),
            check_spec(*fetch) is Ok ==> (r matches Ok(t) && t@ == self.0@ + "/"@ + (if branch@.len() == 0 {
                default@
            } else {
                branch@
            })),
    {
        fetch.check()?;
        let b = Self::target_branch(branch, default);
        Ok(self.target_of(b.as_str()))
    }

    /// The command that fetches the branch of a target: `branch`, or the
    /// remote's default branch `default` where `branch` is empty.
    pub fn target_fetch_cmd(&self, cmd: &GitCmd, branch: &str, default: &str) -> (c: Cmd)
        ensures
            ({
                let b = if branch@.len() == 0 { default@ } else { branch@ };
                git_cmd_spec(*cmd, seq!["fetch"@, self.0@, b], "Fetch target "@ + self.0@ + "/"@ + b, c)
            }),
    {
        let b = Self::target_branch(branch, default);
        self.fetch_cmd(cmd, b.as_str())
    }

    /// The command that lists the commits between `HEAD` and a target.
    pub fn log_cmd(&self, cmd: &GitCmd, target: &str) -> (c: Cmd)
        ensures
            git_cmd_spec(*cmd, seq!["log"@, "--left-right"@, "--cherry-pick"@, "--oneline"@, "HEAD..."@ + target@], "Get commits between "@ + target@, c),
    {
        let compare = concat("HEAD...", target);
        let a: &[&str] = &["log", "--left-right", "--cherry-pick", "--oneline", compare.as_str()];
        assert(strs_of(a@) =~= seq!["log"@, "--left-right"@, "--cherry-pick"@, "--oneline"@, compare@]);
        let m = concat("Get commits between ", target);
        cmd.cmd(a, m.as_str())
    }

    /// The commit that a line of the log contributes.
    pub fn commit_line(line: &str, with_id: bool) -> (r: Option<String>)
        ensures
            match commit_of(line@, with_id) {
                Some(c) => r matches Some(s) && s@ == c,
                None => r is None,
            },
    {
        if !crate::text::starts_with_str(line, "<") {
            return None;
        }
        let l = trim_start_matches_str(line, "<");
        let l = trim_str(l.as_str());
        if with_id {
            return Some(l);
        }
        let fields = split_whitespace(l.as_str());
        if fields.len() < 2 {
            return None;
        }
        let mut rest: Vec<String> = Vec::new();
        let mut i: usize = 1;
        while i < fields.len()
            invariant
                1 <= i <= fields.len(),
                strs(rest@) == strs(fields@).subrange(1, i as int),
            decreases fields.len() - i,
        {
            let ghost prev = rest@;
            let f = fields[i].clone();
            rest.push(f);
            proof {
                lemma_strs_push(prev, f);
                assert(strs(fields@).subrange(1, i + 1) =~= strs(fields@).subrange(1, i as int).push(fields@[i as int]@));
            }
            i += 1;
        }
        Some(join_strs(&rest, " "))
    }

    /// The commits of the current side that the log between `HEAD` and the
    /// fetched target reported.
    pub fn commits_between(&self, log: &CmdResult, with_id: bool) -> (r: Result<Vec<String>, Error>)
        ensures
            check_spec(*log) is Err ==> r == Err::<Vec<String>, Error>(check_spec(*log)->Err_0),
            check_spec(*log) is Ok ==> (r matches Ok(v) && strs(v@) == crate::text::keep_some(
                output_lines(trimmed_stdout(*log)).map_values(|l: Seq<char>| commit_of(l, with_id)),
            )),
    {
        let lines = log.lines()?;
        let ghost ls = strs(lines@).map_values(|l: Seq<char>| commit_of(l, with_id));
        let mut commits: Vec<String> = Vec::new();
        let mut i: usize = 0;
        assert(ls.take(0) =~= Seq::<Option<Seq<char>>>::empty());
        assert(strs(commits@) =~= Seq::<Seq<char>>::empty());
        while i < lines.len()
            invariant
                ls == strs(lines@).map_values(|l: Seq<char>| commit_of(l, with_id)),
                i <= lines.len(),
                strs(commits@) == crate::text::keep_some(ls.take(i as int)),
            decreases lines.len() - i,
        {
            assert(ls.take(i + 1) =~= ls.take(i as int).push(commit_of(lines@[i as int]@, with_id)));
            proof {
                crate::text::lemma_keep_some_push(ls.take(i as int), commit_of(lines@[i as int]@, with_id));
            }
            let ghost prev = commits@;
            match Remote::commit_line(lines[i].as_str(), with_id) {
                Some(c) => {
                    commits.push(c);
                    assert(strs(commits@) =~= strs(prev).push(c@));
                },
                None => {},
            }
            i += 1;
        }
        assert(ls.take(lines.len() as int) =~= ls);
        Ok(commits)
    }
}

/// Only the commits of the current side count: a log line that does not
/// start with `<` (such as a `>` line of the target side) gives no commit,
/// and a line that starts with `<` always gives one when ids are kept.
pub proof fn law_commit_sides(line: Seq<char>, with_id: bool)
    ensures
        commit_of(line, with_id) is Some ==> line.len() > 0 && line[0] == '<',
        line.len() > 0 && line[0] == '>' ==> commit_of(line, with_id) is None,
        line.len() > 0 && line[0] == '<' ==> commit_of(line, true) is Some,
{
    reveal_strlit("<");
    assert("<"@ =~= seq!['<']);
    if line.len() > 0 && line[0] == '<' {
        assert(line.subrange(0, 1) =~= "<"@);
    }
    if starts_with(line, "<"@) {
        assert(line.subrange(0, 1)[0] == line[0]);
    }
}

} // verus!
