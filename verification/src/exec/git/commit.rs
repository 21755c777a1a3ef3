//! Uncommitted changes and the current commit.
use vstd::prelude::*;

use crate::error::Error;
use crate::exec::git::{git_cmd_spec, GitCmd};
use crate::exec::{check_spec, strs_of, trimmed_stdout, Cmd, CmdResult};
use crate::text::output_lines;

verus! {

/// The command that lists uncommitted changes, one per line.
pub fn status_cmd(cmd: &GitCmd) -> (c: Cmd)
    ensures
        git_cmd_spec(*cmd, seq!["status"@, "-s"@], "Count uncommitted changes"@, c),
{
    let a: &[&str] = &["status", "-s"];
    assert(strs_of(a@) =~= seq!["status"@, "-s"@]);
    cmd.cmd(a, "Count uncommitted changes")
}

/// The number of uncommitted changes that `git status -s` reported.
pub fn count_uncommitted_changes(result: &CmdResult) -> (r: Result<usize, Error>)
    ensures
        check_spec(*result) is Err ==> r == Err::<usize, Error>(check_spec(*result)->Err_0),
        check_spec(*result) is Ok ==> (r matches Ok(n) && n as int == output_lines(trimmed_stdout(*result)).len()),
{
    let lines = result.lines()?;
    Ok(lines.len())
}

/// Fails when `git status -s` reported any uncommitted change.
pub fn ensure_no_uncommitted_changes(result: &CmdResult) -> (r: Result<(), Error>)
    ensures
        check_spec(*result) is Err ==> r == Err::<(), Error>(check_spec(*result)->Err_0),
        check_spec(*result) is Ok ==> (r == if output_lines(trimmed_stdout(*result)).len() > 0 {
            Err::<(), Error>(Error::UncommittedChanges)
        } else {
            Ok(())
        }),
{
    if count_uncommitted_changes(result)? > 0 {
        return Err(Error::UncommittedChanges);
    }
    Ok(())
}

/// The command that names the commit at `HEAD`.
pub fn current_commit_cmd(cmd: &GitCmd) -> (c: Cmd)
    ensures
        git_cmd_spec(*cmd, seq!["rev-parse"@, "HEAD"@], "Get current commit"@, c),
{
    let a: &[&str] = &["rev-parse", "HEAD"];
    assert(strs_of(a@) =~= seq!["rev-parse"@, "HEAD"@]);
    cmd.cmd(a, "Get current commit")
}

/// The commit that `git rev-parse HEAD` reported.
pub fn get_current_commit(result: &CmdResult) -> (r: Result<String, Error>)
    ensures
        check_spec(*result) is Err ==> r == Err::<String, Error>(check_spec(*result)->Err_0),
        check_spec(*result) is Ok ==> (r matches Ok(c) && c@ == trimmed_stdout(*result)),
{
    result.output()
}

} // verus!
