//! The repository that the current directory belongs to.
use vstd::prelude::*;

use crate::db::Repository;
use crate::error::Error;
use crate::repo::{parse_workspace_path, workspace_repo};
use crate::text::eq_str;

verus! {

/// A repository recorded outside the workspace lives at `dir`.
pub open spec fn path_is(path: Option<String>, dir: Seq<char>) -> bool {
    path matches Some(p) && p@ == dir
}

/// The recorded repository that `dir` is in: by remote, owner and name when
/// `dir` lies in the workspace, else the one recorded with `dir` as its path.
pub open spec fn current_repo_spec(workspace: Seq<char>, dir: Seq<char>, repos: Seq<Repository>, r: Option<Repository>) -> bool {
    match workspace_repo(workspace, dir) {
        Some((remote, owner, name)) => {
            let found = exists|i: int| 0 <= i < repos.len() && (#[trigger] repos[i]).remote@ == remote
                && repos[i].owner@ == owner && repos[i].name@ == name;
            &&& !found ==> r is None
            &&& found ==> (r matches Some(repo) && repos.contains(repo) && repo.remote@ == remote && repo.owner@ == owner
                && repo.name@ == name)
        },
        None => {
            let found = exists|i: int| 0 <= i < repos.len() && path_is((#[trigger] repos[i]).path, dir);
            &&& !found ==> r is None
            &&& found ==> (r matches Some(repo) && repos.contains(repo) && path_is(repo.path, dir))
        },
    }
}

/// The repository that `current_dir` belongs to, if any is recorded.
pub fn get_current_repo_optional(workspace: &str, current_dir: &str, repos: &Vec<Repository>) -> (r: Option<Repository>)
    ensures
        current_repo_spec(workspace@, current_dir@, repos@, r),
{
    match parse_workspace_path(workspace, current_dir) {
        Some((remote, owner, name)) => {
            assert(workspace_repo(workspace@, current_dir@) == Some((remote@, owner@, name@)));
            let mut i: usize = 0;
            while i < repos.len()
                invariant
                    i <= repos.len(),
                    workspace_repo(workspace@, current_dir@) == Some((remote@, owner@, name@)),
                    forall|k: int| 0 <= k < i ==> !((#[trigger] repos@[k]).remote@ == remote@ && repos@[k].owner@ == owner@
                        && repos@[k].name@ == name@),
                decreases repos.len() - i,
            {
                if eq_str(repos[i].remote.as_str(), remote.as_str()) && eq_str(repos[i].owner.as_str(), owner.as_str())
                    && eq_str(repos[i].name.as_str(), name.as_str()) {
                    let repo = repos[i].duplicate();
                    assert(repos@[i as int] == repo);
                    return Some(repo);
                }
                i += 1;
            }
            None
        },
        None => {
            let mut i: usize = 0;
            while i < repos.len()
                invariant
                    i <= repos.len(),
                    workspace_repo(workspace@, current_dir@) is None,
                    forall|k: int| 0 <= k < i ==> !path_is((#[trigger] repos@[k]).path, current_dir@),
                decreases repos.len() - i,
            {
                let hit = match &repos[i].path {
                    Some(p) => eq_str(p.as_str(), current_dir),
                    None => false,
                };
                if hit {
                    let repo = repos[i].duplicate();
                    assert(repos@[i as int] == repo);
                    return Some(repo);
                }
                i += 1;
            }
            None
        },
    }
}

/// The repository that `current_dir` belongs to; an error when there is none.
pub fn get_current_repo(workspace: &str, current_dir: &str, repos: &Vec<Repository>) -> (r: Result<Repository, Error>)
    ensures
        match r {
            Ok(repo) => current_repo_spec(workspace@, current_dir@, repos@, Some(repo)),
            Err(e) => e == Error::NotInRepository && current_repo_spec(workspace@, current_dir@, repos@, None),
        },
{
    match get_current_repo_optional(workspace, current_dir, repos) {
        Some(repo) => Ok(repo),
        None => Err(Error::NotInRepository),
    }
}

} // verus!
