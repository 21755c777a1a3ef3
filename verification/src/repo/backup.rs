//! A backup of repositories with their mirrors.
use vstd::prelude::*;

use crate::db::{Mirror, Repository};
use crate::repo::restore::{mirrors_of_repos, select_mirrors_of};

verus! {

/// Repositories and the mirrors recorded for them.
#[derive(Debug)]
pub struct BackupData {
    pub repos: Vec<Repository>,
    pub mirrors: Vec<Mirror>,
}

/// What restoring a backup would add and what it would update.
#[derive(Debug)]
pub struct BackupDryRunResult {
    pub new_repos: Vec<Repository>,
    pub update_repos: Vec<Repository>,
    pub new_mirrors: Vec<Mirror>,
    pub update_mirrors: Vec<Mirror>,
}

impl BackupData {
    /// The backup of `repos` with the mirrors recorded for each of them, one
    /// repository after the other.
    pub fn load(repos: Vec<Repository>, recorded_mirrors: &Vec<Mirror>) -> (r: BackupData)
        ensures
            r.repos@ == repos@,
            r.mirrors@.to_multiset() == mirrors_of_repos(repos@, recorded_mirrors@).to_multiset(),
    {
        let mirrors = select_mirrors_of(&repos, recorded_mirrors);
        BackupData { repos, mirrors }
    }
}

} // verus!
