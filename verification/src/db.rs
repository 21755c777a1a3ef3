//! The records that the repository database holds.
use vstd::prelude::*;

use crate::text::{concat, owned};

verus! {

/// How much of a repository's name to show.
#[derive(Debug, Clone, Copy, PartialEq, Eq)]
pub enum NameLevel {
    Full,
    Owner,
    Name,
}

/// A repository as the database records it.
#[derive(Debug, Clone, Default, PartialEq, Eq)]
pub struct Repository {
    pub id: u64,
    pub remote: String,
    pub owner: String,
    pub name: String,
    /// Where the repository lives when it is outside the workspace.
    pub path: Option<String>,
    pub sync: bool,
    pub pin: bool,
    pub last_visited_at: u64,
    pub visited_count: u64,
    pub new_created: bool,
}

/// A second working copy of a repository.
#[derive(Debug, Clone, Default, PartialEq, Eq)]
pub struct Mirror {
    pub id: u64,
    pub repo_id: u64,
    pub remote: String,
    pub owner: String,
    pub name: String,
    pub last_visited_at: u64,
    pub visited_count: u64,
    pub new_created: bool,
}

/// A remote with how many owners and repositories it holds.
#[derive(Debug, Clone, Default, PartialEq, Eq)]
pub struct RemoteState {
    pub remote: String,
    pub owner_count: u32,
    pub repo_count: u32,
}

/// An owner under a remote with how many repositories it holds.
#[derive(Debug, Clone, Default, PartialEq, Eq)]
pub struct OwnerState {
    pub remote: String,
    pub owner: String,
    pub repo_count: u32,
}

/// `/` written as `.`, so that a nested owner is one directory.
pub open spec fn escape(s: Seq<char>) -> Seq<char> {
    s.map_values(|c: char| if c == '/' { '.' } else { c })
}

/// `.` read back as `/`.
pub open spec fn unescape(s: Seq<char>) -> Seq<char> {
    s.map_values(|c: char| if c == '.' { '/' } else { c })
}

/// Every occurrence of `from` in `s` replaced by `to`.
fn replace_char(s: &str, from: char, to: char) -> (r: String)
    ensures
        r@ == s@.map_values(|c: char| if c == from { to } else { c }),
{
    let v = crate::text::chars_of(s);
    let mut r = String::new();
    let mut i: usize = 0;
    while i < v.len()
        invariant
            v@ == s@,
            i <= v.len(),
            r@ == v@.take(i as int).map_values(|c: char| if c == from { to } else { c }),
        decreases v.len() - i,
    {
        let c = v[i];
        let d = if c == from { to } else { c };
        crate::text::push_char(&mut r, d);
        i += 1;
        assert(r@ =~= v@.take(i as int).map_values(|c: char| if c == from { to } else { c }));
    }
    assert(v@.take(v.len() as int) =~= v@);
    r
}

impl Repository {
    /// The name a path segment gets for `s`.
    pub fn escaped_path(s: &str) -> (r: String)
        ensures
            r@ == escape(s@),
    {
        replace_char(s, '/', '.')
    }

    /// The owner or remote that a path segment stands for.
    pub fn parse_escaped_path(s: &str) -> (r: String)
        ensures
            r@ == unescape(s@),
    {
        replace_char(s, '.', '/')
    }

    /// `remote:owner/name`.
    pub fn full_name(&self) -> (r: String)
        ensures
            r@ == self.remote@ + ":"@ + self.owner@ + "/"@ + self.name@,
    {
        let r = concat(self.remote.as_str(), ":");
        let r = concat(r.as_str(), self.owner.as_str());
        let r = concat(r.as_str(), "/");
        concat(r.as_str(), self.name.as_str())
    }

    /// `owner/name`.
    pub fn long_name(&self) -> (r: String)
        ensures
            r@ == self.owner@ + "/"@ + self.name@,
    {
        let r = concat(self.owner.as_str(), "/");
        concat(r.as_str(), self.name.as_str())
    }

    /// The name at a level of detail: with the remote, with the owner, or
    /// the name alone.
    pub fn as_string(&self, level: &NameLevel) -> (r: String)
        ensures
            r@ == match *level {
                NameLevel::Full => self.remote@ + ":"@ + self.owner@ + "/"@ + self.name@,
                NameLevel::Owner => self.owner@ + "/"@ + self.name@,
                NameLevel::Name => self.name@,
            },
    {
        match level {
            NameLevel::Full => self.full_name(),
            NameLevel::Owner => self.long_name(),
            NameLevel::Name => owned(self.name.as_str()),
        }
    }

    /// A copy with the same fields.
    pub fn duplicate(&self) -> (r: Repository)
        ensures
            r == *self,
    {
        Repository {
            id: self.id,
            remote: self.remote.clone(),
            owner: self.owner.clone(),
            name: self.name.clone(),
            path: match &self.path {
                Some(p) => Some(p.clone()),
                None => None,
            },
            sync: self.sync,
            pin: self.pin,
            last_visited_at: self.last_visited_at,
            visited_count: self.visited_count,
            new_created: self.new_created,
        }
    }
}

impl Mirror {
    /// A mirror of `repo` that is not recorded yet, named `name` or, without
    /// one, after the repository with `-mirror` behind.
    pub fn new_from_repo(repo: &Repository, name: Option<String>) -> (r: Mirror)
        ensures
            r.id == 0,
            r.repo_id == repo.id,
            r.remote@ == repo.remote@,
            r.owner@ == repo.owner@,
            r.name@ == match name {
                Some(n) => n@,
                None => repo.name@ + "-mirror"@,
            },
            r.last_visited_at == 0,
            r.visited_count == 0,
            r.new_created,
    {
        let name = match name {
            Some(n) => n,
            None => concat(repo.name.as_str(), "-mirror"),
        };
        Mirror {
            id: 0,
            repo_id: repo.id,
            remote: owned(repo.remote.as_str()),
            owner: owned(repo.owner.as_str()),
            name,
            last_visited_at: 0,
            visited_count: 0,
            new_created: true,
        }
    }

    /// A copy with the same fields.
    pub fn duplicate(&self) -> (r: Mirror)
        ensures
            r == *self,
    {
        Mirror {
            id: self.id,
            repo_id: self.repo_id,
            remote: self.remote.clone(),
            owner: self.owner.clone(),
            name: self.name.clone(),
            last_visited_at: self.last_visited_at,
            visited_count: self.visited_count,
            new_created: self.new_created,
        }
    }
}

} // verus!
