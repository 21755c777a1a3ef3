//! Directories and files in the workspace, or in the mirrors directory, that
//! no recorded remote, owner, repository or mirror accounts for.
use vstd::prelude::*;

use crate::db::{escape, Mirror, OwnerState, RemoteState, Repository};
use crate::repo::{path_parts, path_parts_of, relative_parts};
use crate::text::{concat, eq_str, strs};

verus! {

/// Orphans found in the workspace and in the mirrors directory.
#[derive(Debug)]
pub struct Orphans {
    pub workspace: Vec<String>,
    pub mirrors: Vec<String>,
}

/// What a walk does with a directory.
#[derive(Debug, Clone, Copy, PartialEq, Eq, Structural)]
pub enum DirDecision {
    /// Walk into it: a recorded remote or owner.
    Descend,
    /// Leave it alone: the root, the mirrors directory, a recorded
    /// repository, or something deeper.
    Skip,
    /// Report it as an orphan and leave it.
    Orphan,
}

/// The directory name of a remote.
pub open spec fn remote_key(remote: Seq<char>) -> Seq<char> {
    escape(remote)
}

/// The path of an owner's directory below the root.
pub open spec fn owner_key(remote: Seq<char>, owner: Seq<char>) -> Seq<char> {
    escape(remote) + "/"@ + escape(owner)
}

/// The path of a repository's directory below the root.
pub open spec fn repo_key(remote: Seq<char>, owner: Seq<char>, name: Seq<char>) -> Seq<char> {
    escape(remote) + "/"@ + escape(owner) + "/"@ + name
}

/// What the walk of `root` does with `dir`: the directory `skip_dir` is left
/// alone; below the root, a first level that is a recorded remote and a
/// second level that is a recorded owner are walked into, a third level is
/// left alone, and any of them that is not recorded is an orphan.
pub open spec fn dir_decision(root: Seq<char>, skip_dir: Option<Seq<char>>, remotes: Seq<Seq<char>>, owners: Seq<Seq<char>>,
    repos: Seq<Seq<char>>, dir: Seq<char>) -> DirDecision
{
    if skip_dir == Some(dir) {
        DirDecision::Skip
    } else {
        match relative_parts(root, dir) {
            None => DirDecision::Skip,
            Some(c) => if c.len() == 1 {
                if remotes.contains(c[0]) { DirDecision::Descend } else { DirDecision::Orphan }
            } else if c.len() == 2 {
                if owners.contains(c[0] + "/"@ + c[1]) { DirDecision::Descend } else { DirDecision::Orphan }
            } else if c.len() == 3 {
                if repos.contains(c[0] + "/"@ + c[1] + "/"@ + c[2]) { DirDecision::Skip } else { DirDecision::Orphan }
            } else {
                DirDecision::Skip
            },
        }
    }
}

/// What decides, in the walk of one root, which directories are orphans.
pub struct OrphanScanner {
    pub root: String,
    pub skip_dir: Option<String>,
    pub remotes: Vec<String>,
    pub owners: Vec<String>,
    pub repos: Vec<String>,
}

/// The components of `path` below `base`, where `base` is a prefix of it
/// component by component.
pub(crate) fn relative_parts_of(base: &str, path: &str) -> (r: Option<Vec<String>>)
    ensures
        match relative_parts(base@, path@) {
            Some(c) => r matches Some(v) && strs(v@) == c,
            None => r is None,
        },
{
    let b = path_parts_of(base);
    let p = path_parts_of(path);
    let ghost bs = strs(b@);
    let ghost ps = strs(p@);
    if b.len() > p.len() {
        return None;
    }
    let mut i: usize = 0;
    while i < b.len()
        invariant
            bs == strs(b@),
            ps == strs(p@),
            bs == path_parts(base@),
            ps == path_parts(path@),
            b.len() <= p.len(),
            i <= b.len(),
            ps.take(i as int) == bs.take(i as int),
        decreases b.len() - i,
    {
        if !eq_str(b[i].as_str(), p[i].as_str()) {
            assert(ps.take(bs.len() as int)[i as int] != bs[i as int]);
            return None;
        }
        assert(ps.take(i + 1) =~= ps.take(i as int).push(ps[i as int]));
        assert(bs.take(i + 1) =~= bs.take(i as int).push(bs[i as int]));
        i += 1;
    }
    assert(bs.take(bs.len() as int) =~= bs);
    let mut rest: Vec<String> = Vec::new();
    let mut j: usize = b.len();
    assert(ps.subrange(b.len() as int, b.len() as int) =~= Seq::<Seq<char>>::empty());
    while j < p.len()
        invariant
            ps == strs(p@),
            b.len() <= j <= p.len(),
            strs(rest@) == ps.subrange(b.len() as int, j as int),
        decreases p.len() - j,
    {
        let ghost prev = strs(rest@);
        rest.push(crate::text::owned(p[j].as_str()));
        assert(strs(rest@) =~= prev.push(ps[j as int]));
        assert(strs(rest@) =~= ps.subrange(b.len() as int, j + 1));
        j += 1;
    }
    assert(ps.subrange(b.len() as int, p.len() as int) =~= ps.skip(b.len() as int));
    Some(rest)
}

/// Whether `s` is among the texts of `v`.
fn contains_text(v: &Vec<String>, s: &str) -> (r: bool)
    ensures
        r == strs(v@).contains(s@),
{
    let mut i: usize = 0;
    while i < v.len()
        invariant
            i <= v@.len(),
            forall|k: int| 0 <= k < i ==> strs(v@)[k] != s@,
        decreases v.len() - i,
    {
        if eq_str(v[i].as_str(), s) {
            assert(strs(v@)[i as int] == s@);
            return true;
        }
        i += 1;
    }
    false
}

/// The directory names of the remotes.
fn remote_keys(remotes: &Vec<RemoteState>) -> (r: Vec<String>)
    ensures
        strs(r@) == remotes@.map_values(|x: RemoteState| remote_key(x.remote@)),
{
    let mut r: Vec<String> = Vec::new();
    let mut i: usize = 0;
    while i < remotes.len()
        invariant
            i <= remotes@.len(),
            strs(r@) == remotes@.take(i as int).map_values(|x: RemoteState| remote_key(x.remote@)),
        decreases remotes.len() - i,
    {
        let ghost prev = strs(r@);
        r.push(Repository::escaped_path(remotes[i].remote.as_str()));
        assert(remotes@.take(i + 1) =~= remotes@.take(i as int).push(remotes@[i as int]));
        assert(strs(r@) =~= prev.push(r@[i as int]@));
        assert(strs(r@) =~= remotes@.take(i + 1).map_values(|x: RemoteState| remote_key(x.remote@)));
        i += 1;
    }
    assert(remotes@.take(remotes@.len() as int) =~= remotes@);
    r
}

/// The directory paths of the owners.
fn owner_keys(owners: &Vec<OwnerState>) -> (r: Vec<String>)
    ensures
        strs(r@) == owners@.map_values(|x: OwnerState| owner_key(x.remote@, x.owner@)),
{
    let mut r: Vec<String> = Vec::new();
    let mut i: usize = 0;
    while i < owners.len()
        invariant
            i <= owners@.len(),
            strs(r@) == owners@.take(i as int).map_values(|x: OwnerState| owner_key(x.remote@, x.owner@)),
        decreases owners.len() - i,
    {
        let a = Repository::escaped_path(owners[i].remote.as_str());
        let k = concat(a.as_str(), "/");
        let b = Repository::escaped_path(owners[i].owner.as_str());
        let ghost prev = strs(r@);
        r.push(concat(k.as_str(), b.as_str()));
        assert(owners@.take(i + 1) =~= owners@.take(i as int).push(owners@[i as int]));
        assert(strs(r@) =~= prev.push(r@[i as int]@));
        assert(strs(r@) =~= owners@.take(i + 1).map_values(|x: OwnerState| owner_key(x.remote@, x.owner@)));
        i += 1;
    }
    assert(owners@.take(owners@.len() as int) =~= owners@);
    r
}

/// The directory path of a repository or mirror.
fn repo_key_of(remote: &str, owner: &str, name: &str) -> (r: String)
    ensures
        r@ == repo_key(remote@, owner@, name@),
{
    let a = Repository::escaped_path(remote);
    let k = concat(a.as_str(), "/");
    let b = Repository::escaped_path(owner);
    let k = concat(k.as_str(), b.as_str());
    let k = concat(k.as_str(), "/");
    concat(k.as_str(), name)
}

impl OrphanScanner {
    /// The scanner of the workspace: the mirrors directory is left to its own
    /// scanner.
    pub fn workspace(workspace: &str, mirrors_dir: &str, remotes: &Vec<RemoteState>, owners: &Vec<OwnerState>,
        repos: &Vec<Repository>) -> (r: OrphanScanner)
        ensures
            r.root@ == workspace@,
            r.skip_dir matches Some(d) && d@ == mirrors_dir@,
            strs(r.remotes@) == remotes@.map_values(|x: RemoteState| remote_key(x.remote@)),
            strs(r.owners@) == owners@.map_values(|x: OwnerState| owner_key(x.remote@, x.owner@)),
            strs(r.repos@) == repos@.map_values(|x: Repository| repo_key(x.remote@, x.owner@, x.name@)),
    {
        let mut keys: Vec<String> = Vec::new();
        let mut i: usize = 0;
        while i < repos.len()
            invariant
                i <= repos@.len(),
                strs(keys@) == repos@.take(i as int).map_values(|x: Repository| repo_key(x.remote@, x.owner@, x.name@)),
            decreases repos.len() - i,
        {
            let ghost prev = strs(keys@);
            keys.push(repo_key_of(repos[i].remote.as_str(), repos[i].owner.as_str(), repos[i].name.as_str()));
            assert(repos@.take(i + 1) =~= repos@.take(i as int).push(repos@[i as int]));
            assert(strs(keys@) =~= prev.push(keys@[i as int]@));
            assert(strs(keys@) =~= repos@.take(i + 1).map_values(|x: Repository| repo_key(x.remote@, x.owner@, x.name@)));
            i += 1;
        }
        assert(repos@.take(repos@.len() as int) =~= repos@);
        OrphanScanner {
            root: crate::text::owned(workspace),
            skip_dir: Some(crate::text::owned(mirrors_dir)),
            remotes: remote_keys(remotes),
            owners: owner_keys(owners),
            repos: keys,
        }
    }

    /// The scanner of the mirrors directory, where the mirrors stand in for
    /// repositories.
    pub fn mirrors(mirrors_dir: &str, remotes: &Vec<RemoteState>, owners: &Vec<OwnerState>, mirrors: &Vec<Mirror>) -> (r: OrphanScanner)
        ensures
            r.root@ == mirrors_dir@,
            r.skip_dir is None,
            strs(r.remotes@) == remotes@.map_values(|x: RemoteState| remote_key(x.remote@)),
            strs(r.owners@) == owners@.map_values(|x: OwnerState| owner_key(x.remote@, x.owner@)),
            strs(r.repos@) == mirrors@.map_values(|x: Mirror| repo_key(x.remote@, x.owner@, x.name@)),
    {
        let mut keys: Vec<String> = Vec::new();
        let mut i: usize = 0;
        while i < mirrors.len()
            invariant
                i <= mirrors@.len(),
                strs(keys@) == mirrors@.take(i as int).map_values(|x: Mirror| repo_key(x.remote@, x.owner@, x.name@)),
            decreases mirrors.len() - i,
        {
            let ghost prev = strs(keys@);
            keys.push(repo_key_of(mirrors[i].remote.as_str(), mirrors[i].owner.as_str(), mirrors[i].name.as_str()));
            assert(mirrors@.take(i + 1) =~= mirrors@.take(i as int).push(mirrors@[i as int]));
            assert(strs(keys@) =~= prev.push(keys@[i as int]@));
            assert(strs(keys@) =~= mirrors@.take(i + 1).map_values(|x: Mirror| repo_key(x.remote@, x.owner@, x.name@)));
            i += 1;
        }
        assert(mirrors@.take(mirrors@.len() as int) =~= mirrors@);
        OrphanScanner {
            root: crate::text::owned(mirrors_dir),
            skip_dir: None,
            remotes: remote_keys(remotes),
            owners: owner_keys(owners),
            repos: keys,
        }
    }

    /// What the walk does with the directory `dir`.
    pub fn should_skip(&self, dir: &str) -> (r: DirDecision)
        ensures
            r == dir_decision(self.root@, match self.skip_dir { Some(d) => Some(d@), None => None },
                strs(self.remotes@), strs(self.owners@), strs(self.repos@), dir@),
    {
        match &self.skip_dir {
            Some(d) => {
                if eq_str(d.as_str(), dir) {
                    return DirDecision::Skip;
                }
            },
            None => {},
        }
        let c = match relative_parts_of(self.root.as_str(), dir) {
            Some(c) => c,
            None => return DirDecision::Skip,
        };
        let ghost cs = strs(c@);
        if c.len() == 1 {
            assert(cs[0] == c@[0]@);
            if contains_text(&self.remotes, c[0].as_str()) { DirDecision::Descend } else { DirDecision::Orphan }
        } else if c.len() == 2 {
            let k = concat(c[0].as_str(), "/");
            let k = concat(k.as_str(), c[1].as_str());
            assert(cs[0] == c@[0]@ && cs[1] == c@[1]@);
            if contains_text(&self.owners, k.as_str()) { DirDecision::Descend } else { DirDecision::Orphan }
        } else if c.len() == 3 {
            let k = concat(c[0].as_str(), "/");
            let k = concat(k.as_str(), c[1].as_str());
            let k = concat(k.as_str(), "/");
            let k = concat(k.as_str(), c[2].as_str());
            assert(cs[0] == c@[0]@ && cs[1] == c@[1]@ && cs[2] == c@[2]@);
            if contains_text(&self.repos, k.as_str()) { DirDecision::Skip } else { DirDecision::Orphan }
        } else {
            DirDecision::Skip
        }
    }
}

} // verus!
