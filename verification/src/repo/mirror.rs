//! Mirrors: extra working copies of a repository, kept in their own
//! directory tree.
use vstd::prelude::*;
use vstd::seq_lib::to_multiset_insert;

use crate::db::{escape, Mirror, Repository};
use crate::error::Error;
use crate::repo::{parse_workspace_path, workspace_repo};
use crate::text::{concat, contains_str, eq_str};

verus! {

/// The mirrors that belong to the repository with id `id`, in the order given.
pub open spec fn mirrors_of(ms: Seq<Mirror>, id: u64) -> Seq<Mirror>
    decreases ms.len(),
{
    if ms.len() == 0 {
        Seq::empty()
    } else {
        let r = mirrors_of(ms.drop_last(), id);
        if ms.last().repo_id == id { r.push(ms.last()) } else { r }
    }
}

/// The mirrors are ordered by their last visit, latest first.
pub open spec fn visited_desc(v: Seq<Mirror>) -> bool {
    forall|i: int, j: int| 0 <= i < j < v.len() ==> v[i].last_visited_at >= v[j].last_visited_at
}

/// Whether a mirror's name answers `name`: contains it when `fuzzy`, equals it otherwise.
pub open spec fn name_matches(m: Mirror, name: Seq<char>, fuzzy: bool) -> bool {
    if fuzzy { crate::text::contains(m.name@, name) } else { m.name@ == name }
}

/// `m` is one of `ms` that answers `name` and was visited last among those.
pub open spec fn latest_match(ms: Seq<Mirror>, name: Seq<char>, fuzzy: bool, m: Mirror) -> bool {
    &&& ms.contains(m)
    &&& name_matches(m, name, fuzzy)
    &&& forall|i: int| 0 <= i < ms.len() && name_matches(#[trigger] ms[i], name, fuzzy) ==> ms[i].last_visited_at <= m.last_visited_at
}

/// The directory of a mirror under `dir`.
pub open spec fn mirror_path(dir: Seq<char>, m: Mirror) -> Seq<char> {
    dir + "/"@ + escape(m.remote@) + "/"@ + escape(m.owner@) + "/"@ + m.name@
}

/// `m` is a mirror of `repo` that is not recorded yet, named `name`.
pub open spec fn new_mirror(repo: Repository, name: Seq<char>, m: Mirror) -> bool {
    m.id == 0 && m.repo_id == repo.id && m.remote@ == repo.remote@ && m.owner@ == repo.owner@ && m.name@ == name
        && m.last_visited_at == 0 && m.visited_count == 0 && m.new_created
}

/// What choosing a mirror comes to.
#[derive(Debug)]
pub enum MirrorChoice {
    /// This mirror.
    Chosen(Mirror),
    /// The user picks one of these, in this order.
    Ask(Vec<Mirror>),
}

/// What the current directory is, among the mirrors.
#[derive(Debug)]
pub enum CurrentMirror {
    /// Not a recorded mirror.
    NotFound,
    /// A recorded mirror whose repository is gone: the mirrors of this
    /// repository id are to be forgotten.
    Orphaned(u64),
    /// This mirror of this repository.
    Found(Repository, Mirror),
}

/// A mirror to remove: its directory and its record.
#[derive(Debug)]
pub struct MirrorRemoval {
    pub path: String,
    pub id: u64,
}

impl Mirror {
    /// The directory of the mirror under `dir`.
    pub fn get_path(&self, dir: &str) -> (r: String)
        ensures
            r@ == mirror_path(dir@, *self),
    {
        let r = concat(dir, "/");
        let e = Repository::escaped_path(self.remote.as_str());
        let r = concat(r.as_str(), e.as_str());
        let r = concat(r.as_str(), "/");
        let e = Repository::escaped_path(self.owner.as_str());
        let r = concat(r.as_str(), e.as_str());
        let r = concat(r.as_str(), "/");
        concat(r.as_str(), self.name.as_str())
    }
}

/// Chooses mirrors of one repository among the recorded mirrors.
pub struct MirrorSelector {
    pub repo: Repository,
    pub mirrors: Vec<Mirror>,
}

fn sort_by_visit(v: Vec<Mirror>) -> (r: Vec<Mirror>)
    ensures
        visited_desc(r@),
        r@.to_multiset() == v@.to_multiset(),
{
    let ghost orig = v@;
    let mut v = v;
    let mut out: Vec<Mirror> = Vec::new();
    proof {
        broadcast use vstd::multiset::group_multiset_axioms;
        vstd::seq_lib::to_multiset_len(out@);
        vstd::multiset::lemma_multiset_empty_len(out@.to_multiset());
        assert(out@.to_multiset().add(v@.to_multiset()) =~= orig.to_multiset());
    }
    while v.len() > 0
        invariant
            visited_desc(out@),
            out@.to_multiset().add(v@.to_multiset()) == orig.to_multiset(),
        decreases v.len(),
    {
        let ghost vb = v@;
        let x = v.pop().unwrap();
        let mut p: usize = 0;
        while p < out.len() && out[p].last_visited_at >= x.last_visited_at
            invariant
                p <= out.len(),
                forall|k: int| 0 <= k < p ==> out@[k].last_visited_at >= x.last_visited_at,
            decreases out.len() - p,
        {
            p += 1;
        }
        let ghost before = out@;
        out.insert(p, x);
        proof {
            broadcast use vstd::multiset::group_multiset_axioms;
            to_multiset_insert(before, p as int, x);
            assert(vb =~= v@.push(x));
            vstd::seq_lib::to_multiset_build(v@, x);
            assert(out@.to_multiset().add(v@.to_multiset()) =~= before.to_multiset().add(vb.to_multiset()));
            assert forall|a: int, b: int| 0 <= a < b < out@.len() implies out@[a].last_visited_at >= out@[b].last_visited_at by {
                if p < before.len() {
                    assert(before[p as int].last_visited_at < x.last_visited_at);
                }
                if a < p && b > p {
                    assert(out@[a] == before[a]);
                    assert(out@[b] == before[b - 1]);
                } else if a < p && b == p {
                    assert(out@[a] == before[a]);
                } else if a == p {
                    assert(out@[b] == before[b - 1]);
                    assert(before[p as int].last_visited_at >= before[b - 1].last_visited_at);
                } else if b < p {
                    assert(out@[a] == before[a] && out@[b] == before[b]);
                } else {
                    assert(out@[a] == before[a - 1] && out@[b] == before[b - 1]);
                }
            }
        }
    }
    proof {
        broadcast use vstd::multiset::group_multiset_axioms;
        vstd::seq_lib::to_multiset_len(v@);
        vstd::multiset::lemma_multiset_empty_len(v@.to_multiset());
        assert(out@.to_multiset() =~= out@.to_multiset().add(v@.to_multiset()));
    }
    out
}

proof fn lemma_in_other(r: Seq<Mirror>, g: Seq<Mirror>, x: Mirror)
    requires
        r.to_multiset() == g.to_multiset(),
        r.contains(x),
    ensures
        g.contains(x),
{
    vstd::seq_lib::to_multiset_contains(r, x);
    vstd::seq_lib::to_multiset_contains(g, x);
}

impl MirrorSelector {
    /// A selector for `repo` among the recorded `mirrors`.
    pub fn new(repo: Repository, mirrors: Vec<Mirror>) -> (r: MirrorSelector)
        ensures
            r.repo == repo,
            r.mirrors@ == mirrors@,
    {
        MirrorSelector { repo, mirrors }
    }

    /// The mirrors of the repository, latest visit first.
    pub fn select_many(&self) -> (r: Vec<Mirror>)
        ensures
            visited_desc(r@),
            r@.to_multiset() == mirrors_of(self.mirrors@, self.repo.id).to_multiset(),
    {
        let mut v: Vec<Mirror> = Vec::new();
        let mut i: usize = 0;
        while i < self.mirrors.len()
            invariant
                i <= self.mirrors.len(),
                v@ == mirrors_of(self.mirrors@.take(i as int), self.repo.id),
            decreases self.mirrors.len() - i,
        {
            assert(self.mirrors@.take(i + 1).drop_last() =~= self.mirrors@.take(i as int));
            if self.mirrors[i].repo_id == self.repo.id {
                v.push(self.mirrors[i].duplicate());
            }
            i += 1;
        }
        assert(self.mirrors@.take(self.mirrors.len() as int) =~= self.mirrors@);
        sort_by_visit(v)
    }

    /// The mirror to use. With a name (`-` standing for the repository's name
    /// followed by `-mirror`): the latest visited mirror that answers it, or
    /// a new mirror of that name. Without one: a new mirror when there is
    /// none, the only one when there is one, else the user picks.
    pub fn select_one(&self, name: Option<String>, fuzzy: bool) -> (r: MirrorChoice)
        ensures
            ({
                let ms = mirrors_of(self.mirrors@, self.repo.id);
                match name {
                    Some(n) => {
                        let want = if n@ == "-"@ { self.repo.name@ + "-mirror"@ } else { n@ };
                        r matches MirrorChoice::Chosen(m) && if exists|i: int| 0 <= i < ms.len() && name_matches(#[trigger] ms[i], want, fuzzy) {
                            latest_match(ms, want, fuzzy, m)
                        } else {
                            new_mirror(self.repo, want, m)
                        }
                    },
                    None => if ms.len() == 0 {
                        r matches MirrorChoice::Chosen(m) && new_mirror(self.repo, self.repo.name@ + "-mirror"@, m)
                    } else if ms.len() == 1 {
                        r matches MirrorChoice::Chosen(m) && m == ms[0]
                    } else {
                        r matches MirrorChoice::Ask(v) && visited_desc(v@) && v@.to_multiset() == ms.to_multiset()
                    },
                }
            }),
    {
        let ghost ms = mirrors_of(self.mirrors@, self.repo.id);
        let mirrors = self.select_many();
        proof {
            vstd::seq_lib::to_multiset_len(mirrors@);
            vstd::seq_lib::to_multiset_len(ms);
        }
        match name {
            Some(n) => {
                let ghost nv = n@;
                let want = if eq_str(n.as_str(), "-") { concat(self.repo.name.as_str(), "-mirror") } else { n };
                assert(want@ == if nv == "-"@ { self.repo.name@ + "-mirror"@ } else { nv });
                let mut i: usize = 0;
                while i < mirrors.len()
                    invariant
                        i <= mirrors.len(),
                        ms == mirrors_of(self.mirrors@, self.repo.id),
                        mirrors@.to_multiset() == ms.to_multiset(),
                        visited_desc(mirrors@),
                        name matches Some(x) && x@ == nv,
                        want@ == if nv == "-"@ { self.repo.name@ + "-mirror"@ } else { nv },
                        forall|k: int| 0 <= k < i ==> !name_matches(#[trigger] mirrors@[k], want@, fuzzy),
                    decreases mirrors.len() - i,
                {
                    let hit = if fuzzy {
                        contains_str(mirrors[i].name.as_str(), want.as_str())
                    } else {
                        eq_str(mirrors[i].name.as_str(), want.as_str())
                    };
                    if hit {
                        let m = mirrors[i].duplicate();
                        proof {
                            assert(mirrors@.contains(m));
                            lemma_in_other(mirrors@, ms, m);
                            let q = choose|q: int| 0 <= q < ms.len() && ms[q] == m;
                            assert(name_matches(ms[q], want@, fuzzy));
                            assert forall|j: int| 0 <= j < ms.len() && name_matches(#[trigger] ms[j], want@, fuzzy)
                                implies ms[j].last_visited_at <= m.last_visited_at by {
                                assert(ms.contains(ms[j]));
                                lemma_in_other(ms, mirrors@, ms[j]);
                                let k = choose|k: int| 0 <= k < mirrors@.len() && mirrors@[k] == ms[j];
                                if k < i {
                                    assert(!name_matches(mirrors@[k], want@, fuzzy));
                                } else if k > i {
                                    assert(mirrors@[i as int].last_visited_at >= mirrors@[k].last_visited_at);
                                }
                            }
                        }
                        assert(latest_match(ms, want@, fuzzy, m));
                        assert(exists|q: int| 0 <= q < ms.len() && name_matches(#[trigger] ms[q], want@, fuzzy));
                        return MirrorChoice::Chosen(m);
                    }
                    i += 1;
                }
                proof {
                    assert forall|j: int| 0 <= j < ms.len() implies !name_matches(#[trigger] ms[j], want@, fuzzy) by {
                        assert(ms.contains(ms[j]));
                        lemma_in_other(ms, mirrors@, ms[j]);
                        let k = choose|k: int| 0 <= k < mirrors@.len() && mirrors@[k] == ms[j];
                        assert(!name_matches(mirrors@[k], want@, fuzzy));
                    }
                }
                MirrorChoice::Chosen(Mirror::new_from_repo(&self.repo, Some(want)))
            },
            None => {
                if mirrors.len() == 0 {
                    MirrorChoice::Chosen(Mirror::new_from_repo(&self.repo, None))
                } else if mirrors.len() == 1 {
                    let m = mirrors[0].duplicate();
                    proof {
                        assert(mirrors@.contains(m));
                        lemma_in_other(mirrors@, ms, m);
                        assert(ms[0] == m);
                    }
                    MirrorChoice::Chosen(m)
                } else {
                    MirrorChoice::Ask(mirrors)
                }
            },
        }
    }
}

/// The mirror at `idx` of those offered, as the user picked it.
pub fn pick_mirror(mirrors: &Vec<Mirror>, idx: usize) -> (r: Result<Mirror, Error>)
    ensures
        idx < mirrors.len() ==> (r matches Ok(m) && m == mirrors@[idx as int]),
        idx >= mirrors.len() ==> (r matches Err(Error::InvalidIndex(i)) && i == idx),
{
    if idx < mirrors.len() {
        Ok(mirrors[idx].duplicate())
    } else {
        Err(Error::InvalidIndex(idx as u64))
    }
}

/// The mirror that `current_dir` lies in, with its repository, looked up in
/// the records.
pub fn get_current_mirror(mirrors_dir: &str, current_dir: &str, mirrors: &Vec<Mirror>, repos: &Vec<Repository>) -> (r: CurrentMirror)
    ensures
        match workspace_repo(mirrors_dir@, current_dir@) {
            None => r is NotFound,
            Some((remote, owner, name)) => {
                let found = exists|i: int| 0 <= i < mirrors.len() && (#[trigger] mirrors@[i]).remote@ == remote
                    && mirrors@[i].owner@ == owner && mirrors@[i].name@ == name;
                &&& !found ==> r is NotFound
                &&& found ==> match r {
                    CurrentMirror::NotFound => false,
                    CurrentMirror::Orphaned(id) => exists|i: int| 0 <= i < mirrors.len() && (#[trigger] mirrors@[i]).remote@ == remote
                        && mirrors@[i].owner@ == owner && mirrors@[i].name@ == name && mirrors@[i].repo_id == id
                        && forall|j: int| 0 <= j < repos.len() ==> (#[trigger] repos@[j]).id != id,
                    CurrentMirror::Found(repo, m) => m.remote@ == remote && m.owner@ == owner && m.name@ == name
                        && mirrors@.contains(m) && repos@.contains(repo) && repo.id == m.repo_id,
                }
            },
        },
{
    let (remote, owner, name) = match parse_workspace_path(mirrors_dir, current_dir) {
        Some(t) => t,
        None => return CurrentMirror::NotFound,
    };
    assert(workspace_repo(mirrors_dir@, current_dir@) == Some((remote@, owner@, name@)));
    let mut i: usize = 0;
    while i < mirrors.len()
        invariant
            i <= mirrors.len(),
            workspace_repo(mirrors_dir@, current_dir@) == Some((remote@, owner@, name@)),
            forall|k: int| 0 <= k < i ==> !((#[trigger] mirrors@[k]).remote@ == remote@ && mirrors@[k].owner@ == owner@
                && mirrors@[k].name@ == name@),
        decreases mirrors.len() - i,
    {
        if eq_str(mirrors[i].remote.as_str(), remote.as_str()) && eq_str(mirrors[i].owner.as_str(), owner.as_str())
            && eq_str(mirrors[i].name.as_str(), name.as_str()) {
            let m = mirrors[i].duplicate();
            assert(mirrors@[i as int].remote@ == remote@);
            let mut j: usize = 0;
            while j < repos.len()
                invariant
                    j <= repos.len(),
                    i < mirrors.len(),
                    m == mirrors@[i as int],
                    m.remote@ == remote@ && m.owner@ == owner@ && m.name@ == name@,
                    workspace_repo(mirrors_dir@, current_dir@) == Some((remote@, owner@, name@)),
                    forall|k: int| 0 <= k < j ==> (#[trigger] repos@[k]).id != m.repo_id,
                decreases repos.len() - j,
            {
                if repos[j].id == m.repo_id {
                    let repo = repos[j].duplicate();
                    assert(repos@.contains(repo) && mirrors@.contains(m)) by {
                        assert(repos@[j as int] == repo);
                        assert(mirrors@[i as int] == m);
                    }
                    return CurrentMirror::Found(repo, m);
                }
                j += 1;
            }
            return CurrentMirror::Orphaned(m.repo_id);
        }
        i += 1;
    }
    CurrentMirror::NotFound
}

/// What removing every mirror of a repository takes: each mirror's directory
/// under `mirrors_dir` and its record, in the order of `mirrors`.
pub fn clean_mirrors(mirrors_dir: &str, mirrors: &Vec<Mirror>) -> (r: Vec<MirrorRemoval>)
    ensures
        r@.len() == mirrors@.len(),
        forall|i: int| 0 <= i < r@.len() ==> (#[trigger] r@[i]).path@ == mirror_path(mirrors_dir@, mirrors@[i])
            && r@[i].id == mirrors@[i].id,
{
    let mut r: Vec<MirrorRemoval> = Vec::new();
    let mut i: usize = 0;
    while i < mirrors.len()
        invariant
            i <= mirrors.len(),
            r@.len() == i,
            forall|k: int| 0 <= k < i ==> (#[trigger] r@[k]).path@ == mirror_path(mirrors_dir@, mirrors@[k]) && r@[k].id == mirrors@[k].id,
        decreases mirrors.len() - i,
    {
        r.push(remove_mirror(mirrors_dir, &mirrors[i]));
        i += 1;
    }
    r
}

/// What removing one mirror takes: its directory under `mirrors_dir` and its record.
pub fn remove_mirror(mirrors_dir: &str, mirror: &Mirror) -> (r: MirrorRemoval)
    ensures
        r.path@ == mirror_path(mirrors_dir@, *mirror),
        r.id == mirror.id,
{
    MirrorRemoval { path: mirror.get_path(mirrors_dir), id: mirror.id }
}

} // verus!
