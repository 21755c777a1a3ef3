//! Restoring repositories and mirrors from a backup: paths under the home
//! directory are kept as `~/...` in the backup, and a restore adds only what
//! the database does not hold yet.
use vstd::prelude::*;

use crate::db::{Mirror, Repository};
use crate::repo::mirror::{mirrors_of, MirrorSelector};
use crate::secret::files::dir_prefix;
use crate::text::{chars_of, concat, eq_str, starts_with, string_of};

verus! {

/// `rel` below the directory `base`.
pub open spec fn dir_join(base: Seq<char>, rel: Seq<char>) -> Seq<char> {
    if base.len() > 0 && base.last() == '/' {
        base + rel
    } else {
        base + "/"@ + rel
    }
}

/// A path as a backup keeps it: below the home directory it becomes `~/...`.
pub open spec fn tilde_path(home: Seq<char>, p: Seq<char>) -> Seq<char> {
    if p == home {
        "~/"@
    } else if starts_with(p, dir_prefix(home)) {
        "~/"@ + p.skip(dir_prefix(home).len() as int)
    } else {
        p
    }
}

/// A path as a restore writes it: `~` and `~/...` go below the home directory.
pub open spec fn home_path(home: Seq<char>, p: Seq<char>) -> Seq<char> {
    if p == "~"@ {
        dir_join(home, Seq::empty())
    } else if starts_with(p, "~/"@) {
        dir_join(home, p.skip(2))
    } else {
        p
    }
}

/// A path below the home directory comes back from a backup as it was.
pub proof fn law_home_path_round_trip(home: Seq<char>, p: Seq<char>)
    requires
        home.len() > 0,
        home.last() != '/',
        starts_with(p, home + "/"@),
        p != home,
    ensures
        home_path(home, tilde_path(home, p)) == p,
{
    reveal_strlit("~/");
    reveal_strlit("~");
    reveal_strlit("/");
    let rest = p.skip(home.len() + 1 as int);
    assert(dir_prefix(home) == home.push('/'));
    assert(home + "/"@ =~= home.push('/'));
    let t = "~/"@ + rest;
    assert(tilde_path(home, p) == t);
    assert(t != "~"@) by {
        assert(t.len() >= 2);
    }
    assert(t.subrange(0, 2) =~= "~/"@);
    assert(t.skip(2) =~= rest);
    assert(p =~= home + "/"@ + rest) by {
        assert(p.subrange(0, home.len() + 1 as int) == home + "/"@);
    }
}

/// The same repository: the same remote, owner and name.
pub open spec fn same_repo(a: Repository, b: Repository) -> bool {
    a.remote@ == b.remote@ && a.owner@ == b.owner@ && a.name@ == b.name@
}

/// The same mirror: the same remote, owner and name.
pub open spec fn same_mirror(a: Mirror, b: Mirror) -> bool {
    a.remote@ == b.remote@ && a.owner@ == b.owner@ && a.name@ == b.name@
}

/// The first repository of `s` that is `r`.
pub open spec fn find_repo(s: Seq<Repository>, r: Repository) -> Option<int>
    decreases s.len(),
{
    if s.len() == 0 {
        None
    } else if same_repo(s[0], r) {
        Some(0)
    } else {
        match find_repo(s.skip(1), r) {
            Some(i) => Some(i + 1),
            None => None,
        }
    }
}

/// Some mirror of `s` is `m`.
pub open spec fn has_mirror(s: Seq<Mirror>, m: Mirror) -> bool {
    exists|i: int| 0 <= i < s.len() && same_mirror(#[trigger] s[i], m)
}

/// `b` is `a` with its path changed by `f`.
pub open spec fn path_mapped(a: Repository, b: Repository, f: spec_fn(Seq<char>) -> Seq<char>) -> bool {
    &&& b.id == a.id && b.remote == a.remote && b.owner == a.owner && b.name == a.name
    &&& b.sync == a.sync && b.pin == a.pin && b.last_visited_at == a.last_visited_at
    &&& b.visited_count == a.visited_count && b.new_created == a.new_created
    &&& match a.path {
        Some(p) => b.path matches Some(q) && q@ == f(p@),
        None => b.path is None,
    }
}

/// The mirrors of each repository, one repository after the other.
pub open spec fn mirrors_of_repos(repos: Seq<Repository>, recorded: Seq<Mirror>) -> Seq<Mirror>
    decreases repos.len(),
{
    if repos.len() == 0 {
        Seq::empty()
    } else {
        mirrors_of_repos(repos.drop_last(), recorded) + mirrors_of(recorded, repos.last().id)
    }
}

/// What a restore does, in order.
#[derive(Debug)]
pub enum RestoreStep {
    /// Add the repository; the database gives it a new id.
    InsertRepo(Repository),
    /// Add the mirror to the repository `RepoRef` names.
    InsertMirror(Mirror, RepoRef),
}

/// The repository that a restored mirror belongs to.
#[derive(Debug, Clone, Copy, PartialEq, Eq)]
pub enum RepoRef {
    /// One the database already holds, by its id.
    Recorded(u64),
    /// The repository of the restore's `n`-th `InsertRepo` step, counted from zero.
    Inserted(usize),
}

/// The steps for the mirrors `ms` of one repository: each mirror that is
/// neither recorded nor already added is added.
pub open spec fn plan_mirrors(ms: Seq<Mirror>, recorded: Seq<Mirror>, target: RepoRef, steps: Seq<RestoreStep>, added: Seq<Mirror>) -> (Seq<RestoreStep>, Seq<Mirror>)
    decreases ms.len(),
{
    if ms.len() == 0 {
        (steps, added)
    } else {
        let (s, a) = plan_mirrors(ms.drop_last(), recorded, target, steps, added);
        let m = ms.last();
        if has_mirror(recorded, m) || has_mirror(a, m) {
            (s, a)
        } else {
            (s.push(RestoreStep::InsertMirror(m, target)), a.push(m))
        }
    }
}

/// The steps of a restore of `repos` (their paths already restored) with
/// `mirrors`: the steps, the repositories added, the mirrors added, and the
/// backup ids whose mirrors were taken. A repository the database or the
/// restore already holds is not added again; the mirrors of a backup id go
/// with the first repository of that id.
pub open spec fn plan_restore(repos: Seq<Repository>, mirrors: Seq<Mirror>, recorded_repos: Seq<Repository>, recorded_mirrors: Seq<Mirror>)
    -> (Seq<RestoreStep>, Seq<Repository>, Seq<Mirror>, Set<u64>)
    decreases repos.len(),
{
    if repos.len() == 0 {
        (Seq::empty(), Seq::empty(), Seq::empty(), Set::empty())
    } else {
        let (steps, added_repos, added_mirrors, taken) = plan_restore(repos.drop_last(), mirrors, recorded_repos, recorded_mirrors);
        let x = repos.last();
        let (steps1, added1, target) = match find_repo(recorded_repos, x) {
            Some(i) => (steps, added_repos, RepoRef::Recorded(recorded_repos[i].id)),
            None => match find_repo(added_repos, x) {
                Some(k) => (steps, added_repos, RepoRef::Inserted(k as usize)),
                None => (steps.push(RestoreStep::InsertRepo(x)), added_repos.push(x), RepoRef::Inserted(added_repos.len() as usize)),
            },
        };
        let ms = if taken.contains(x.id) { Seq::empty() } else { mirrors_of(mirrors, x.id) };
        let (steps2, added2) = plan_mirrors(ms, recorded_mirrors, target, steps1, added_mirrors);
        (steps2, added1, added2, taken.insert(x.id))
    }
}

/// A path as a backup keeps it.
pub fn tilde_path_of(home: &str, path: &str) -> (r: String)
    ensures
        r@ == tilde_path(home@, path@),
{
    if eq_str(path, home) {
        return crate::text::owned("~/");
    }
    let h = chars_of(home);
    let prefix = if h.len() == 0 || h[h.len() - 1] == '/' {
        string_of(&h, 0, h.len())
    } else {
        concat(home, "/")
    };
    proof {
        reveal_strlit("/");
        assert(h@.subrange(0, h@.len() as int) =~= h@);
        assert(prefix@ =~= dir_prefix(home@));
    }
    match crate::text::strip_prefix_str(path, prefix.as_str()) {
        Some(rest) => {
            assert(rest@ =~= path@.skip(prefix@.len() as int));
            concat("~/", rest.as_str())
        },
        None => crate::text::owned(path),
    }
}

/// `rel` below the directory `base`.
fn dir_join_of(base: &str, rel: &str) -> (r: String)
    ensures
        r@ == dir_join(base@, rel@),
{
    let b = chars_of(base);
    if b.len() > 0 && b[b.len() - 1] == '/' {
        concat(base, rel)
    } else {
        let r = concat(base, "/");
        concat(r.as_str(), rel)
    }
}

/// A path as a restore writes it.
pub fn home_path_of(home: &str, path: &str) -> (r: String)
    ensures
        r@ == home_path(home@, path@),
{
    if eq_str(path, "~") {
        assert(Seq::<char>::empty() =~= ""@) by {
            reveal_strlit("");
        }
        return dir_join_of(home, "");
    }
    match crate::text::strip_prefix_str(path, "~/") {
        Some(rest) => {
            proof {
                reveal_strlit("~/");
            }
            assert(rest@ =~= path@.skip(2));
            dir_join_of(home, rest.as_str())
        },
        None => crate::text::owned(path),
    }
}

/// A copy of a repository with its path changed as a restore writes it.
fn with_home_path(home: &str, r: &Repository) -> (x: Repository)
    ensures
        path_mapped(*r, x, |p: Seq<char>| home_path(home@, p)),
{
    let mut x = r.duplicate();
    x.path = match &r.path {
        Some(p) => Some(home_path_of(home, p.as_str())),
        None => None,
    };
    x
}

/// A copy of a repository with its path changed as a backup keeps it.
fn with_tilde_path(home: &str, r: &Repository) -> (x: Repository)
    ensures
        path_mapped(*r, x, |p: Seq<char>| tilde_path(home@, p)),
{
    let mut x = r.duplicate();
    x.path = match &r.path {
        Some(p) => Some(tilde_path_of(home, p.as_str())),
        None => None,
    };
    x
}

/// The first recorded repository that is `r`.
fn find_repo_in(s: &Vec<Repository>, r: &Repository) -> (k: Option<usize>)
    ensures
        match find_repo(s@, *r) {
            Some(i) => k matches Some(kk) && kk as int == i && i < s@.len(),
            None => k is None,
        },
{
    let mut i: usize = 0;
    assert(s@.skip(0) =~= s@);
    while i < s.len()
        invariant
            i <= s@.len(),
            find_repo(s@, *r) == match find_repo(s@.skip(i as int), *r) {
                Some(j) => Some(j + i),
                None => None,
            },
        decreases s.len() - i,
    {
        assert(s@.skip(i as int)[0] == s@[i as int]);
        if eq_str(s[i].remote.as_str(), r.remote.as_str()) && eq_str(s[i].owner.as_str(), r.owner.as_str())
            && eq_str(s[i].name.as_str(), r.name.as_str()) {
            return Some(i);
        }
        assert(s@.skip(i as int).skip(1) =~= s@.skip(i + 1));
        i += 1;
    }
    None
}

/// Whether some mirror of `s` is `m`.
fn has_mirror_in(s: &Vec<Mirror>, m: &Mirror) -> (b: bool)
    ensures
        b == has_mirror(s@, *m),
{
    let mut i: usize = 0;
    while i < s.len()
        invariant
            i <= s@.len(),
            forall|k: int| 0 <= k < i ==> !same_mirror(#[trigger] s@[k], *m),
        decreases s.len() - i,
    {
        if eq_str(s[i].remote.as_str(), m.remote.as_str()) && eq_str(s[i].owner.as_str(), m.owner.as_str())
            && eq_str(s[i].name.as_str(), m.name.as_str()) {
            assert(same_mirror(s@[i as int], *m));
            return true;
        }
        i += 1;
    }
    false
}

/// Copies of the mirrors.
fn duplicate_mirrors(v: &Vec<Mirror>) -> (r: Vec<Mirror>)
    ensures
        r@ == v@,
{
    let mut r: Vec<Mirror> = Vec::new();
    let mut i: usize = 0;
    while i < v.len()
        invariant
            i <= v@.len(),
            r@ == v@.take(i as int),
        decreases v.len() - i,
    {
        r.push(v[i].duplicate());
        assert(r@ =~= v@.take(i + 1));
        i += 1;
    }
    assert(v@.take(v@.len() as int) =~= v@);
    r
}

/// The mirrors recorded for each repository, one repository after the other,
/// each repository's latest visit first.
pub(crate) fn select_mirrors_of(repos: &Vec<Repository>, recorded: &Vec<Mirror>) -> (r: Vec<Mirror>)
    ensures
        r@.to_multiset() == mirrors_of_repos(repos@, recorded@).to_multiset(),
{
    let mut r: Vec<Mirror> = Vec::new();
    let mut i: usize = 0;
    assert(repos@.take(0) =~= Seq::<Repository>::empty());
    while i < repos.len()
        invariant
            i <= repos@.len(),
            r@.to_multiset() == mirrors_of_repos(repos@.take(i as int), recorded@).to_multiset(),
        decreases repos.len() - i,
    {
        let selector = MirrorSelector::new(repos[i].duplicate(), duplicate_mirrors(recorded));
        let mut found = selector.select_many();
        let ghost before = r@;
        let ghost f = found@;
        r.append(&mut found);
        proof {
            assert(r@ == before + f);
            vstd::seq_lib::lemma_multiset_commutative(before, f);
            assert(repos@.take(i + 1).drop_last() =~= repos@.take(i as int));
            assert(repos@.take(i + 1).last() == repos@[i as int]);
            vstd::seq_lib::lemma_multiset_commutative(mirrors_of_repos(repos@.take(i as int), recorded@), mirrors_of(recorded@, repos@[i as int].id));
        }
        i += 1;
    }
    assert(repos@.take(repos@.len() as int) =~= repos@);
    r
}

/// Repositories and mirrors, as a backup holds them.
#[derive(Debug, Clone, PartialEq, Eq)]
pub struct RestoreData {
    pub repos: Vec<Repository>,
    pub mirrors: Vec<Mirror>,
}

impl RestoreData {
    /// The backup of `repos`: their paths under `home_dir` kept as `~/...`,
    /// and the mirrors recorded for each of them.
    pub fn load(home_dir: &str, repos: Vec<Repository>, recorded_mirrors: &Vec<Mirror>) -> (r: RestoreData)
        ensures
            r.repos@.len() == repos@.len(),
            forall|i: int| 0 <= i < repos@.len() ==> path_mapped(repos@[i], #[trigger] r.repos@[i], |p: Seq<char>| tilde_path(home_dir@, p)),
            r.mirrors@.to_multiset() == mirrors_of_repos(repos@, recorded_mirrors@).to_multiset(),
    {
        let mirrors = select_mirrors_of(&repos, recorded_mirrors);
        let mut out: Vec<Repository> = Vec::new();
        let mut i: usize = 0;
        while i < repos.len()
            invariant
                i <= repos@.len(),
                out@.len() == i,
                forall|k: int| 0 <= k < i ==> path_mapped(repos@[k], #[trigger] out@[k], |p: Seq<char>| tilde_path(home_dir@, p)),
            decreases repos.len() - i,
        {
            out.push(with_tilde_path(home_dir, &repos[i]));
            i += 1;
        }
        RestoreData { repos: out, mirrors }
    }


    /// The steps that restore the backup into a database that holds
    /// `recorded_repos` and `recorded_mirrors`, in order: each repository
    /// (its path written below `home_dir`) that neither the database nor an
    /// earlier step holds is added; then each mirror of its backup id that
    /// neither holds is added to it (to the recorded repository of the same
    /// name where there is one).
    pub fn restore(self, home_dir: &str, recorded_repos: &Vec<Repository>, recorded_mirrors: &Vec<Mirror>) -> (r: Vec<RestoreStep>)
        ensures
            exists|rs: Seq<Repository>| #[trigger] rs.len() == self.repos@.len()
                && (forall|i: int| 0 <= i < rs.len() ==> path_mapped(self.repos@[i], #[trigger] rs[i], |p: Seq<char>| home_path(home_dir@, p)))
                && r@ == plan_restore(rs, self.mirrors@, recorded_repos@, recorded_mirrors@).0,
    {
        let mut steps: Vec<RestoreStep> = Vec::new();
        let mut added_repos: Vec<Repository> = Vec::new();
        let mut added_mirrors: Vec<Mirror> = Vec::new();
        let mut taken: Vec<u64> = Vec::new();
        let ghost mut rs: Seq<Repository> = Seq::empty();
        let mut i: usize = 0;
        assert(Set::<u64>::new(|x: u64| taken@.contains(x)) =~= Set::<u64>::empty());
        while i < self.repos.len()
            invariant
                i <= self.repos@.len(),
                rs.len() == i,
                forall|k: int| 0 <= k < i ==> path_mapped(self.repos@[k], #[trigger] rs[k], |p: Seq<char>| home_path(home_dir@, p)),
                plan_restore(rs, self.mirrors@, recorded_repos@, recorded_mirrors@)
                    == (steps@, added_repos@, added_mirrors@, Set::<u64>::new(|x: u64| taken@.contains(x))),
            decreases self.repos.len() - i,
        {
            let x = with_home_path(home_dir, &self.repos[i]);
            let ghost prev_rs = rs;
            proof {
                rs = rs.push(x);
                assert(rs.drop_last() =~= prev_rs);
            }
            let ghost steps0 = steps@;
            let ghost repos0 = added_repos@;
            let target = match find_repo_in(recorded_repos, &x) {
                Some(k) => RepoRef::Recorded(recorded_repos[k].id),
                None => match find_repo_in(&added_repos, &x) {
                    Some(k) => RepoRef::Inserted(k),
                    None => {
                        let n = added_repos.len();
                        added_repos.push(x.duplicate());
                        steps.push(RestoreStep::InsertRepo(x.duplicate()));
                        RepoRef::Inserted(n)
                    },
                },
            };
            assert((steps@, added_repos@, target) == match find_repo(recorded_repos@, x) {
                Some(k) => (steps0, repos0, RepoRef::Recorded(recorded_repos@[k].id)),
                None => match find_repo(repos0, x) {
                    Some(k) => (steps0, repos0, RepoRef::Inserted(k as usize)),
                    None => (steps0.push(RestoreStep::InsertRepo(x)), repos0.push(x), RepoRef::Inserted(repos0.len() as usize)),
                },
            });
            let ghost steps1 = steps@;
            let ghost mirrors1 = added_mirrors@;
            let ghost taken_set = Set::<u64>::new(|y: u64| taken@.contains(y));
            let mut already = false;
            let mut t: usize = 0;
            while t < taken.len()
                invariant
                    t <= taken@.len(),
                    already == taken@.take(t as int).contains(x.id),
                decreases taken.len() - t,
            {
                assert(taken@.take(t + 1) =~= taken@.take(t as int).push(taken@[t as int]));
                proof { vstd::seq_lib::lemma_seq_contains_after_push(taken@.take(t as int), taken@[t as int], x.id); }
                if taken[t] == x.id {
                    already = true;
                }
                t += 1;
            }
            assert(taken@.take(taken@.len() as int) =~= taken@);
            if !already {
                let mut j: usize = 0;
                assert(self.mirrors@.take(0) =~= Seq::<Mirror>::empty());
                while j < self.mirrors.len()
                    invariant
                        j <= self.mirrors@.len(),
                        (steps@, added_mirrors@) == plan_mirrors(mirrors_of(self.mirrors@.take(j as int), x.id), recorded_mirrors@,
                            target, steps1, mirrors1),
                    decreases self.mirrors.len() - j,
                {
                    let ghost before = mirrors_of(self.mirrors@.take(j as int), x.id);
                    assert(self.mirrors@.take(j + 1).drop_last() =~= self.mirrors@.take(j as int));
                    assert(self.mirrors@.take(j + 1).last() == self.mirrors@[j as int]);
                    let m = &self.mirrors[j];
                    if m.repo_id == x.id {
                        assert(mirrors_of(self.mirrors@.take(j + 1), x.id) == before.push(*m));
                        assert(before.push(*m).drop_last() =~= before);
                        if !has_mirror_in(recorded_mirrors, m) && !has_mirror_in(&added_mirrors, m) {
                            steps.push(RestoreStep::InsertMirror(m.duplicate(), target));
                            added_mirrors.push(m.duplicate());
                        }
                    }
                    j += 1;
                }
                assert(self.mirrors@.take(self.mirrors@.len() as int) =~= self.mirrors@);
            }
            assert((steps@, added_mirrors@) == plan_mirrors(
                if taken_set.contains(x.id) { Seq::<Mirror>::empty() } else { mirrors_of(self.mirrors@, x.id) },
                recorded_mirrors@, target, steps1, mirrors1));
            let ghost taken0 = Set::<u64>::new(|y: u64| taken@.contains(y));
            let ghost taken_before = taken@;
            taken.push(x.id);
            assert(taken@.drop_last() =~= taken_before);
            proof {
                assert(Set::<u64>::new(|y: u64| taken@.contains(y)) =~= taken0.insert(x.id)) by {
                    assert forall|y: u64| taken@.contains(y) <==> taken0.insert(x.id).contains(y) by {
                        assert(taken@ == taken@.drop_last().push(x.id));
                        vstd::seq_lib::lemma_seq_contains_after_push(taken@.drop_last(), x.id, y);
                    }
                }
                assert(rs.last() == x);
            }
            i += 1;
        }
        steps
    }

    /// What a restore would add, without adding it: the repositories the
    /// database does not hold (their paths written below `home_dir`), and the
    /// mirrors it does not hold.
    pub fn dry_run(self, home_dir: &str, recorded_repos: &Vec<Repository>, recorded_mirrors: &Vec<Mirror>) -> (r: RestoreData)
        ensures
            ({
                let kept = self.repos@.filter(|x: Repository| find_repo(recorded_repos@, x) is None);
                &&& r.repos@.len() == kept.len()
                &&& forall|a: int| 0 <= a < kept.len() ==> path_mapped(kept[a], #[trigger] r.repos@[a], |p: Seq<char>| home_path(home_dir@, p))
            }),
            r.mirrors@ == self.mirrors@.filter(|m: Mirror| !has_mirror(recorded_mirrors@, m)),
    {
        let ghost f = |x: Repository| find_repo(recorded_repos@, x) is None;
        let mut repos: Vec<Repository> = Vec::new();
        let mut i: usize = 0;
        proof {
            reveal(Seq::filter);
        }
        assert(self.repos@.take(0).filter(f) =~= Seq::<Repository>::empty());
        while i < self.repos.len()
            invariant
                i <= self.repos@.len(),
                f == |x: Repository| find_repo(recorded_repos@, x) is None,
                repos@.len() == self.repos@.take(i as int).filter(f).len(),
                forall|a: int| 0 <= a < repos@.len() ==> path_mapped(self.repos@.take(i as int).filter(f)[a], #[trigger] repos@[a],
                    |p: Seq<char>| home_path(home_dir@, p)),
            decreases self.repos.len() - i,
        {
            proof {
                reveal(Seq::filter);
                assert(self.repos@.take(i + 1).drop_last() =~= self.repos@.take(i as int));
                assert(self.repos@.take(i + 1).last() == self.repos@[i as int]);
            }
            if find_repo_in(recorded_repos, &self.repos[i]).is_none() {
                repos.push(with_home_path(home_dir, &self.repos[i]));
            }
            i += 1;
        }
        assert(self.repos@.take(self.repos@.len() as int) =~= self.repos@);
        let mut mirrors: Vec<Mirror> = Vec::new();
        let mut j: usize = 0;
        assert(self.mirrors@.take(0).filter(|m: Mirror| !has_mirror(recorded_mirrors@, m)) =~= Seq::<Mirror>::empty());
        while j < self.mirrors.len()
            invariant
                j <= self.mirrors@.len(),
                mirrors@ == self.mirrors@.take(j as int).filter(|m: Mirror| !has_mirror(recorded_mirrors@, m)),
            decreases self.mirrors.len() - j,
        {
            proof {
                reveal(Seq::filter);
                assert(self.mirrors@.take(j + 1).drop_last() =~= self.mirrors@.take(j as int));
                assert(self.mirrors@.take(j + 1).last() == self.mirrors@[j as int]);
            }
            if !has_mirror_in(recorded_mirrors, &self.mirrors[j]) {
                mirrors.push(self.mirrors[j].duplicate());
            }
            j += 1;
        }
        assert(self.mirrors@.take(self.mirrors@.len() as int) =~= self.mirrors@);
        RestoreData { repos, mirrors }
    }
}


proof fn lemma_find_repo_none(s: Seq<Repository>, r: Repository)
    requires
        find_repo(s, r) is None,
    ensures
        forall|k: int| 0 <= k < s.len() ==> !same_repo(#[trigger] s[k], r),
    decreases s.len(),
{
    if s.len() > 0 {
        lemma_find_repo_none(s.skip(1), r);
        assert forall|k: int| 0 <= k < s.len() implies !same_repo(#[trigger] s[k], r) by {
            if k > 0 {
                assert(s.skip(1)[k - 1] == s[k]);
            }
        }
    }
}

/// Mirrors added for one repository are neither recorded nor added twice.
proof fn lemma_plan_mirrors_fresh(ms: Seq<Mirror>, recorded: Seq<Mirror>, target: RepoRef, steps: Seq<RestoreStep>, added: Seq<Mirror>)
    requires
        forall|k: int| 0 <= k < added.len() ==> !has_mirror(recorded, #[trigger] added[k]),
        forall|a: int, b: int| 0 <= a < b < added.len() ==> !same_mirror(#[trigger] added[a], #[trigger] added[b]),
    ensures
        ({
            let am = plan_mirrors(ms, recorded, target, steps, added).1;
            &&& forall|k: int| 0 <= k < am.len() ==> !has_mirror(recorded, #[trigger] am[k])
            &&& forall|a: int, b: int| 0 <= a < b < am.len() ==> !same_mirror(#[trigger] am[a], #[trigger] am[b])
        }),
    decreases ms.len(),
{
    if ms.len() > 0 {
        lemma_plan_mirrors_fresh(ms.drop_last(), recorded, target, steps, added);
        let a0 = plan_mirrors(ms.drop_last(), recorded, target, steps, added).1;
        let m = ms.last();
        if !(has_mirror(recorded, m) || has_mirror(a0, m)) {
            let am = a0.push(m);
            assert forall|k: int| 0 <= k < am.len() implies !has_mirror(recorded, #[trigger] am[k]) by {
                if k < a0.len() {
                    assert(am[k] == a0[k]);
                }
            }
            assert forall|a: int, b: int| 0 <= a < b < am.len() implies !same_mirror(#[trigger] am[a], #[trigger] am[b]) by {
                if b < a0.len() {
                    assert(am[a] == a0[a] && am[b] == a0[b]);
                } else {
                    assert(am[a] == a0[a] && am[b] == m);
                    if same_mirror(a0[a], m) {
                        assert(has_mirror(a0, m));
                    }
                }
            }
        }
    }
}

/// A restore adds no repository and no mirror that the database holds, and
/// none twice.
pub proof fn law_restore_adds_only_missing(repos: Seq<Repository>, mirrors: Seq<Mirror>, recorded_repos: Seq<Repository>, recorded_mirrors: Seq<Mirror>)
    ensures
        ({
            let (_, ar, am, _) = plan_restore(repos, mirrors, recorded_repos, recorded_mirrors);
            &&& forall|k: int| 0 <= k < ar.len() ==> find_repo(recorded_repos, #[trigger] ar[k]) is None
            &&& forall|a: int, b: int| 0 <= a < b < ar.len() ==> !same_repo(#[trigger] ar[a], #[trigger] ar[b])
            &&& forall|k: int| 0 <= k < am.len() ==> !has_mirror(recorded_mirrors, #[trigger] am[k])
            &&& forall|a: int, b: int| 0 <= a < b < am.len() ==> !same_mirror(#[trigger] am[a], #[trigger] am[b])
        }),
    decreases repos.len(),
{
    if repos.len() > 0 {
        law_restore_adds_only_missing(repos.drop_last(), mirrors, recorded_repos, recorded_mirrors);
        let (steps, ar0, am0, taken) = plan_restore(repos.drop_last(), mirrors, recorded_repos, recorded_mirrors);
        let x = repos.last();
        if find_repo(recorded_repos, x) is None && find_repo(ar0, x) is None {
            lemma_find_repo_none(ar0, x);
            let ar = ar0.push(x);
            assert forall|k: int| 0 <= k < ar.len() implies find_repo(recorded_repos, #[trigger] ar[k]) is None by {
                if k < ar0.len() {
                    assert(ar[k] == ar0[k]);
                }
            }
            assert forall|a: int, b: int| 0 <= a < b < ar.len() implies !same_repo(#[trigger] ar[a], #[trigger] ar[b]) by {
                if b < ar0.len() {
                    assert(ar[a] == ar0[a] && ar[b] == ar0[b]);
                } else {
                    assert(ar[a] == ar0[a] && ar[b] == x);
                }
            }
        }
        let (steps1, ar1, target) = match find_repo(recorded_repos, x) {
            Some(i) => (steps, ar0, RepoRef::Recorded(recorded_repos[i].id)),
            None => match find_repo(ar0, x) {
                Some(k) => (steps, ar0, RepoRef::Inserted(k as usize)),
                None => (steps.push(RestoreStep::InsertRepo(x)), ar0.push(x), RepoRef::Inserted(ar0.len() as usize)),
            },
        };
        let ms = if taken.contains(x.id) { Seq::empty() } else { mirrors_of(mirrors, x.id) };
        lemma_plan_mirrors_fresh(ms, recorded_mirrors, target, steps1, am0);
    }
}

} // verus!
