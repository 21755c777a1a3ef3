//! Repositories marked for a while, grouped by remote: marking one, and
//! taking out those that a query names. Remotes are kept in order of their
//! names, and the long names (`owner/name`) under each remote too.
use vstd::prelude::*;

use crate::db::{NameLevel, Repository};
use crate::error::Error;
use crate::exec::clone_strings;
use crate::repo::database::bucket::{bucket_ok, entry_at, repo_of_entry, Bucket, Database, Repo, RepoBucket};
use crate::repo::keywords::{lemma_lex_irreflexive, lemma_lex_total, lemma_lex_transitive, lex_lt, str_lt};
use crate::repo::query::{owner_and_name, parse_owner};
use crate::text::{chars_of, ends_with, ends_with_str, eq_str, opt_str, owned, string_of, strs};

verus! {

/// Each text comes before the next.
pub open spec fn strictly_sorted(ns: Seq<Seq<char>>) -> bool {
    forall|i: int, j: int| 0 <= i < j < ns.len() ==> lex_lt(#[trigger] ns[i], #[trigger] ns[j])
}

/// The marks as texts: each remote with the long names marked under it.
pub open spec fn marks_view(d: Seq<(String, Vec<String>)>) -> Seq<(Seq<char>, Seq<Seq<char>>)> {
    d.map_values(|e: (String, Vec<String>)| (e.0@, strs(e.1@)))
}

/// The remotes of the marks, in order.
pub open spec fn remotes_of(d: Seq<(Seq<char>, Seq<Seq<char>>)>) -> Seq<Seq<char>> {
    d.map_values(|e: (Seq<char>, Seq<Seq<char>>)| e.0)
}

/// The remotes come in order, and the names under each.
pub open spec fn marks_ok(d: Seq<(Seq<char>, Seq<Seq<char>>)>) -> bool {
    &&& strictly_sorted(remotes_of(d))
    &&& forall|i: int| 0 <= i < d.len() ==> strictly_sorted(#[trigger] d[i].1)
}

/// `k` is where `x` goes in `ns`: after every text that comes before `x`,
/// before every other.
pub open spec fn is_slot(ns: Seq<Seq<char>>, x: Seq<char>, k: int) -> bool {
    &&& 0 <= k <= ns.len()
    &&& forall|i: int| 0 <= i < k ==> lex_lt(#[trigger] ns[i], x)
    &&& forall|i: int| k <= i < ns.len() ==> !lex_lt(#[trigger] ns[i], x)
}

/// Where `x` goes in `ns`.
pub open spec fn slot(ns: Seq<Seq<char>>, x: Seq<char>) -> int {
    choose|k: int| is_slot(ns, x, k)
}

/// The ordered names `ns` with `x` among them.
pub open spec fn with_name(ns: Seq<Seq<char>>, x: Seq<char>) -> Seq<Seq<char>> {
    let k = slot(ns, x);
    if k < ns.len() && ns[k] == x {
        ns
    } else {
        ns.insert(k, x)
    }
}

/// The marks `d` with `name` marked under `remote`.
pub open spec fn marked(d: Seq<(Seq<char>, Seq<Seq<char>>)>, remote: Seq<char>, name: Seq<char>) -> Seq<
    (Seq<char>, Seq<Seq<char>>),
> {
    let k = slot(remotes_of(d), remote);
    if k < d.len() && d[k].0 == remote {
        d.update(k, (remote, with_name(d[k].1, name)))
    } else {
        d.insert(k, (remote, seq![name]))
    }
}

/// The marks under `key` are taken: the query names no remote, or this one.
pub open spec fn remote_taken(remote: Option<Seq<char>>, key: Seq<char>) -> bool {
    match remote {
        None => true,
        Some(r) => r == key,
    }
}

/// The mark `long` is taken: the query names no owner, or the owner of `long`.
pub open spec fn name_taken(owner: Option<Seq<char>>, long: Seq<char>) -> bool {
    match owner {
        None => true,
        Some(o) => owner_and_name(long).0 == o,
    }
}

/// The names of `ns` that stay, in order.
pub open spec fn names_kept(ns: Seq<Seq<char>>, owner: Option<Seq<char>>) -> Seq<Seq<char>>
    decreases ns.len(),
{
    if ns.len() == 0 {
        Seq::empty()
    } else {
        let r = names_kept(ns.drop_last(), owner);
        if name_taken(owner, ns.last()) { r } else { r.push(ns.last()) }
    }
}

/// The names of `ns` that are taken, each with the remote `key`, in order.
pub open spec fn names_taken(key: Seq<char>, ns: Seq<Seq<char>>, owner: Option<Seq<char>>) -> Seq<(Seq<char>, Seq<char>)>
    decreases ns.len(),
{
    if ns.len() == 0 {
        Seq::empty()
    } else {
        let r = names_taken(key, ns.drop_last(), owner);
        if name_taken(owner, ns.last()) { r.push((key, ns.last())) } else { r }
    }
}

/// The marks that stay: those of other remotes as they are, and under the
/// remotes taken the names not taken, where any is left.
pub open spec fn marks_left(d: Seq<(Seq<char>, Seq<Seq<char>>)>, remote: Option<Seq<char>>, owner: Option<Seq<char>>) -> Seq<
    (Seq<char>, Seq<Seq<char>>),
>
    decreases d.len(),
{
    if d.len() == 0 {
        Seq::empty()
    } else {
        let r = marks_left(d.drop_last(), remote, owner);
        let e = d.last();
        if !remote_taken(remote, e.0) {
            r.push(e)
        } else if names_kept(e.1, owner).len() == 0 {
            r
        } else {
            r.push((e.0, names_kept(e.1, owner)))
        }
    }
}

/// The marks taken, as remote and long name, in order.
pub open spec fn marks_taken(d: Seq<(Seq<char>, Seq<Seq<char>>)>, remote: Option<Seq<char>>, owner: Option<Seq<char>>) -> Seq<
    (Seq<char>, Seq<char>),
>
    decreases d.len(),
{
    if d.len() == 0 {
        Seq::empty()
    } else {
        let e = d.last();
        marks_taken(d.drop_last(), remote, owner) + if remote_taken(remote, e.0) {
            names_taken(e.0, e.1, owner)
        } else {
            Seq::empty()
        }
    }
}

/// The marks of `t` that the database holds: remote, owner, name and entry, in order.
pub open spec fn marks_found(b: Bucket, t: Seq<(Seq<char>, Seq<char>)>) -> Seq<(Seq<char>, Seq<char>, Seq<char>, RepoBucket)>
    decreases t.len(),
{
    if t.len() == 0 {
        Seq::empty()
    } else {
        let r = marks_found(b, t.drop_last());
        let p = t.last();
        let on = owner_and_name(p.1);
        match entry_at(b, p.0, on.0, on.1) {
            Some(e) => r.push((p.0, on.0, on.1, e)),
            None => r,
        }
    }
}

/// Each repository of `repos` is what the database gives for the mark found at its place.
pub open spec fn repos_found(repos: Seq<Repo>, f: Seq<(Seq<char>, Seq<char>, Seq<char>, RepoBucket)>, table: Seq<(u64, String)>) -> bool {
    &&& repos.len() == f.len()
    &&& forall|k: int| 0 <= k < f.len() ==> repo_of_entry(#[trigger] repos[k], f[k].0, f[k].1, f[k].2, f[k].3, table)
}

/// The owner that a query `owner/` names.
pub open spec fn query_owner(query: Option<Seq<char>>) -> Option<Seq<char>> {
    match query {
        None => None,
        Some(q) => Some(q.drop_last()),
    }
}

/// How much of the names to show: all of it with no remote, the owner on
/// with a remote alone, the name with a remote and an owner.
pub open spec fn taken_level(remote: Option<Seq<char>>, query: Option<Seq<char>>) -> NameLevel {
    if remote is None {
        NameLevel::Full
    } else if query is None {
        NameLevel::Owner
    } else {
        NameLevel::Name
    }
}

/// With no remote and no owner named, nothing is left under any remote.
pub proof fn law_take_all_leaves_nothing(d: Seq<(Seq<char>, Seq<Seq<char>>)>)
    ensures
        marks_left(d, None, None).len() == 0,
    decreases d.len(),
{
    if d.len() > 0 {
        law_take_all_leaves_nothing(d.drop_last());
        lemma_none_kept(d.last().1);
    }
}

proof fn lemma_none_kept(ns: Seq<Seq<char>>)
    ensures
        names_kept(ns, None).len() == 0,
    decreases ns.len(),
{
    if ns.len() > 0 {
        lemma_none_kept(ns.drop_last());
    }
}

proof fn lemma_slot_after_insert(ns: Seq<Seq<char>>, x: Seq<char>, k: int)
    requires
        is_slot(ns, x, k),
    ensures
        is_slot(ns.insert(k, x), x, k),
        slot(ns.insert(k, x), x) == k,
{
    let gs = ns.insert(k, x);
    lemma_lex_irreflexive(x);
    assert forall|i: int| 0 <= i < k implies lex_lt(#[trigger] gs[i], x) by {
        assert(gs[i] == ns[i]);
    }
    assert forall|i: int| k <= i < gs.len() implies !lex_lt(#[trigger] gs[i], x) by {
        if i > k {
            assert(gs[i] == ns[i - 1]);
        }
    }
    lemma_slot_unique(gs, x, k);
}

proof fn lemma_slot_exists(ns: Seq<Seq<char>>, x: Seq<char>)
    requires
        strictly_sorted(ns),
    ensures
        is_slot(ns, x, slot(ns, x)),
    decreases ns.len(),
{
    if ns.len() == 0 {
        assert(is_slot(ns, x, 0));
    } else {
        let t = ns.drop_last();
        assert(strictly_sorted(t)) by {
            assert forall|i: int, j: int| 0 <= i < j < t.len() implies lex_lt(#[trigger] t[i], #[trigger] t[j]) by {
                assert(t[i] == ns[i] && t[j] == ns[j]);
            }
        }
        lemma_slot_exists(t, x);
        let k0 = slot(t, x);
        let last = ns[ns.len() - 1];
        if k0 < t.len() {
            assert(lex_lt(ns[k0], last));
            if lex_lt(last, x) {
                lemma_lex_transitive(ns[k0], last, x);
                assert(ns[k0] == t[k0]);
            }
            assert forall|i: int| 0 <= i < k0 implies lex_lt(#[trigger] ns[i], x) by {
                assert(ns[i] == t[i]);
            }
            assert forall|i: int| k0 <= i < ns.len() implies !lex_lt(#[trigger] ns[i], x) by {
                if i < t.len() {
                    assert(ns[i] == t[i]);
                }
            }
            assert(is_slot(ns, x, k0));
        } else if lex_lt(last, x) {
            assert forall|i: int| 0 <= i < ns.len() implies lex_lt(#[trigger] ns[i], x) by {
                if i < t.len() {
                    assert(ns[i] == t[i]);
                }
            }
            assert(is_slot(ns, x, ns.len() as int));
        } else {
            assert forall|i: int| 0 <= i < t.len() implies lex_lt(#[trigger] ns[i], x) by {
                assert(ns[i] == t[i]);
            }
            assert(is_slot(ns, x, t.len() as int));
        }
    }
}

proof fn lemma_with_name_twice(ns: Seq<Seq<char>>, x: Seq<char>)
    requires
        strictly_sorted(ns),
    ensures
        with_name(with_name(ns, x), x) == with_name(ns, x),
{
    let k = slot(ns, x);
    lemma_slot_exists(ns, x);
    if !(k < ns.len() && ns[k] == x) {
        lemma_slot_after_insert(ns, x, k);
    }
}

/// Marking a repository twice marks it once.
pub proof fn law_mark_twice(d: Seq<(Seq<char>, Seq<Seq<char>>)>, remote: Seq<char>, name: Seq<char>)
    requires
        marks_ok(d),
    ensures
        marked(marked(d, remote, name), remote, name) == marked(d, remote, name),
{
    let rs = remotes_of(d);
    let k = slot(rs, remote);
    lemma_slot_exists(rs, remote);
    let d1 = marked(d, remote, name);
    if k < d.len() && d[k].0 == remote {
        assert(strictly_sorted(d[k].1));
        assert(remotes_of(d1) =~= rs);
        lemma_with_name_twice(d[k].1, name);
        assert(d1.update(k, (remote, with_name(d1[k].1, name))) =~= d1);
    } else {
        lemma_slot_after_insert(rs, remote, k);
        assert(remotes_of(d1) =~= rs.insert(k, remote));
        lemma_lex_irreflexive(name);
        assert(is_slot(seq![name], name, 0));
        lemma_slot_unique(seq![name], name, 0);
        assert(d1.update(k, (remote, with_name(d1[k].1, name))) =~= d1);
    }
}

proof fn lemma_slot_unique(ns: Seq<Seq<char>>, x: Seq<char>, k: int)
    requires
        is_slot(ns, x, k),
    ensures
        slot(ns, x) == k,
{
    let k2 = slot(ns, x);
    assert(is_slot(ns, x, k2));
    if k2 < k {
        assert(lex_lt(ns[k2], x));
        assert(!lex_lt(ns[k2], x));
    } else if k < k2 {
        assert(lex_lt(ns[k], x));
        assert(!lex_lt(ns[k], x));
    }
}

proof fn lemma_insert_sorted(ns: Seq<Seq<char>>, x: Seq<char>, k: int)
    requires
        strictly_sorted(ns),
        is_slot(ns, x, k),
        k == ns.len() || ns[k] != x,
    ensures
        strictly_sorted(ns.insert(k, x)),
{
    let gs = ns.insert(k, x);
    if k < ns.len() {
        lemma_lex_total(ns[k], x);
    }
    assert forall|a: int, b: int| 0 <= a < b < gs.len() implies lex_lt(#[trigger] gs[a], #[trigger] gs[b]) by {
        if b < k {
            assert(gs[a] == ns[a] && gs[b] == ns[b]);
        } else if b == k {
            assert(gs[a] == ns[a] && gs[b] == x);
        } else if a < k {
            assert(gs[a] == ns[a] && gs[b] == ns[b - 1]);
            assert(lex_lt(ns[a], x));
            assert(!lex_lt(ns[b - 1], x));
            if !lex_lt(ns[a], ns[b - 1]) {
                if ns[a] == ns[b - 1] {
                } else {
                    lemma_lex_total(ns[a], ns[b - 1]);
                    lemma_lex_transitive(ns[b - 1], ns[a], x);
                }
            }
        } else if a == k {
            assert(gs[a] == x && gs[b] == ns[b - 1]);
            assert(lex_lt(x, ns[k]));
            if b - 1 > k {
                lemma_lex_transitive(x, ns[k], ns[b - 1]);
            }
        } else {
            assert(gs[a] == ns[a - 1] && gs[b] == ns[b - 1]);
        }
    }
}

/// Where `x` goes among the ordered names of `v`.
fn slot_in(v: &Vec<String>, x: &str) -> (k: usize)
    requires
        strictly_sorted(strs(v@)),
    ensures
        is_slot(strs(v@), x@, k as int),
{
    let ghost ns = strs(v@);
    let mut k: usize = 0;
    while k < v.len() && str_lt(v[k].as_str(), x)
        invariant
            k <= v.len(),
            ns == strs(v@),
            forall|i: int| 0 <= i < k ==> lex_lt(#[trigger] ns[i], x@),
        decreases v.len() - k,
    {
        k = k + 1;
    }
    proof {
        assert forall|i: int| k <= i < ns.len() implies !lex_lt(#[trigger] ns[i], x@) by {
            if i > k && lex_lt(ns[i], x@) {
                lemma_lex_transitive(ns[k as int], ns[i], x@);
            }
        }
    }
    k
}

/// Where the remote `x` goes among the remotes of `d`.
fn remote_slot(d: &Vec<(String, Vec<String>)>, x: &str) -> (k: usize)
    requires
        marks_ok(marks_view(d@)),
    ensures
        is_slot(remotes_of(marks_view(d@)), x@, k as int),
{
    let ghost ns = remotes_of(marks_view(d@));
    let mut k: usize = 0;
    while k < d.len() && str_lt(d[k].0.as_str(), x)
        invariant
            k <= d.len(),
            ns == remotes_of(marks_view(d@)),
            strictly_sorted(ns),
            forall|i: int| 0 <= i < k ==> lex_lt(#[trigger] ns[i], x@),
        decreases d.len() - k,
    {
        assert(ns[k as int] == d@[k as int].0@);
        k = k + 1;
    }
    proof {
        if k < d.len() {
            assert(ns[k as int] == d@[k as int].0@);
        }
        assert forall|i: int| k <= i < ns.len() implies !lex_lt(#[trigger] ns[i], x@) by {
            if i > k && lex_lt(ns[i], x@) {
                lemma_lex_transitive(ns[k as int], ns[i], x@);
            }
        }
    }
    k
}

/// Marked repositories by remote: each remote with the long names
/// (`owner/name`) of its marked repositories.
pub struct TmpMark {
    pub data: Vec<(String, Vec<String>)>,
}

impl TmpMark {
    /// No repository marked.
    pub fn new() -> (r: TmpMark)
        ensures
            r.data.len() == 0,
            marks_ok(marks_view(r.data@)),
    {
        let r = TmpMark { data: Vec::new() };
        assert(remotes_of(marks_view(r.data@)) =~= Seq::<Seq<char>>::empty());
        r
    }

    /// Marks `repo` under its remote by its long name.
    pub fn mark(&mut self, repo: &Repository)
        requires
            marks_ok(marks_view(old(self).data@)),
        ensures
            marks_ok(marks_view(final(self).data@)),
            marks_view(final(self).data@) == marked(marks_view(old(self).data@), repo.remote@, repo.owner@ + "/"@ + repo.name@),
    {
        let ghost d = marks_view(self.data@);
        let name = repo.long_name();
        let k = remote_slot(&self.data, repo.remote.as_str());
        proof {
            lemma_slot_unique(remotes_of(d), repo.remote@, k as int);
        }
        if k < self.data.len() && eq_str(self.data[k].0.as_str(), repo.remote.as_str()) {
            assert(d[k as int].1 == strs(self.data@[k as int].1@));
            assert(strictly_sorted(d[k as int].1));
            let j = slot_in(&self.data[k].1, name.as_str());
            proof {
                lemma_slot_unique(d[k as int].1, name@, j as int);
            }
            if j < self.data[k].1.len() && eq_str(self.data[k].1[j].as_str(), name.as_str()) {
                proof {
                    assert(d[k as int].1[j as int] == name@);
                    assert(d.update(k as int, (repo.remote@, with_name(d[k as int].1, name@))) =~= d);
                }
                return;
            }
            let mut entry = self.data.remove(k);
            let ghost old_names = strs(entry.1@);
            proof {
                if j < old_names.len() {
                    assert(old_names[j as int] != name@);
                }
                lemma_insert_sorted(old_names, name@, j as int);
            }
            entry.1.insert(j, name);
            assert(strs(entry.1@) =~= old_names.insert(j as int, repo.owner@ + "/"@ + repo.name@));
            self.data.insert(k, entry);
            proof {
                let nd = marks_view(self.data@);
                assert(nd =~= d.update(k as int, (repo.remote@, with_name(d[k as int].1, name@))));
                assert(remotes_of(nd) =~= remotes_of(d));
                assert forall|i: int| 0 <= i < nd.len() implies strictly_sorted(#[trigger] nd[i].1) by {
                    if i != k {
                        assert(nd[i] == d[i]);
                    }
                }
            }
        } else {
            let ghost rs = remotes_of(d);
            proof {
                if k < self.data.len() {
                    assert(rs[k as int] == d[k as int].0);
                    assert(rs[k as int] != repo.remote@);
                }
                lemma_insert_sorted(rs, repo.remote@, k as int);
            }
            let names = vec![name];
            self.data.insert(k, (owned(repo.remote.as_str()), names));
            proof {
                let nd = marks_view(self.data@);
                assert(strs(names@) =~= seq![repo.owner@ + "/"@ + repo.name@]);
                assert(nd =~= d.insert(k as int, (repo.remote@, seq![repo.owner@ + "/"@ + repo.name@])));
                assert(remotes_of(nd) =~= rs.insert(k as int, repo.remote@));
                assert forall|i: int| 0 <= i < nd.len() implies strictly_sorted(#[trigger] nd[i].1) by {
                    if i < k {
                        assert(nd[i] == d[i]);
                    } else if i > k {
                        assert(nd[i] == d[i - 1]);
                    }
                }
            }
        }
    }
    /// Takes out the marks that `remote` and `query` name and gives the
    /// repositories of those that the database holds. With no remote every
    /// remote is taken; with a query, which must name an owner (`owner/`),
    /// only that owner's marks. Remotes left with no mark are dropped.
    #[verifier::spinoff_prover]
    pub fn query_remove(&mut self, db: &Database, remote: &Option<String>, query: &Option<String>) -> (r: Result<
        (Vec<Repo>, NameLevel),
        Error,
    >)
        requires
            marks_ok(marks_view(old(self).data@)),
            bucket_ok(db.bucket),
        ensures
            (query matches Some(q) && !ends_with(q@, "/"@)) ==> (r == Err::<(Vec<Repo>, NameLevel), Error>(
                Error::TmpQueryNotOwner,
            ) && final(self).data@ == old(self).data@),
            !(query matches Some(q) && !ends_with(q@, "/"@)) ==> (r matches Ok((repos, level))
                && level == taken_level(opt_str(*remote), opt_str(*query))
                && repos_found(repos@, marks_found(db.bucket, marks_taken(marks_view(old(self).data@), opt_str(*remote),
                query_owner(opt_str(*query)))), db.bucket.labels@)
                && marks_view(final(self).data@) == marks_left(marks_view(old(self).data@), opt_str(*remote), query_owner(
                opt_str(*query),
            ))),
            marks_ok(marks_view(final(self).data@)),
    {
        let owner: Option<String> = match query {
            Some(q) => {
                if !ends_with_str(q.as_str(), "/") {
                    return Err(Error::TmpQueryNotOwner);
                }
                let v = chars_of(q.as_str());
                proof {
                    reveal_strlit("/");
                    assert(v@.len() >= 1);
                }
                let o = string_of(&v, 0, v.len() - 1);
                assert(o@ =~= q@.drop_last());
                Some(o)
            },
            None => None,
        };
        let ghost d = marks_view(self.data@);
        let ghost ro = opt_str(*remote);
        let ghost qo = opt_str(owner);
        assert(qo == query_owner(opt_str(*query)));
        let mut repos: Vec<Repo> = Vec::new();
        let mut left: Vec<(String, Vec<String>)> = Vec::new();
        let mut i: usize = 0;
        proof {
            assert(d.take(0) =~= Seq::<(Seq<char>, Seq<Seq<char>>)>::empty());
            assert(marks_view(left@) =~= Seq::<(Seq<char>, Seq<Seq<char>>)>::empty());
            assert(remotes_of(marks_view(left@)) =~= Seq::<Seq<char>>::empty());
        }
        while i < self.data.len()
            invariant
                i <= self.data.len(),
                d == marks_view(self.data@),
                marks_ok(d),
                bucket_ok(db.bucket),
                ro == opt_str(*remote),
                qo == opt_str(owner),
                marks_view(left@) == marks_left(d.take(i as int), ro, qo),
                marks_ok(marks_view(left@)),
                forall|q: int, p: int| 0 <= q < left.len() && i <= p < d.len() ==> lex_lt(#[trigger] left@[q].0@, #[trigger] d[p].0),
                repos_found(repos@, marks_found(db.bucket, marks_taken(d.take(i as int), ro, qo)), db.bucket.labels@),
            decreases self.data.len() - i,
        {
            let key = self.data[i].0.as_str();
            let set = &self.data[i].1;
            let ghost ns = strs(set@);
            let ghost t0 = marks_taken(d.take(i as int), ro, qo);
            assert(d[i as int] == (key@, ns));
            proof {
                assert(d.take(i + 1).drop_last() =~= d.take(i as int));
                assert(d.take(i + 1).last() == d[i as int]);
            }
            let hit = match remote {
                None => true,
                Some(rm) => eq_str(rm.as_str(), key),
            };
            let ghost before = marks_view(left@);
            let ghost old_left = left@;
            assert(forall|q: int| 0 <= q < old_left.len() ==> lex_lt(#[trigger] old_left[q].0@, d[i as int].0));
            if !hit {
                let e = (owned(key), clone_strings(set));
                left.push(e);
                proof {
                    assert(t0 + Seq::<(Seq<char>, Seq<char>)>::empty() =~= t0);
                    let nl = marks_view(left@);
                    assert(nl =~= before.push(d[i as int]));
                    assert(remotes_of(nl) =~= remotes_of(before).push(key@));
                    assert forall|a: int, b: int| 0 <= a < b < remotes_of(nl).len() implies lex_lt(
                        #[trigger] remotes_of(nl)[a],
                        #[trigger] remotes_of(nl)[b],
                    ) by {
                        if b == before.len() {
                            assert(remotes_of(nl)[a] == left@[a].0@);
                            assert(left@[a] == old_left[a]);
                        } else {
                            assert(remotes_of(nl)[a] == remotes_of(before)[a]);
                            assert(remotes_of(nl)[b] == remotes_of(before)[b]);
                        }
                    }
                    assert forall|a: int| 0 <= a < nl.len() implies strictly_sorted(#[trigger] nl[a].1) by {
                        if a < before.len() {
                            assert(nl[a] == before[a]);
                        }
                    }
                    assert forall|q: int, p: int| 0 <= q < left.len() && i + 1 <= p < d.len() implies lex_lt(
                        #[trigger] left@[q].0@,
                        #[trigger] d[p].0,
                    ) by {
                        if q == left.len() - 1 {
                            assert(remotes_of(d)[i as int] == d[i as int].0);
                            assert(remotes_of(d)[p] == d[p].0);
                        }
                    }
                }
            } else {
                let mut kept: Vec<String> = Vec::new();
                let mut j: usize = 0;
                proof {
                    assert(strictly_sorted(d[i as int].1));
                    assert(ns.take(0) =~= Seq::<Seq<char>>::empty());
                    assert(strs(kept@) =~= Seq::<Seq<char>>::empty());
                    assert(t0 + names_taken(key@, ns.take(0), qo) =~= t0);
                }
                while j < set.len()
                    invariant
                        j <= set.len(),
                        ns == strs(set@),
                        strictly_sorted(ns),
                        bucket_ok(db.bucket),
                        qo == opt_str(owner),
                        strs(kept@) == names_kept(ns.take(j as int), qo),
                        strictly_sorted(strs(kept@)),
                        forall|q: int, p: int| 0 <= q < kept.len() && j <= p < ns.len() ==> lex_lt(#[trigger] kept@[q]@, #[trigger] ns[p]),
                        repos_found(repos@, marks_found(db.bucket, t0 + names_taken(key@, ns.take(j as int), qo)), db.bucket.labels@),
                    decreases set.len() - j,
                {
                    let x = set[j].as_str();
                    let (own, name) = parse_owner(x);
                    let ghost tj = t0 + names_taken(key@, ns.take(j as int), qo);
                    proof {
                        assert(ns.take(j + 1).drop_last() =~= ns.take(j as int));
                        assert(ns.take(j + 1).last() == ns[j as int]);
                        assert(ns[j as int] == x@);
                    }
                    let take = match &owner {
                        None => true,
                        Some(o) => eq_str(own.as_str(), o.as_str()),
                    };
                    if take {
                        let ghost tj1 = tj.push((key@, x@));
                        proof {
                            assert(t0 + names_taken(key@, ns.take(j + 1), qo) =~= tj1);
                            assert(tj1.drop_last() =~= tj);
                        }
                        match db.get(key, own.as_str(), name.as_str()) {
                            Some(repo) => {
                                let ghost f0 = marks_found(db.bucket, tj);
                                repos.push(repo);
                                proof {
                                    assert forall|k: int| 0 <= k < repos@.len() implies repo_of_entry(
                                        #[trigger] repos@[k],
                                        marks_found(db.bucket, tj1)[k].0,
                                        marks_found(db.bucket, tj1)[k].1,
                                        marks_found(db.bucket, tj1)[k].2,
                                        marks_found(db.bucket, tj1)[k].3,
                                        db.bucket.labels@,
                                    ) by {
                                        if k < f0.len() {
                                            assert(marks_found(db.bucket, tj1)[k] == f0[k]);
                                        }
                                    }
                                }
                            },
                            None => {},
                        }
                    } else {
                        let ghost old_kept = kept@;
                        assert(forall|q: int| 0 <= q < old_kept.len() ==> lex_lt(#[trigger] old_kept[q]@, ns[j as int]));
                        kept.push(owned(x));
                        proof {
                            assert(t0 + names_taken(key@, ns.take(j + 1), qo) =~= tj);
                            let before_k = strs(kept@).drop_last();
                            assert(strs(kept@) =~= names_kept(ns.take(j as int), qo).push(x@));
                            assert forall|a: int, b: int| 0 <= a < b < kept@.len() implies lex_lt(
                                #[trigger] strs(kept@)[a],
                                #[trigger] strs(kept@)[b],
                            ) by {
                                if b == kept@.len() - 1 {
                                    assert(strs(kept@)[a] == kept@[a]@);
                                    assert(kept@[a] == old_kept[a]);
                                } else {
                                    assert(strs(kept@)[a] == before_k[a]);
                                    assert(strs(kept@)[b] == before_k[b]);
                                }
                            }
                            assert forall|q: int, p: int| 0 <= q < kept.len() && j + 1 <= p < ns.len() implies lex_lt(
                                #[trigger] kept@[q]@,
                                #[trigger] ns[p],
                            ) by {
                                if q == kept.len() - 1 {
                                    assert(kept@[q]@ == ns[j as int]);
                                }
                            }
                        }
                    }
                    j = j + 1;
                }
                proof {
                    assert(ns.take(set.len() as int) =~= ns);
                }
                if kept.len() > 0 {
                    left.push((owned(key), kept));
                    proof {
                        let nl = marks_view(left@);
                        assert(nl =~= before.push((key@, names_kept(ns, qo))));
                        assert(remotes_of(nl) =~= remotes_of(before).push(key@));
                        assert forall|a: int, b: int| 0 <= a < b < remotes_of(nl).len() implies lex_lt(
                            #[trigger] remotes_of(nl)[a],
                            #[trigger] remotes_of(nl)[b],
                        ) by {
                            if b == before.len() {
                                assert(remotes_of(nl)[a] == left@[a].0@);
                                assert(left@[a] == old_left[a]);
                            } else {
                                assert(remotes_of(nl)[a] == remotes_of(before)[a]);
                                assert(remotes_of(nl)[b] == remotes_of(before)[b]);
                            }
                        }
                        assert forall|a: int| 0 <= a < nl.len() implies strictly_sorted(#[trigger] nl[a].1) by {
                            if a < before.len() {
                                assert(nl[a] == before[a]);
                            }
                        }
                        assert forall|q: int, p: int| 0 <= q < left.len() && i + 1 <= p < d.len() implies lex_lt(
                            #[trigger] left@[q].0@,
                            #[trigger] d[p].0,
                        ) by {
                            if q == left.len() - 1 {
                                assert(remotes_of(d)[i as int] == d[i as int].0);
                                assert(remotes_of(d)[p] == d[p].0);
                            }
                        }
                    }
                }
            }
            i = i + 1;
        }
        proof {
            assert(d.take(self.data.len() as int) =~= d);
        }
        self.data = left;
        let level = if remote.is_none() {
            NameLevel::Full
        } else if query.is_none() {
            NameLevel::Owner
        } else {
            NameLevel::Name
        };
        Ok((repos, level))
    }
}

} // verus!