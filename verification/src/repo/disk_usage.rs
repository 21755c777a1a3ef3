//! Disk usage of repositories, and its totals per remote and per owner.
use vstd::prelude::*;
use vstd::seq_lib::{to_multiset_contains, to_multiset_insert};

use crate::db::{OwnerState, RemoteState, Repository};

verus! {

/// The bytes a repository takes on disk.
#[derive(Debug, Clone, Default, PartialEq, Eq)]
pub struct RepoDiskUsage {
    pub repo: Repository,
    pub usage: u64,
}

/// The repositories' usages, with how many there are in all.
#[derive(Debug, Clone, Default, PartialEq, Eq)]
pub struct RepoDiskUsageList {
    pub usages: Vec<RepoDiskUsage>,
    pub total: u32,
}

/// The bytes the repositories of a remote take.
#[derive(Debug, Clone, Default, PartialEq, Eq)]
pub struct RemoteDiskUsage {
    pub remote: RemoteState,
    pub usage: u64,
}

/// The remotes' usages, with how many there are in all.
#[derive(Debug, Clone, Default, PartialEq, Eq)]
pub struct RemoteDiskUsageList {
    pub usages: Vec<RemoteDiskUsage>,
    pub total: u32,
}

/// The bytes the repositories of an owner take.
#[derive(Debug, Clone, Default, PartialEq, Eq)]
pub struct OwnerDiskUsage {
    pub owner: OwnerState,
    pub usage: u64,
}

/// The owners' usages, with how many there are in all.
#[derive(Debug, Clone, Default, PartialEq, Eq)]
pub struct OwnerDiskUsageList {
    pub show_remote: bool,
    pub usages: Vec<OwnerDiskUsage>,
    pub total: u32,
}

/// The bytes of all the repositories.
pub open spec fn total_usage(rs: Seq<RepoDiskUsage>) -> int
    decreases rs.len(),
{
    if rs.len() == 0 { 0 } else { total_usage(rs.drop_last()) + rs.last().usage }
}

/// The bytes of the repositories under `remote`.
pub open spec fn remote_usage(rs: Seq<RepoDiskUsage>, remote: Seq<char>) -> int
    decreases rs.len(),
{
    if rs.len() == 0 {
        0
    } else {
        remote_usage(rs.drop_last(), remote) + if rs.last().repo.remote@ == remote { rs.last().usage as int } else { 0 }
    }
}

/// How many of the repositories are under `remote`.
pub open spec fn remote_repos(rs: Seq<RepoDiskUsage>, remote: Seq<char>) -> int
    decreases rs.len(),
{
    if rs.len() == 0 {
        0
    } else {
        remote_repos(rs.drop_last(), remote) + if rs.last().repo.remote@ == remote { 1int } else { 0 }
    }
}

/// A repository under `remote` belongs to `owner`.
pub open spec fn has_owner(rs: Seq<RepoDiskUsage>, remote: Seq<char>, owner: Seq<char>) -> bool {
    exists|j: int| 0 <= j < rs.len() && #[trigger] rs[j].repo.remote@ == remote && rs[j].repo.owner@ == owner
}

/// How many distinct owners the repositories under `remote` have.
pub open spec fn remote_owners(rs: Seq<RepoDiskUsage>, remote: Seq<char>) -> int
    decreases rs.len(),
{
    if rs.len() == 0 {
        0
    } else {
        let last = rs.last().repo;
        remote_owners(rs.drop_last(), remote) + if last.remote@ == remote && !has_owner(rs.drop_last(), remote, last.owner@) {
            1int
        } else {
            0
        }
    }
}

/// The totals for one remote, as the grouping gives them.
pub open spec fn remote_totals(rs: Seq<RepoDiskUsage>, x: RemoteDiskUsage) -> bool {
    &&& x.usage == remote_usage(rs, x.remote.remote@)
    &&& x.remote.repo_count == remote_repos(rs, x.remote.remote@)
    &&& x.remote.owner_count == remote_owners(rs, x.remote.remote@)
    &&& exists|j: int| 0 <= j < rs.len() && #[trigger] rs[j].repo.remote@ == x.remote.remote@
}

/// The bytes of the repositories under `remote` and `owner`.
pub open spec fn owner_usage(rs: Seq<RepoDiskUsage>, remote: Seq<char>, owner: Seq<char>) -> int
    decreases rs.len(),
{
    if rs.len() == 0 {
        0
    } else {
        owner_usage(rs.drop_last(), remote, owner) + if rs.last().repo.remote@ == remote && rs.last().repo.owner@ == owner {
            rs.last().usage as int
        } else {
            0
        }
    }
}

/// How many of the repositories are under `remote` and `owner`.
pub open spec fn owner_repos(rs: Seq<RepoDiskUsage>, remote: Seq<char>, owner: Seq<char>) -> int
    decreases rs.len(),
{
    if rs.len() == 0 {
        0
    } else {
        owner_repos(rs.drop_last(), remote, owner) + if rs.last().repo.remote@ == remote && rs.last().repo.owner@ == owner {
            1int
        } else {
            0
        }
    }
}

/// The totals for one owner, as the grouping gives them.
pub open spec fn owner_totals(rs: Seq<RepoDiskUsage>, x: OwnerDiskUsage) -> bool {
    &&& x.usage == owner_usage(rs, x.owner.remote@, x.owner.owner@)
    &&& x.owner.repo_count == owner_repos(rs, x.owner.remote@, x.owner.owner@)
    &&& has_owner(rs, x.owner.remote@, x.owner.owner@)
}

proof fn lemma_totals_bounded(rs: Seq<RepoDiskUsage>, remote: Seq<char>, owner: Seq<char>)
    ensures
        0 <= remote_usage(rs, remote) <= total_usage(rs),
        0 <= owner_usage(rs, remote, owner) <= remote_usage(rs, remote),
        0 <= remote_owners(rs, remote) <= remote_repos(rs, remote) <= rs.len(),
        0 <= owner_repos(rs, remote, owner) <= rs.len(),
        0 <= total_usage(rs),
    decreases rs.len(),
{
    if rs.len() > 0 {
        lemma_totals_bounded(rs.drop_last(), remote, owner);
    }
}

proof fn lemma_total_usage_take(rs: Seq<RepoDiskUsage>, i: int)
    requires
        0 <= i <= rs.len(),
    ensures
        total_usage(rs.take(i)) <= total_usage(rs),
    decreases rs.len() - i,
{
    if i < rs.len() {
        lemma_total_usage_take(rs, i + 1);
        assert(rs.take(i + 1).drop_last() =~= rs.take(i));
        lemma_totals_bounded(rs.take(i), Seq::empty(), Seq::empty());
    } else {
        assert(rs.take(i) =~= rs);
    }
}

proof fn lemma_repos_positive(rs: Seq<RepoDiskUsage>, remote: Seq<char>)
    requires
        remote_repos(rs, remote) > 0,
    ensures
        exists|j: int| 0 <= j < rs.len() && #[trigger] rs[j].repo.remote@ == remote,
    decreases rs.len(),
{
    if rs.last().repo.remote@ != remote {
        lemma_repos_positive(rs.drop_last(), remote);
        let j = choose|j: int| 0 <= j < rs.drop_last().len() && #[trigger] rs.drop_last()[j].repo.remote@ == remote;
        assert(rs[j] == rs.drop_last()[j]);
    } else {
        assert(rs[rs.len() - 1].repo.remote@ == remote);
    }
}

proof fn lemma_owner_repos_positive(rs: Seq<RepoDiskUsage>, remote: Seq<char>, owner: Seq<char>)
    requires
        owner_repos(rs, remote, owner) > 0,
    ensures
        has_owner(rs, remote, owner),
    decreases rs.len(),
{
    if !(rs.last().repo.remote@ == remote && rs.last().repo.owner@ == owner) {
        lemma_owner_repos_positive(rs.drop_last(), remote, owner);
        let j = choose|j: int| 0 <= j < rs.drop_last().len() && #[trigger] rs.drop_last()[j].repo.remote@ == remote
            && rs.drop_last()[j].repo.owner@ == owner;
        assert(rs[j] == rs.drop_last()[j]);
    } else {
        assert(rs[rs.len() - 1].repo.remote@ == remote);
    }
}

/// Whether a repository in `rs[..i]` is under `remote` and `owner`.
fn seen_owner(rs: &Vec<RepoDiskUsage>, i: usize, remote: &str, owner: &str) -> (r: bool)
    requires
        i <= rs.len(),
    ensures
        r == has_owner(rs@.take(i as int), remote@, owner@),
{
    let mut j: usize = 0;
    while j < i
        invariant
            i <= rs.len(),
            j <= i,
            !has_owner(rs@.take(j as int), remote@, owner@),
        decreases i - j,
    {
        if crate::text::eq_str(rs[j].repo.remote.as_str(), remote) && crate::text::eq_str(rs[j].repo.owner.as_str(), owner) {
            assert(rs@.take(i as int)[j as int] == rs@[j as int]);
            return true;
        }
        assert forall|k: int| 0 <= k < j + 1 implies !(#[trigger] rs@.take(j + 1)[k].repo.remote@ == remote@
            && rs@.take(j + 1)[k].repo.owner@ == owner@) by {
            if k < j {
                assert(rs@.take(j + 1)[k] == rs@.take(j as int)[k]);
            }
        }
        j += 1;
    }
    proof {
        assert forall|k: int| 0 <= k < i implies !(#[trigger] rs@.take(i as int)[k].repo.remote@ == remote@
            && rs@.take(i as int)[k].repo.owner@ == owner@) by {
            assert(rs@.take(i as int)[k] == rs@.take(j as int)[k]);
        }
    }
    false
}

/// The remotes are ordered by usage, largest first.
pub open spec fn remote_usage_desc(v: Seq<RemoteDiskUsage>) -> bool {
    forall|i: int, j: int| 0 <= i < j < v.len() ==> v[i].usage >= v[j].usage
}

/// The owners are ordered by usage, largest first.
pub open spec fn owner_usage_desc(v: Seq<OwnerDiskUsage>) -> bool {
    forall|i: int, j: int| 0 <= i < j < v.len() ==> v[i].usage >= v[j].usage
}

/// An entry for `remote` is in the list.
pub open spec fn remote_listed(r: Seq<RemoteDiskUsage>, remote: Seq<char>) -> bool {
    exists|i: int| 0 <= i < r.len() && #[trigger] r[i].remote.remote@ == remote
}

/// An entry for `remote` and `owner` is in the list.
pub open spec fn owner_listed(r: Seq<OwnerDiskUsage>, remote: Seq<char>, owner: Seq<char>) -> bool {
    exists|i: int| 0 <= i < r.len() && #[trigger] r[i].owner.remote@ == remote && r[i].owner.owner@ == owner
}

/// The totals per remote, largest first: one entry for each remote that a
/// repository is under, with the bytes and the repositories under it and how
/// many distinct owners they have.
pub open spec fn remote_grouping(rs: Seq<RepoDiskUsage>, r: Seq<RemoteDiskUsage>) -> bool {
    &&& remote_usage_desc(r)
    &&& forall|i: int| 0 <= i < r.len() ==> remote_totals(rs, #[trigger] r[i])
    &&& forall|j: int| 0 <= j < rs.len() ==> remote_listed(r, #[trigger] rs[j].repo.remote@)
    &&& forall|i: int, k: int| 0 <= i < k < r.len() ==> r[i].remote.remote@ != r[k].remote.remote@
}

/// The totals per owner, largest first: one entry for each remote and owner
/// that a repository is under, with the bytes and the repositories under it.
pub open spec fn owner_grouping(rs: Seq<RepoDiskUsage>, r: Seq<OwnerDiskUsage>) -> bool {
    &&& owner_usage_desc(r)
    &&& forall|i: int| 0 <= i < r.len() ==> owner_totals(rs, #[trigger] r[i])
    &&& forall|j: int| 0 <= j < rs.len() ==> owner_listed(r, #[trigger] rs[j].repo.remote@, rs[j].repo.owner@)
    &&& forall|i: int, k: int| 0 <= i < k < r.len() ==> !(r[i].owner.remote@ == r[k].owner.remote@ && r[i].owner.owner@ == r[k].owner.owner@)
}

fn sort_remote_usages(v: Vec<RemoteDiskUsage>) -> (r: Vec<RemoteDiskUsage>)
    ensures
        remote_usage_desc(r@),
        r@.to_multiset() == v@.to_multiset(),
{
    let ghost orig = v@;
    let mut v = v;
    let mut out: Vec<RemoteDiskUsage> = Vec::new();
    proof {
        broadcast use vstd::multiset::group_multiset_axioms;
        vstd::seq_lib::to_multiset_len(out@);
        vstd::multiset::lemma_multiset_empty_len(out@.to_multiset());
        assert(out@.to_multiset().add(v@.to_multiset()) =~= orig.to_multiset());
    }
    while v.len() > 0
        invariant
            remote_usage_desc(out@),
            out@.to_multiset().add(v@.to_multiset()) == orig.to_multiset(),
        decreases v.len(),
    {
        let ghost vb = v@;
        let x = v.pop().unwrap();
        let mut p: usize = 0;
        while p < out.len() && out[p].usage >= x.usage
            invariant
                p <= out.len(),
                forall|k: int| 0 <= k < p ==> out@[k].usage >= x.usage,
            decreases out.len() - p,
        {
            p += 1;
        }
        let ghost before = out@;
        out.insert(p, x);
        proof {
            broadcast use vstd::multiset::group_multiset_axioms;
            to_multiset_insert(before, p as int, x);
            assert(vb =~= v@.push(x));
            vstd::seq_lib::to_multiset_build(v@, x);
            assert(out@.to_multiset().add(v@.to_multiset()) =~= before.to_multiset().add(vb.to_multiset()));
            assert forall|a: int, b: int| 0 <= a < b < out@.len() implies out@[a].usage >= out@[b].usage by {
                if p < before.len() {
                    assert(before[p as int].usage < x.usage);
                }
                if a < p && b > p {
                    assert(out@[a] == before[a]);
                    assert(out@[b] == before[b - 1]);
                } else if a < p && b == p {
                    assert(out@[a] == before[a]);
                } else if a == p {
                    assert(out@[b] == before[b - 1]);
                    assert(before[p as int].usage >= before[b - 1].usage);
                } else if b < p {
                    assert(out@[a] == before[a] && out@[b] == before[b]);
                } else {
                    assert(out@[a] == before[a - 1] && out@[b] == before[b - 1]);
                }
            }
        }
    }
    proof {
        broadcast use vstd::multiset::group_multiset_axioms;
        vstd::seq_lib::to_multiset_len(v@);
        vstd::multiset::lemma_multiset_empty_len(v@.to_multiset());
        assert(out@.to_multiset() =~= out@.to_multiset().add(v@.to_multiset()));
    }
    out
}

fn sort_owner_usages(v: Vec<OwnerDiskUsage>) -> (r: Vec<OwnerDiskUsage>)
    ensures
        owner_usage_desc(r@),
        r@.to_multiset() == v@.to_multiset(),
{
    let ghost orig = v@;
    let mut v = v;
    let mut out: Vec<OwnerDiskUsage> = Vec::new();
    proof {
        broadcast use vstd::multiset::group_multiset_axioms;
        vstd::seq_lib::to_multiset_len(out@);
        vstd::multiset::lemma_multiset_empty_len(out@.to_multiset());
        assert(out@.to_multiset().add(v@.to_multiset()) =~= orig.to_multiset());
    }
    while v.len() > 0
        invariant
            owner_usage_desc(out@),
            out@.to_multiset().add(v@.to_multiset()) == orig.to_multiset(),
        decreases v.len(),
    {
        let ghost vb = v@;
        let x = v.pop().unwrap();
        let mut p: usize = 0;
        while p < out.len() && out[p].usage >= x.usage
            invariant
                p <= out.len(),
                forall|k: int| 0 <= k < p ==> out@[k].usage >= x.usage,
            decreases out.len() - p,
        {
            p += 1;
        }
        let ghost before = out@;
        out.insert(p, x);
        proof {
            broadcast use vstd::multiset::group_multiset_axioms;
            to_multiset_insert(before, p as int, x);
            assert(vb =~= v@.push(x));
            vstd::seq_lib::to_multiset_build(v@, x);
            assert(out@.to_multiset().add(v@.to_multiset()) =~= before.to_multiset().add(vb.to_multiset()));
            assert forall|a: int, b: int| 0 <= a < b < out@.len() implies out@[a].usage >= out@[b].usage by {
                if p < before.len() {
                    assert(before[p as int].usage < x.usage);
                }
                if a < p && b > p {
                    assert(out@[a] == before[a]);
                    assert(out@[b] == before[b - 1]);
                } else if a < p && b == p {
                    assert(out@[a] == before[a]);
                } else if a == p {
                    assert(out@[b] == before[b - 1]);
                    assert(before[p as int].usage >= before[b - 1].usage);
                } else if b < p {
                    assert(out@[a] == before[a] && out@[b] == before[b]);
                } else {
                    assert(out@[a] == before[a - 1] && out@[b] == before[b - 1]);
                }
            }
        }
    }
    proof {
        broadcast use vstd::multiset::group_multiset_axioms;
        vstd::seq_lib::to_multiset_len(v@);
        vstd::multiset::lemma_multiset_empty_len(v@.to_multiset());
        assert(out@.to_multiset() =~= out@.to_multiset().add(v@.to_multiset()));
    }
    out
}

proof fn lemma_remote_step(rs: Seq<RepoDiskUsage>, i: int, key: Seq<char>)
    requires
        0 <= i < rs.len(),
    ensures
        remote_usage(rs.take(i + 1), key) == remote_usage(rs.take(i), key) + if rs[i].repo.remote@ == key { rs[i].usage as int } else { 0 },
        remote_repos(rs.take(i + 1), key) == remote_repos(rs.take(i), key) + if rs[i].repo.remote@ == key { 1int } else { 0 },
        remote_owners(rs.take(i + 1), key) == remote_owners(rs.take(i), key) + if rs[i].repo.remote@ == key
            && !has_owner(rs.take(i), key, rs[i].repo.owner@) { 1int } else { 0 },
{
    assert(rs.take(i + 1).drop_last() =~= rs.take(i));
    assert(rs.take(i + 1).last() == rs[i]);
}

proof fn lemma_exists_extends(rs: Seq<RepoDiskUsage>, i: int, key: Seq<char>)
    requires
        0 <= i < rs.len(),
        exists|j: int| 0 <= j < rs.take(i).len() && #[trigger] rs.take(i)[j].repo.remote@ == key,
    ensures
        exists|j: int| 0 <= j < rs.take(i + 1).len() && #[trigger] rs.take(i + 1)[j].repo.remote@ == key,
{
    let j = choose|j: int| 0 <= j < rs.take(i).len() && #[trigger] rs.take(i)[j].repo.remote@ == key;
    assert(rs.take(i + 1)[j] == rs.take(i)[j]);
}

/// Keys of the groups built so far are distinct.
pub open spec fn remote_keys_distinct(g: Seq<RemoteDiskUsage>) -> bool {
    forall|a: int, b: int| 0 <= a < b < g.len() ==> g[a].remote.remote@ != g[b].remote.remote@
}

proof fn lemma_in_other<T>(r: Seq<T>, g: Seq<T>, x: T)
    requires
        r.to_multiset() == g.to_multiset(),
        r.contains(x),
    ensures
        g.contains(x),
{
    to_multiset_contains(r, x);
    to_multiset_contains(g, x);
}

proof fn lemma_remote_sorted(rs: Seq<RepoDiskUsage>, g: Seq<RemoteDiskUsage>, r: Seq<RemoteDiskUsage>)
    requires
        forall|k: int| 0 <= k < g.len() ==> remote_totals(rs, #[trigger] g[k]),
        forall|j: int| 0 <= j < rs.len() ==> remote_listed(g, #[trigger] rs[j].repo.remote@),
        remote_keys_distinct(g),
        remote_usage_desc(r),
        r.to_multiset() == g.to_multiset(),
    ensures
        remote_grouping(rs, r),
{
    assert forall|i: int| 0 <= i < r.len() implies remote_totals(rs, #[trigger] r[i]) by {
        assert(r.contains(r[i]));
        lemma_in_other(r, g, r[i]);
    }
    assert forall|j: int| 0 <= j < rs.len() implies remote_listed(r, #[trigger] rs[j].repo.remote@) by {
        let k = choose|k: int| 0 <= k < g.len() && #[trigger] g[k].remote.remote@ == rs[j].repo.remote@;
        assert(g.contains(g[k]));
        lemma_in_other(g, r, g[k]);
        let i = choose|i: int| 0 <= i < r.len() && r[i] == g[k];
        assert(r[i].remote.remote@ == rs[j].repo.remote@);
    }
    lemma_remote_keys_distinct(g, r);
    assert(remote_usage_desc(r));
    assert(forall|i: int| 0 <= i < r.len() ==> remote_totals(rs, #[trigger] r[i]));
    assert(remote_keys_distinct(r));
}

proof fn lemma_remote_keys_distinct(g: Seq<RemoteDiskUsage>, r: Seq<RemoteDiskUsage>)
    requires
        remote_keys_distinct(g),
        r.to_multiset() == g.to_multiset(),
    ensures
        remote_keys_distinct(r),
{
    assert(g.no_duplicates()) by {
        assert forall|a: int, b: int| 0 <= a < g.len() && 0 <= b < g.len() && a != b implies g[a] != g[b] by {
            if a < b { assert(g[a].remote.remote@ != g[b].remote.remote@); }
            else { assert(g[b].remote.remote@ != g[a].remote.remote@); }
        }
    }
    g.lemma_multiset_has_no_duplicates();
    r.lemma_multiset_has_no_duplicates_conv();
    assert forall|a: int, b: int| 0 <= a < b < r.len() implies r[a].remote.remote@ != r[b].remote.remote@ by {
        assert(r.contains(r[a]) && r.contains(r[b]));
        lemma_in_other(r, g, r[a]);
        lemma_in_other(r, g, r[b]);
        let ka = choose|k: int| 0 <= k < g.len() && g[k] == r[a];
        let kb = choose|k: int| 0 <= k < g.len() && g[k] == r[b];
        if r[a].remote.remote@ == r[b].remote.remote@ {
            if ka != kb {
                if ka < kb { assert(g[ka].remote.remote@ != g[kb].remote.remote@); }
                else { assert(g[kb].remote.remote@ != g[ka].remote.remote@); }
            }
            assert(r[a] == r[b]);
        }
    }
}

impl RemoteDiskUsage {
    /// The usages added up per remote, largest first.
    pub fn group_by_repo_usages(repos: Vec<RepoDiskUsage>) -> (r: Vec<RemoteDiskUsage>)
        requires
            total_usage(repos@) <= u64::MAX,
            repos.len() <= u32::MAX,
        ensures
            remote_grouping(repos@, r@),
    {
        let ghost rs = repos@;
        let mut g: Vec<RemoteDiskUsage> = Vec::new();
        let ghost mut loc: Seq<int> = Seq::empty();
        let mut i: usize = 0;
        while i < repos.len()
            invariant
                rs == repos@,
                i <= repos.len(),
                total_usage(rs) <= u64::MAX,
                repos.len() <= u32::MAX,
                forall|k: int| 0 <= k < g.len() ==> remote_totals(rs.take(i as int), #[trigger] g@[k]),
                loc.len() == i,
                forall|j: int| 0 <= j < i ==> 0 <= #[trigger] loc[j] < g.len() && g@[loc[j]].remote.remote@ == rs[j].repo.remote@,
                remote_keys_distinct(g@),
            decreases repos.len() - i,
        {
            let remote = repos[i].repo.remote.as_str();
            let owner = repos[i].repo.owner.as_str();
            let usage = repos[i].usage;
            let mut k: usize = 0;
            while k < g.len() && !crate::text::eq_str(g[k].remote.remote.as_str(), remote)
                invariant
                    k <= g.len(),
                    forall|a: int| 0 <= a < k ==> g@[a].remote.remote@ != remote@,
                decreases g.len() - k,
            {
                k += 1;
            }
            let new_owner = !seen_owner(&repos, i, remote, owner);
            proof {
                lemma_total_usage_take(rs, i + 1);
                lemma_totals_bounded(rs.take(i + 1), remote@, owner@);
                lemma_remote_step(rs, i as int, remote@);
                assert(rs.take(i + 1).len() == i + 1);
            }
            let ghost gb = g@;
            if k < g.len() {
                let e = RemoteDiskUsage {
                    remote: RemoteState {
                        remote: g[k].remote.remote.clone(),
                        owner_count: if new_owner { g[k].remote.owner_count + 1 } else { g[k].remote.owner_count },
                        repo_count: g[k].remote.repo_count + 1,
                    },
                    usage: g[k].usage + usage,
                };
                g.set(k, e);
                proof {
                    assert forall|a: int| 0 <= a < g.len() implies remote_totals(rs.take(i + 1), #[trigger] g@[a]) by {
                        lemma_remote_step(rs, i as int, g@[a].remote.remote@);
                        lemma_exists_extends(rs, i as int, g@[a].remote.remote@);
                    }
                    let lb = loc;
                    loc = loc.push(k as int);
                    assert forall|j: int| 0 <= j < i + 1 implies 0 <= #[trigger] loc[j] < g.len() && g@[loc[j]].remote.remote@ == rs[j].repo.remote@ by {
                        if j < i {
                            assert(loc[j] == lb[j]);
                            assert(g@[lb[j]].remote.remote@ == gb[lb[j]].remote.remote@);
                        }
                    }
                    assert forall|a: int, b: int| 0 <= a < b < g.len() implies g@[a].remote.remote@ != g@[b].remote.remote@ by {
                        assert(g@[a].remote.remote@ == gb[a].remote.remote@);
                        assert(g@[b].remote.remote@ == gb[b].remote.remote@);
                    }
                }
            } else {
                let e = RemoteDiskUsage {
                    remote: RemoteState { remote: crate::text::owned(remote), owner_count: 1, repo_count: 1 },
                    usage,
                };
                proof {
                    assert(!has_owner(rs.take(i as int), remote@, owner@)) by {
                        if has_owner(rs.take(i as int), remote@, owner@) {
                            let j = choose|j: int| 0 <= j < rs.take(i as int).len() && #[trigger] rs.take(i as int)[j].repo.remote@ == remote@
                                && rs.take(i as int)[j].repo.owner@ == owner@;
                            assert(rs.take(i as int)[j] == rs[j]);
                            assert(rs[j].repo.remote@ == remote@);
                            let a = loc[j];
                            assert(gb[a].remote.remote@ != remote@);
                        }
                    }
                    lemma_totals_bounded(rs.take(i as int), remote@, owner@);
                    assert(remote_repos(rs.take(i as int), remote@) == 0) by {
                        if remote_repos(rs.take(i as int), remote@) > 0 {
                            lemma_repos_positive(rs.take(i as int), remote@);
                            let j = choose|j: int| 0 <= j < rs.take(i as int).len() && #[trigger] rs.take(i as int)[j].repo.remote@ == remote@;
                            assert(rs.take(i as int)[j] == rs[j]);
                            assert(rs[j].repo.remote@ == remote@);
                            let a = loc[j];
                            assert(gb[a].remote.remote@ != remote@);
                        }
                    }
                    lemma_totals_bounded(rs.take(i as int), remote@, owner@);
                    assert(remote_usage(rs.take(i as int), remote@) <= total_usage(rs.take(i as int)));
                }
                g.push(e);
                proof {
                    assert(remote_owners(rs.take(i as int), remote@) == 0);
                    assert(remote_usage(rs.take(i as int), remote@) == 0) by {
                        lemma_usage_zero(rs.take(i as int), remote@);
                    }
                    assert forall|a: int| 0 <= a < g.len() implies remote_totals(rs.take(i + 1), #[trigger] g@[a]) by {
                        lemma_remote_step(rs, i as int, g@[a].remote.remote@);
                        if a < gb.len() {
                            assert(g@[a] == gb[a]);
                            lemma_exists_extends(rs, i as int, g@[a].remote.remote@);
                        } else {
                            assert(rs.take(i + 1)[i as int] == rs[i as int]);
                        }
                    }
                    let lb = loc;
                    loc = loc.push(gb.len() as int);
                    assert forall|j: int| 0 <= j < i + 1 implies 0 <= #[trigger] loc[j] < g.len() && g@[loc[j]].remote.remote@ == rs[j].repo.remote@ by {
                        if j < i {
                            assert(loc[j] == lb[j]);
                            assert(g@[lb[j]] == gb[lb[j]]);
                        }
                    }
                    assert forall|a: int, b: int| 0 <= a < b < g.len() implies g@[a].remote.remote@ != g@[b].remote.remote@ by {
                        if b < gb.len() {
                            assert(g@[a] == gb[a] && g@[b] == gb[b]);
                        } else {
                            assert(g@[a] == gb[a]);
                        }
                    }
                }
            }
            i += 1;
        }
        assert(rs.take(repos.len() as int) =~= rs);
        let ghost gs = g@;
        assert forall|j: int| 0 <= j < rs.len() implies remote_listed(gs, #[trigger] rs[j].repo.remote@) by {
            assert(0 <= loc[j] < gs.len() && gs[loc[j]].remote.remote@ == rs[j].repo.remote@);
        }
        let r = sort_remote_usages(g);
        proof {
            lemma_remote_sorted(rs, gs, r@);
        }
        r
    }
}

proof fn lemma_usage_zero(rs: Seq<RepoDiskUsage>, key: Seq<char>)
    requires
        remote_repos(rs, key) == 0,
    ensures
        remote_usage(rs, key) == 0,
        remote_owners(rs, key) == 0,
    decreases rs.len(),
{
    if rs.len() > 0 {
        lemma_totals_bounded(rs.drop_last(), key, Seq::empty());
        lemma_usage_zero(rs.drop_last(), key);
    }
}

proof fn lemma_owner_step(rs: Seq<RepoDiskUsage>, i: int, remote: Seq<char>, owner: Seq<char>)
    requires
        0 <= i < rs.len(),
    ensures
        owner_usage(rs.take(i + 1), remote, owner) == owner_usage(rs.take(i), remote, owner)
            + if rs[i].repo.remote@ == remote && rs[i].repo.owner@ == owner { rs[i].usage as int } else { 0 },
        owner_repos(rs.take(i + 1), remote, owner) == owner_repos(rs.take(i), remote, owner)
            + if rs[i].repo.remote@ == remote && rs[i].repo.owner@ == owner { 1int } else { 0 },
        has_owner(rs.take(i), remote, owner) ==> has_owner(rs.take(i + 1), remote, owner),
{
    assert(rs.take(i + 1).drop_last() =~= rs.take(i));
    assert(rs.take(i + 1).last() == rs[i]);
    if has_owner(rs.take(i), remote, owner) {
        let j = choose|j: int| 0 <= j < rs.take(i).len() && #[trigger] rs.take(i)[j].repo.remote@ == remote && rs.take(i)[j].repo.owner@ == owner;
        assert(rs.take(i + 1)[j] == rs.take(i)[j]);
    }
}

proof fn lemma_owner_usage_zero(rs: Seq<RepoDiskUsage>, remote: Seq<char>, owner: Seq<char>)
    requires
        !has_owner(rs, remote, owner),
    ensures
        owner_usage(rs, remote, owner) == 0,
        owner_repos(rs, remote, owner) == 0,
    decreases rs.len(),
{
    if rs.len() > 0 {
        assert(!has_owner(rs.drop_last(), remote, owner)) by {
            if has_owner(rs.drop_last(), remote, owner) {
                let j = choose|j: int| 0 <= j < rs.drop_last().len() && #[trigger] rs.drop_last()[j].repo.remote@ == remote && rs.drop_last()[j].repo.owner@ == owner;
                assert(rs[j] == rs.drop_last()[j]);
            }
        }
        if rs.last().repo.remote@ == remote && rs.last().repo.owner@ == owner {
            assert(rs[rs.len() - 1].repo.remote@ == remote);
        }
        lemma_owner_usage_zero(rs.drop_last(), remote, owner);
    }
}

/// Keys of the groups built so far are distinct.
pub open spec fn owner_keys_distinct(g: Seq<OwnerDiskUsage>) -> bool {
    forall|a: int, b: int| 0 <= a < b < g.len() ==> !(g[a].owner.remote@ == g[b].owner.remote@ && g[a].owner.owner@ == g[b].owner.owner@)
}

proof fn lemma_owner_keys_distinct(g: Seq<OwnerDiskUsage>, r: Seq<OwnerDiskUsage>)
    requires
        owner_keys_distinct(g),
        r.to_multiset() == g.to_multiset(),
    ensures
        owner_keys_distinct(r),
{
    assert(g.no_duplicates()) by {
        assert forall|a: int, b: int| 0 <= a < g.len() && 0 <= b < g.len() && a != b implies g[a] != g[b] by {
            if a < b { assert(!(g[a].owner.remote@ == g[b].owner.remote@ && g[a].owner.owner@ == g[b].owner.owner@)); }
            else { assert(!(g[b].owner.remote@ == g[a].owner.remote@ && g[b].owner.owner@ == g[a].owner.owner@)); }
        }
    }
    g.lemma_multiset_has_no_duplicates();
    r.lemma_multiset_has_no_duplicates_conv();
    assert forall|a: int, b: int| 0 <= a < b < r.len() implies !(r[a].owner.remote@ == r[b].owner.remote@ && r[a].owner.owner@ == r[b].owner.owner@) by {
        assert(r.contains(r[a]) && r.contains(r[b]));
        lemma_in_other(r, g, r[a]);
        lemma_in_other(r, g, r[b]);
        let ka = choose|k: int| 0 <= k < g.len() && g[k] == r[a];
        let kb = choose|k: int| 0 <= k < g.len() && g[k] == r[b];
        if r[a].owner.remote@ == r[b].owner.remote@ && r[a].owner.owner@ == r[b].owner.owner@ {
            if ka != kb {
                if ka < kb { assert(!(g[ka].owner.remote@ == g[kb].owner.remote@ && g[ka].owner.owner@ == g[kb].owner.owner@)); }
                else { assert(!(g[kb].owner.remote@ == g[ka].owner.remote@ && g[kb].owner.owner@ == g[ka].owner.owner@)); }
            }
            assert(r[a] == r[b]);
        }
    }
}

proof fn lemma_owner_sorted(rs: Seq<RepoDiskUsage>, g: Seq<OwnerDiskUsage>, r: Seq<OwnerDiskUsage>)
    requires
        forall|k: int| 0 <= k < g.len() ==> owner_totals(rs, #[trigger] g[k]),
        forall|j: int| 0 <= j < rs.len() ==> owner_listed(g, #[trigger] rs[j].repo.remote@, rs[j].repo.owner@),
        owner_keys_distinct(g),
        owner_usage_desc(r),
        r.to_multiset() == g.to_multiset(),
    ensures
        owner_grouping(rs, r),
{
    assert forall|i: int| 0 <= i < r.len() implies owner_totals(rs, #[trigger] r[i]) by {
        assert(r.contains(r[i]));
        lemma_in_other(r, g, r[i]);
    }
    assert forall|j: int| 0 <= j < rs.len() implies owner_listed(r, #[trigger] rs[j].repo.remote@, rs[j].repo.owner@) by {
        let k = choose|k: int| 0 <= k < g.len() && #[trigger] g[k].owner.remote@ == rs[j].repo.remote@ && g[k].owner.owner@ == rs[j].repo.owner@;
        assert(g.contains(g[k]));
        lemma_in_other(g, r, g[k]);
        let i = choose|i: int| 0 <= i < r.len() && r[i] == g[k];
        assert(r[i].owner.remote@ == rs[j].repo.remote@);
    }
    lemma_owner_keys_distinct(g, r);
}

impl OwnerDiskUsage {
    /// The usages added up per remote and owner, largest first.
    pub fn group_by_repo_usages(repos: Vec<RepoDiskUsage>) -> (r: Vec<OwnerDiskUsage>)
        requires
            total_usage(repos@) <= u64::MAX,
            repos.len() <= u32::MAX,
        ensures
            owner_grouping(repos@, r@),
    {
        let ghost rs = repos@;
        let mut g: Vec<OwnerDiskUsage> = Vec::new();
        let ghost mut loc: Seq<int> = Seq::empty();
        let mut i: usize = 0;
        while i < repos.len()
            invariant
                rs == repos@,
                i <= repos.len(),
                total_usage(rs) <= u64::MAX,
                repos.len() <= u32::MAX,
                forall|k: int| 0 <= k < g.len() ==> owner_totals(rs.take(i as int), #[trigger] g@[k]),
                loc.len() == i,
                forall|j: int| 0 <= j < i ==> 0 <= #[trigger] loc[j] < g.len() && g@[loc[j]].owner.remote@ == rs[j].repo.remote@
                    && g@[loc[j]].owner.owner@ == rs[j].repo.owner@,
                owner_keys_distinct(g@),
            decreases repos.len() - i,
        {
            let remote = repos[i].repo.remote.as_str();
            let owner = repos[i].repo.owner.as_str();
            let usage = repos[i].usage;
            let mut k: usize = 0;
            while k < g.len() && !(crate::text::eq_str(g[k].owner.remote.as_str(), remote) && crate::text::eq_str(g[k].owner.owner.as_str(), owner))
                invariant
                    k <= g.len(),
                    forall|a: int| 0 <= a < k ==> !(g@[a].owner.remote@ == remote@ && g@[a].owner.owner@ == owner@),
                decreases g.len() - k,
            {
                k += 1;
            }
            proof {
                lemma_total_usage_take(rs, i + 1);
                lemma_totals_bounded(rs.take(i + 1), remote@, owner@);
                lemma_totals_bounded(rs.take(i as int), remote@, owner@);
                lemma_owner_step(rs, i as int, remote@, owner@);
                assert(rs.take(i + 1).len() == i + 1);
            }
            let ghost gb = g@;
            if k < g.len() {
                let e = OwnerDiskUsage {
                    owner: OwnerState {
                        remote: g[k].owner.remote.clone(),
                        owner: g[k].owner.owner.clone(),
                        repo_count: g[k].owner.repo_count + 1,
                    },
                    usage: g[k].usage + usage,
                };
                g.set(k, e);
                proof {
                    assert forall|a: int| 0 <= a < g.len() implies owner_totals(rs.take(i + 1), #[trigger] g@[a]) by {
                        lemma_owner_step(rs, i as int, g@[a].owner.remote@, g@[a].owner.owner@);
                    }
                    let lb = loc;
                    loc = loc.push(k as int);
                    assert forall|j: int| 0 <= j < i + 1 implies 0 <= #[trigger] loc[j] < g.len() && g@[loc[j]].owner.remote@ == rs[j].repo.remote@
                        && g@[loc[j]].owner.owner@ == rs[j].repo.owner@ by {
                        if j < i {
                            assert(loc[j] == lb[j]);
                            assert(g@[lb[j]].owner == gb[lb[j]].owner || lb[j] == k);
                        }
                    }
                    assert forall|a: int, b: int| 0 <= a < b < g.len() implies !(g@[a].owner.remote@ == g@[b].owner.remote@ && g@[a].owner.owner@ == g@[b].owner.owner@) by {
                        assert(g@[a].owner.remote@ == gb[a].owner.remote@ && g@[a].owner.owner@ == gb[a].owner.owner@);
                        assert(g@[b].owner.remote@ == gb[b].owner.remote@ && g@[b].owner.owner@ == gb[b].owner.owner@);
                    }
                }
            } else {
                let e = OwnerDiskUsage {
                    owner: OwnerState { remote: crate::text::owned(remote), owner: crate::text::owned(owner), repo_count: 1 },
                    usage,
                };
                proof {
                    assert(!has_owner(rs.take(i as int), remote@, owner@)) by {
                        if has_owner(rs.take(i as int), remote@, owner@) {
                            let j = choose|j: int| 0 <= j < rs.take(i as int).len() && #[trigger] rs.take(i as int)[j].repo.remote@ == remote@
                                && rs.take(i as int)[j].repo.owner@ == owner@;
                            assert(rs.take(i as int)[j] == rs[j]);
                            let a = loc[j];
                            assert(!(gb[a].owner.remote@ == remote@ && gb[a].owner.owner@ == owner@));
                        }
                    }
                    lemma_owner_usage_zero(rs.take(i as int), remote@, owner@);
                }
                g.push(e);
                proof {
                    assert forall|a: int| 0 <= a < g.len() implies owner_totals(rs.take(i + 1), #[trigger] g@[a]) by {
                        lemma_owner_step(rs, i as int, g@[a].owner.remote@, g@[a].owner.owner@);
                        if a < gb.len() {
                            assert(g@[a] == gb[a]);
                        } else {
                            assert(rs.take(i + 1)[i as int] == rs[i as int]);
                        }
                    }
                    let lb = loc;
                    loc = loc.push(gb.len() as int);
                    assert forall|j: int| 0 <= j < i + 1 implies 0 <= #[trigger] loc[j] < g.len() && g@[loc[j]].owner.remote@ == rs[j].repo.remote@
                        && g@[loc[j]].owner.owner@ == rs[j].repo.owner@ by {
                        if j < i {
                            assert(loc[j] == lb[j]);
                            assert(g@[lb[j]] == gb[lb[j]]);
                        }
                    }
                    assert forall|a: int, b: int| 0 <= a < b < g.len() implies !(g@[a].owner.remote@ == g@[b].owner.remote@ && g@[a].owner.owner@ == g@[b].owner.owner@) by {
                        if b < gb.len() {
                            assert(g@[a] == gb[a] && g@[b] == gb[b]);
                        } else {
                            assert(g@[a] == gb[a]);
                        }
                    }
                }
            }
            i += 1;
        }
        assert(rs.take(repos.len() as int) =~= rs);
        let ghost gs = g@;
        assert forall|j: int| 0 <= j < rs.len() implies owner_listed(gs, #[trigger] rs[j].repo.remote@, rs[j].repo.owner@) by {
            assert(0 <= loc[j] < gs.len() && gs[loc[j]].owner.remote@ == rs[j].repo.remote@ && gs[loc[j]].owner.owner@ == rs[j].repo.owner@);
        }
        let r = sort_owner_usages(g);
        proof {
            lemma_owner_sorted(rs, gs, r@);
        }
        r
    }
}

/// The bytes of the remotes listed, added up.
pub open spec fn listed_usage(r: Seq<RemoteDiskUsage>) -> int
    decreases r.len(),
{
    if r.len() == 0 { 0 } else { listed_usage(r.drop_last()) + r.last().usage }
}

/// The bytes under each of the keys, added up.
pub open spec fn keys_usage(keys: Seq<Seq<char>>, rs: Seq<RepoDiskUsage>) -> int
    decreases keys.len(),
{
    if keys.len() == 0 { 0 } else { keys_usage(keys.drop_last(), rs) + remote_usage(rs, keys.last()) }
}

proof fn lemma_keys_usage_step(keys: Seq<Seq<char>>, rs: Seq<RepoDiskUsage>)
    requires
        rs.len() > 0,
        forall|a: int, b: int| 0 <= a < b < keys.len() ==> keys[a] != keys[b],
    ensures
        keys_usage(keys, rs) == keys_usage(keys, rs.drop_last())
            + if keys.contains(rs.last().repo.remote@) { rs.last().usage as int } else { 0 },
    decreases keys.len(),
{
    if keys.len() > 0 {
        let ks = keys.drop_last();
        lemma_keys_usage_step(ks, rs);
        let k = keys.last();
        let key = rs.last().repo.remote@;
        if k == key {
            assert(keys[keys.len() - 1] == key);
            assert(!ks.contains(key)) by {
                if ks.contains(key) {
                    let a = choose|a: int| 0 <= a < ks.len() && ks[a] == key;
                    assert(keys[a] == ks[a]);
                }
            }
        } else {
            assert(keys.contains(key) == ks.contains(key)) by {
                if keys.contains(key) {
                    let a = choose|a: int| 0 <= a < keys.len() && keys[a] == key;
                    assert(a < ks.len());
                    assert(ks[a] == key);
                }
                if ks.contains(key) {
                    let a = choose|a: int| 0 <= a < ks.len() && ks[a] == key;
                    assert(keys[a] == key);
                }
            }
        }
    }
}

proof fn lemma_keys_cover_total(keys: Seq<Seq<char>>, rs: Seq<RepoDiskUsage>)
    requires
        forall|a: int, b: int| 0 <= a < b < keys.len() ==> keys[a] != keys[b],
        forall|j: int| 0 <= j < rs.len() ==> keys.contains(#[trigger] rs[j].repo.remote@),
    ensures
        keys_usage(keys, rs) == total_usage(rs),
    decreases rs.len(),
{
    if rs.len() == 0 {
        lemma_keys_usage_zero(keys, rs);
    } else {
        let t = rs.drop_last();
        assert forall|j: int| 0 <= j < t.len() implies keys.contains(#[trigger] t[j].repo.remote@) by {
            assert(t[j] == rs[j]);
        }
        lemma_keys_cover_total(keys, t);
        lemma_keys_usage_step(keys, rs);
        assert(rs[rs.len() - 1] == rs.last());
    }
}

proof fn lemma_keys_usage_zero(keys: Seq<Seq<char>>, rs: Seq<RepoDiskUsage>)
    requires
        rs.len() == 0,
    ensures
        keys_usage(keys, rs) == 0,
    decreases keys.len(),
{
    if keys.len() > 0 {
        lemma_keys_usage_zero(keys.drop_last(), rs);
    }
}

/// Grouping by remote loses no byte: the usages of the remotes add up to the
/// usage of all the repositories.
pub proof fn law_remote_grouping_keeps_total(rs: Seq<RepoDiskUsage>, r: Seq<RemoteDiskUsage>)
    requires
        remote_grouping(rs, r),
    ensures
        listed_usage(r) == total_usage(rs),
{
    let keys = r.map_values(|x: RemoteDiskUsage| x.remote.remote@);
    assert forall|j: int| 0 <= j < rs.len() implies keys.contains(#[trigger] rs[j].repo.remote@) by {
        assert(remote_listed(r, rs[j].repo.remote@));
        let i = choose|i: int| 0 <= i < r.len() && #[trigger] r[i].remote.remote@ == rs[j].repo.remote@;
        assert(keys[i] == rs[j].repo.remote@);
    }
    lemma_keys_cover_total(keys, rs);
    lemma_listed_is_keys(rs, r);
}

proof fn lemma_listed_is_keys(rs: Seq<RepoDiskUsage>, r: Seq<RemoteDiskUsage>)
    requires
        forall|i: int| 0 <= i < r.len() ==> remote_totals(rs, #[trigger] r[i]),
    ensures
        listed_usage(r) == keys_usage(r.map_values(|x: RemoteDiskUsage| x.remote.remote@), rs),
    decreases r.len(),
{
    if r.len() > 0 {
        let t = r.drop_last();
        assert forall|i: int| 0 <= i < t.len() implies remote_totals(rs, #[trigger] t[i]) by {
            assert(t[i] == r[i]);
        }
        lemma_listed_is_keys(rs, t);
        assert(r.map_values(|x: RemoteDiskUsage| x.remote.remote@).drop_last() =~= t.map_values(|x: RemoteDiskUsage| x.remote.remote@));
        assert(remote_totals(rs, r[r.len() - 1]));
    }
}

} // verus!
