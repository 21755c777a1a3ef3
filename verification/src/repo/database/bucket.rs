//! The repository database: remotes holding owners holding repositories,
//! each repository with its path, labels and visits, and a table of label
//! names by id.
use vstd::prelude::*;

use crate::repo::keywords::{lemma_lex_irreflexive, lemma_lex_total, lemma_lex_transitive, lex_lt, str_lt};
use crate::error::Error;
use crate::text::{eq_str, opt_str, owned, strs};

verus! {

/// Whether `k` is a key of `s`.
pub open spec fn has_key<V>(s: Seq<(String, V)>, k: Seq<char>) -> bool {
    exists|i: int| 0 <= i < s.len() && #[trigger] s[i].0@ == k
}

pub open spec fn key_pos<V>(s: Seq<(String, V)>, k: Seq<char>) -> int {
    choose|i: int| 0 <= i < s.len() && #[trigger] s[i].0@ == k
}

/// The value under the key `k` of `s`.
pub open spec fn lookup<V>(s: Seq<(String, V)>, k: Seq<char>) -> Option<V> {
    if has_key(s, k) {
        Some(s[key_pos(s, k)].1)
    } else {
        None
    }
}

/// No key of `s` comes twice.
pub open spec fn distinct_keys<V>(s: Seq<(String, V)>) -> bool {
    forall|i: int, j: int| 0 <= i < j < s.len() ==> #[trigger] s[i].0@ != #[trigger] s[j].0@
}

pub proof fn lemma_lookup_at<V>(s: Seq<(String, V)>, i: int)
    requires
        distinct_keys(s),
        0 <= i < s.len(),
    ensures
        lookup(s, s[i].0@) == Some(s[i].1),
{
    let k = s[i].0@;
    assert(has_key(s, k));
    let p = key_pos(s, k);
    if p != i {
        if p < i {
            assert(s[p].0@ != s[i].0@);
        } else {
            assert(s[i].0@ != s[p].0@);
        }
    }
}

/// Where the key `k` stands in `v`.
pub fn find_key<V>(v: &Vec<(String, V)>, k: &str) -> (r: Option<usize>)
    ensures
        match r {
            Some(i) => i < v.len() && v@[i as int].0@ == k@,
            None => !has_key(v@, k@),
        },
{
    let mut i: usize = 0;
    while i < v.len()
        invariant
            i <= v.len(),
            forall|j: int| 0 <= j < i ==> v@[j].0@ != k@,
        decreases v.len() - i,
    {
        if eq_str(v[i].0.as_str(), k) {
            return Some(i);
        }
        i = i + 1;
    }
    None
}

/// Takes the entry under `k` out of `v`.
fn take_key<V>(v: &mut Vec<(String, V)>, k: &str) -> (r: Option<V>)
    requires
        distinct_keys(old(v)@),
    ensures
        distinct_keys(final(v)@),
        r == lookup(old(v)@, k@),
        !has_key(final(v)@, k@),
        forall|k2: Seq<char>| k2 != k@ ==> #[trigger] lookup(final(v)@, k2) == lookup(old(v)@, k2),
        forall|i: int| 0 <= i < final(v)@.len() ==> old(v)@.contains(#[trigger] final(v)@[i]),
{
    match find_key(v, k) {
        Some(i) => {
            let ghost s = v@;
            proof {
                lemma_lookup_at(s, i as int);
            }
            let (_, x) = v.remove(i);
            let ghost t = v@;
            proof {
                assert(t =~= s.remove(i as int));
                assert forall|a: int, b: int| 0 <= a < b < t.len() implies #[trigger] t[a].0@ != #[trigger] t[b].0@ by {
                    let a2 = if a < i { a } else { a + 1 };
                    let b2 = if b < i { b } else { b + 1 };
                    assert(t[a] == s[a2] && t[b] == s[b2]);
                }
                assert forall|j: int| 0 <= j < t.len() implies t[j].0@ != k@ by {
                    let j2 = if j < i { j } else { j + 1 };
                    assert(t[j] == s[j2]);
                    assert(s[j2].0@ != s[i as int].0@);
                }
                assert forall|j: int| 0 <= j < t.len() implies s.contains(#[trigger] t[j]) by {
                    let j2 = if j < i { j } else { j + 1 };
                    assert(t[j] == s[j2]);
                }
                assert forall|k2: Seq<char>| k2 != k@ implies #[trigger] lookup(t, k2) == lookup(s, k2) by {
                    if has_key(s, k2) {
                        let p = key_pos(s, k2);
                        assert(s[p].0@ == k2);
                        assert(p != i);
                        let p2 = if p < i { p } else { p - 1 };
                        assert(t[p2] == s[p]);
                        lemma_lookup_at(t, p2);
                        lemma_lookup_at(s, p);
                    }
                    if has_key(t, k2) {
                        let q = key_pos(t, k2);
                        let q2 = if q < i { q } else { q + 1 };
                        assert(t[q] == s[q2]);
                    }
                }
            }
            Some(x)
        },
        None => {
            proof {
                assert forall|j: int| 0 <= j < v@.len() implies v@.contains(#[trigger] v@[j]) by {}
            }
            None
        },
    }
}

/// Puts `x` under the key `k`, which `v` lacks.
fn put_key<V>(v: &mut Vec<(String, V)>, k: String, x: V)
    requires
        distinct_keys(old(v)@),
        !has_key(old(v)@, k@),
    ensures
        distinct_keys(final(v)@),
        lookup(final(v)@, k@) == Some(x),
        forall|k2: Seq<char>| k2 != k@ ==> #[trigger] lookup(final(v)@, k2) == lookup(old(v)@, k2),
        forall|i: int| 0 <= i < final(v)@.len() ==> old(v)@.contains(#[trigger] final(v)@[i]) || final(v)@[i].1 == x,
{
    let ghost s = v@;
    let ghost kv = k@;
    v.push((k, x));
    let ghost t = v@;
    proof {
        assert forall|a: int, b: int| 0 <= a < b < t.len() implies #[trigger] t[a].0@ != #[trigger] t[b].0@ by {
            if b == s.len() {
                assert(t[a] == s[a]);
                assert(s[a].0@ != kv);
            } else {
                assert(t[a] == s[a] && t[b] == s[b]);
            }
        }
        lemma_lookup_at(t, s.len() as int);
        assert forall|k2: Seq<char>| k2 != kv implies #[trigger] lookup(t, k2) == lookup(s, k2) by {
            if has_key(s, k2) {
                let p = key_pos(s, k2);
                assert(t[p] == s[p]);
                lemma_lookup_at(t, p);
                lemma_lookup_at(s, p);
            }
            if has_key(t, k2) {
                let q = key_pos(t, k2);
                assert(q != s.len());
                assert(t[q] == s[q]);
            }
        }
        assert forall|i: int| 0 <= i < t.len() implies s.contains(#[trigger] t[i]) || t[i].1 == x by {
            if i < s.len() {
                assert(t[i] == s[i]);
            }
        }
    }
}


/// What the database keeps of one repository: its path outside the
/// workspace, the ids of its labels, and when and how often it was visited.
#[derive(Debug, Clone, PartialEq, Eq)]
pub struct RepoBucket {
    pub path: Option<String>,
    pub labels: Option<Vec<u64>>,
    pub last_accessed: u64,
    pub accessed: u64,
}

/// The repositories of one owner, by name.
#[derive(Debug, Clone, PartialEq, Eq)]
pub struct OwnerBucket(pub Vec<(String, RepoBucket)>);

/// The owners of one remote, by name.
#[derive(Debug, Clone, PartialEq, Eq)]
pub struct RemoteBucket(pub Vec<(String, OwnerBucket)>);

/// All remotes by name, and the label names by id; `label_index` is the id
/// that the next new label gets.
#[derive(Debug, Clone, PartialEq, Eq)]
pub struct Bucket {
    pub data: Vec<(String, RemoteBucket)>,
    pub label_index: u64,
    pub labels: Vec<(u64, String)>,
}

/// A repository as the database hands it out and takes it in.
#[derive(Debug, Clone, PartialEq, Eq)]
pub struct Repo {
    pub remote: String,
    pub owner: String,
    pub name: String,
    pub path: Option<String>,
    pub labels: Option<Vec<String>>,
    pub last_accessed: u64,
    pub accessed: u64,
}

/// The owners of `rb` have no name twice, nor the repositories of each owner.
pub open spec fn remote_ok(rb: RemoteBucket) -> bool {
    &&& distinct_keys(rb.0@)
    &&& forall|j: int| 0 <= j < rb.0@.len() ==> distinct_keys(#[trigger] rb.0@[j].1.0@)
}

/// The label ids of the table are distinct, below `label_index`, and name
/// distinct labels.
pub open spec fn table_ok(table: Seq<(u64, String)>, label_index: u64) -> bool {
    &&& forall|i: int, j: int| 0 <= i < j < table.len() ==> #[trigger] table[i].0 != #[trigger] table[j].0
    &&& forall|i: int, j: int| 0 <= i < j < table.len() ==> #[trigger] table[i].1@ != #[trigger] table[j].1@
    &&& forall|i: int| 0 <= i < table.len() ==> #[trigger] table[i].0 < label_index
}

/// The invariant of the database: no name twice at any level, a sound label table.
pub open spec fn bucket_ok(b: Bucket) -> bool {
    &&& distinct_keys(b.data@)
    &&& forall|i: int| 0 <= i < b.data@.len() ==> remote_ok(#[trigger] b.data@[i].1)
    &&& table_ok(b.labels@, b.label_index)
}

/// What the database holds for `remote:owner/name`.
pub open spec fn entry_at(b: Bucket, remote: Seq<char>, owner: Seq<char>, name: Seq<char>) -> Option<RepoBucket> {
    match lookup(b.data@, remote) {
        Some(rb) => match lookup(rb.0@, owner) {
            Some(ob) => lookup(ob.0@, name),
            None => None,
        },
        None => None,
    }
}

/// The name of the label with id `id`.
pub open spec fn label_name(table: Seq<(u64, String)>, id: u64) -> Option<Seq<char>> {
    if exists|i: int| 0 <= i < table.len() && #[trigger] table[i].0 == id {
        let i = choose|i: int| 0 <= i < table.len() && #[trigger] table[i].0 == id;
        Some(table[i].1@)
    } else {
        None
    }
}

/// The names of the labels with the ids `ids` (ids the table lacks are passed over).
pub open spec fn label_set(table: Seq<(u64, String)>, ids: Seq<u64>) -> Set<Seq<char>> {
    Set::new(|n: Seq<char>| exists|t: int| 0 <= t < ids.len() && label_name(table, #[trigger] ids[t]) == Some(n))
}

/// The names of a list of strings, as a set.
pub open spec fn name_set(ls: Seq<String>) -> Set<Seq<char>> {
    Set::new(|n: Seq<char>| strs(ls).contains(n))
}

proof fn lemma_label_name_at(table: Seq<(u64, String)>, label_index: u64, i: int)
    requires
        table_ok(table, label_index),
        0 <= i < table.len(),
    ensures
        label_name(table, table[i].0) == Some(table[i].1@),
{
    let id = table[i].0;
    assert(exists|k: int| 0 <= k < table.len() && #[trigger] table[k].0 == id);
    let k = choose|k: int| 0 <= k < table.len() && #[trigger] table[k].0 == id;
    if k != i {
        if k < i {
            assert(table[k].0 != table[i].0);
        } else {
            assert(table[i].0 != table[k].0);
        }
    }
}

/// The name of the label with id `id`.
fn find_label(table: &Vec<(u64, String)>, id: u64, Ghost(label_index): Ghost<u64>) -> (r: Option<usize>)
    requires
        table_ok(table@, label_index),
    ensures
        match r {
            Some(i) => i < table.len() && table@[i as int].0 == id && label_name(table@, id) == Some(
                table@[i as int].1@,
            ),
            None => label_name(table@, id) is None,
        },
{
    let mut i: usize = 0;
    while i < table.len()
        invariant
            i <= table.len(),
            table_ok(table@, label_index),
            forall|j: int| 0 <= j < i ==> table@[j].0 != id,
        decreases table.len() - i,
    {
        if table[i].0 == id {
            proof {
                lemma_label_name_at(table@, label_index, i as int);
            }
            return Some(i);
        }
        i = i + 1;
    }
    None
}

/// The names of the labels with ids `ids`, each once.
fn label_names(table: &Vec<(u64, String)>, ids: &Vec<u64>, Ghost(label_index): Ghost<u64>) -> (r: Vec<String>)
    requires
        table_ok(table@, label_index),
    ensures
        name_set(r@) == label_set(table@, ids@),
        strs(r@).no_duplicates(),
{
    let mut r: Vec<String> = Vec::new();
    let mut i: usize = 0;
    while i < ids.len()
        invariant
            i <= ids.len(),
            table_ok(table@, label_index),
            name_set(r@) == label_set(table@, ids@.take(i as int)),
            strs(r@).no_duplicates(),
        decreases ids.len() - i,
    {
        let ghost before = strs(r@);
        let ghost found: Option<Seq<char>> = label_name(table@, ids@[i as int]);
        if let Some(k) = find_label(table, ids[i], Ghost(label_index)) {
            let name = table[k].1.as_str();
            if !crate::git::contains_string(&r, name) {
                let x = owned(name);
                proof {
                    crate::text::lemma_strs_push(r@, x);
                }
                r.push(x);
            }
        }
        proof {
            let ts = ids@.take(i + 1);
            let ps = ids@.take(i as int);
            assert forall|n: Seq<char>| label_set(table@, ts).contains(n) <==> (label_set(table@, ps).contains(n)
                || found == Some(n)) by {
                assert(ts[i as int] == ids@[i as int]);
                if label_set(table@, ps).contains(n) {
                    let t = choose|t: int| 0 <= t < ps.len() && label_name(table@, #[trigger] ps[t]) == Some(n);
                    assert(ts[t] == ps[t]);
                }
                if label_set(table@, ts).contains(n) {
                    let t = choose|t: int| 0 <= t < ts.len() && label_name(table@, #[trigger] ts[t]) == Some(n);
                    if t < i {
                        assert(ps[t] == ts[t]);
                    }
                }
            }
            assert forall|n: Seq<char>| strs(r@).contains(n) <==> (before.contains(n) || found == Some(n)) by {
                if strs(r@).contains(n) && !before.contains(n) {
                    let q = choose|q: int| 0 <= q < strs(r@).len() && strs(r@)[q] == n;
                    if q < before.len() {
                        assert(strs(r@)[q] == before[q]);
                    }
                }
                if before.contains(n) {
                    let q = choose|q: int| 0 <= q < before.len() && before[q] == n;
                    assert(strs(r@)[q] == before[q]);
                }
                if found == Some(n) && !before.contains(n) {
                    assert(strs(r@)[before.len() as int] == n);
                }
            }
            assert(name_set(r@) =~= label_set(table@, ts));
        }
        i = i + 1;
    }
    proof {
        assert(ids@.take(ids.len() as int) =~= ids@);
    }
    r
}


/// The repository database as it is worked on: the stored buckets, and
/// whether some label may have fallen out of use.
#[derive(Debug, Clone, PartialEq, Eq)]
pub struct Database {
    pub bucket: Bucket,
    pub clean_labels: bool,
}

/// `repo` as what `get` gives for `remote:owner/name` with entry `e`, where the label table is `table`.
pub open spec fn repo_of_entry(
    repo: Repo,
    remote: Seq<char>,
    owner: Seq<char>,
    name: Seq<char>,
    e: RepoBucket,
    table: Seq<(u64, String)>,
) -> bool {
    &&& repo.remote@ == remote
    &&& repo.owner@ == owner
    &&& repo.name@ == name
    &&& opt_str(repo.path) == opt_str(e.path)
    &&& repo.last_accessed == e.last_accessed
    &&& repo.accessed == e.accessed
    &&& match e.labels {
        None => repo.labels is None,
        Some(ids) => repo.labels matches Some(ls) && name_set(ls@) == label_set(table, ids@),
    }
}

fn clone_path(p: &Option<String>) -> (r: Option<String>)
    ensures
        opt_str(r) == opt_str(*p),
{
    match p {
        Some(s) => Some(owned(s.as_str())),
        None => None,
    }
}

impl Database {
    /// The database over `bucket`, with no label out of use yet.
    pub fn new(bucket: Bucket) -> (db: Database)
        ensures
            db.bucket == bucket,
            !db.clean_labels,
    {
        Database { bucket, clean_labels: false }
    }

    /// The repository `remote:owner/name`, where the database holds it.
    pub fn get(&self, remote: &str, owner: &str, name: &str) -> (r: Option<Repo>)
        requires
            bucket_ok(self.bucket),
        ensures
            match entry_at(self.bucket, remote@, owner@, name@) {
                None => r is None,
                Some(e) => r matches Some(x) && repo_of_entry(x, remote@, owner@, name@, e, self.bucket.labels@),
            },
    {
        let data = &self.bucket.data;
        let i = match find_key(data, remote) {
            Some(i) => i,
            None => return None,
        };
        proof {
            lemma_lookup_at(data@, i as int);
            assert(remote_ok(data@[i as int].1));
        }
        let owners = &data[i].1.0;
        let j = match find_key(owners, owner) {
            Some(j) => j,
            None => return None,
        };
        proof {
            lemma_lookup_at(owners@, j as int);
            assert(distinct_keys(owners@[j as int].1.0@));
        }
        let repos = &owners[j].1.0;
        let k = match find_key(repos, name) {
            Some(k) => k,
            None => return None,
        };
        proof {
            lemma_lookup_at(repos@, k as int);
        }
        let e = &repos[k].1;
        let labels = match &e.labels {
            Some(ids) => Some(label_names(&self.bucket.labels, ids, Ghost(self.bucket.label_index))),
            None => None,
        };
        Some(
            Repo {
                remote: owned(remote),
                owner: owned(owner),
                name: owned(name),
                path: clone_path(&e.path),
                labels,
                last_accessed: e.last_accessed,
                accessed: e.accessed,
            },
        )
    }
}


/// `table2` holds every label of `table` under the same id.
pub open spec fn table_grows(table: Seq<(u64, String)>, table2: Seq<(u64, String)>) -> bool {
    forall|id: u64| #[trigger] label_name(table, id) is Some ==> label_name(table2, id) == label_name(table, id)
}

proof fn lemma_table_push(table: Seq<(u64, String)>, label_index: u64, n: String)
    requires
        table_ok(table, label_index),
        forall|i: int| 0 <= i < table.len() ==> #[trigger] table[i].1@ != n@,
        label_index < u64::MAX,
    ensures
        table_ok(table.push((label_index, n)), (label_index + 1) as u64),
        label_name(table.push((label_index, n)), label_index) == Some(n@),
        forall|id: u64| id != label_index ==> #[trigger] label_name(table.push((label_index, n)), id) == label_name(table, id),
        label_name(table, label_index) is None,
{
    let t = table.push((label_index, n));
    assert forall|i: int, j: int| 0 <= i < j < t.len() implies #[trigger] t[i].0 != #[trigger] t[j].0 by {
        if j == table.len() {
            assert(t[i] == table[i]);
        } else {
            assert(t[i] == table[i] && t[j] == table[j]);
        }
    }
    assert forall|i: int, j: int| 0 <= i < j < t.len() implies #[trigger] t[i].1@ != #[trigger] t[j].1@ by {
        if j == table.len() {
            assert(t[i] == table[i]);
        } else {
            assert(t[i] == table[i] && t[j] == table[j]);
        }
    }
    assert forall|i: int| 0 <= i < t.len() implies #[trigger] t[i].0 < label_index + 1 by {
        if i < table.len() {
            assert(t[i] == table[i]);
        }
    }
    lemma_label_name_at(t, (label_index + 1) as u64, table.len() as int);
    assert forall|id: u64| id != label_index implies #[trigger] label_name(t, id) == label_name(table, id) by {
        if exists|i: int| 0 <= i < table.len() && #[trigger] table[i].0 == id {
            let i = choose|i: int| 0 <= i < table.len() && #[trigger] table[i].0 == id;
            lemma_label_name_at(table, label_index, i);
            assert(t[i] == table[i]);
            lemma_label_name_at(t, (label_index + 1) as u64, i);
        } else {
            if exists|i: int| 0 <= i < t.len() && #[trigger] t[i].0 == id {
                let i = choose|i: int| 0 <= i < t.len() && #[trigger] t[i].0 == id;
                assert(i != table.len());
                assert(t[i] == table[i]);
            }
        }
    }
    if exists|i: int| 0 <= i < table.len() && #[trigger] table[i].0 == label_index {
        let i = choose|i: int| 0 <= i < table.len() && #[trigger] table[i].0 == label_index;
        assert(table[i].0 < label_index);
    }
}

/// Where the label named `n` stands in the table.
fn find_label_name(table: &Vec<(u64, String)>, n: &str, Ghost(label_index): Ghost<u64>) -> (r: Option<usize>)
    requires
        table_ok(table@, label_index),
    ensures
        match r {
            Some(i) => i < table.len() && table@[i as int].1@ == n@ && label_name(table@, table@[i as int].0) == Some(n@),
            None => forall|i: int| 0 <= i < table.len() ==> #[trigger] table@[i].1@ != n@,
        },
{
    let mut i: usize = 0;
    while i < table.len()
        invariant
            i <= table.len(),
            table_ok(table@, label_index),
            forall|j: int| 0 <= j < i ==> #[trigger] table@[j].1@ != n@,
        decreases table.len() - i,
    {
        if eq_str(table[i].1.as_str(), n) {
            proof {
                lemma_label_name_at(table@, label_index, i as int);
            }
            return Some(i);
        }
        i = i + 1;
    }
    None
}

impl Bucket {
    /// The ids of the labels `labels`: each label the table lacks gets the
    /// next id.
    fn labels_index(&mut self, labels: &Vec<String>) -> (ids: Vec<u64>)
        requires
            table_ok(old(self).labels@, old(self).label_index),
            old(self).label_index + labels.len() <= u64::MAX,
        ensures
            table_ok(final(self).labels@, final(self).label_index),
            table_grows(old(self).labels@, final(self).labels@),
            old(self).label_index <= final(self).label_index,
            final(self).data == old(self).data,
            label_set(final(self).labels@, ids@) == name_set(labels@),
            ids@.no_duplicates(),
    {
        let mut ids: Vec<u64> = Vec::new();
        let mut i: usize = 0;
        let ghost start = self.labels@;
        let ghost start_index = self.label_index;
        proof {
            assert(label_set(self.labels@, ids@) =~= name_set(labels@.take(0)));
            assert forall|id: u64| #[trigger] label_name(start, id) is Some implies label_name(self.labels@, id)
                == label_name(start, id) by {}
        }
        while i < labels.len()
            invariant
                i <= labels.len(),
                table_ok(self.labels@, self.label_index),
                start_index <= self.label_index,
                self.label_index + (labels.len() - i) <= u64::MAX,
                table_grows(start, self.labels@),
                self.data == old(self).data,
                start == old(self).labels@,
                start_index == old(self).label_index,
                label_set(self.labels@, ids@) == name_set(labels@.take(i as int)),
                forall|t: int| 0 <= t < ids.len() ==> #[trigger] label_name(self.labels@, ids@[t]) is Some,
                ids@.no_duplicates(),
            decreases labels.len() - i,
        {
            let n = labels[i].as_str();
            let ghost before_table = self.labels@;
            let ghost before_ids = ids@;
            let id = match find_label_name(&self.labels, n, Ghost(self.label_index)) {
                Some(k) => self.labels[k].0,
                None => {
                    let id = self.label_index;
                    let x = owned(n);
                    proof {
                        lemma_table_push(self.labels@, self.label_index, x);
                    }
                    self.labels.push((id, x));
                    self.label_index = self.label_index + 1;
                    id
                },
            };
            proof {
                assert(label_name(self.labels@, id) == Some(n@));
                assert forall|t: int| 0 <= t < before_ids.len() implies #[trigger] label_name(self.labels@, before_ids[t])
                    == label_name(before_table, before_ids[t]) by {
                    assert(label_name(before_table, before_ids[t]) is Some);
                }
                assert forall|idx: u64| #[trigger] label_name(start, idx) is Some implies label_name(self.labels@, idx)
                    == label_name(start, idx) by {
                    assert(label_name(before_table, idx) == label_name(start, idx));
                }
            }
            if !ids_contain(&ids, id) {
                ids.push(id);
            }
            proof {
                let ls = labels@.take(i + 1);
                assert(strs(ls) =~= strs(labels@.take(i as int)).push(n@));
                assert forall|x: Seq<char>| #[trigger] label_set(self.labels@, ids@).contains(x) == name_set(ls).contains(x) by {
                    if label_set(self.labels@, ids@).contains(x) {
                        let t = choose|t: int| 0 <= t < ids@.len() && label_name(self.labels@, #[trigger] ids@[t]) == Some(x);
                        if t < before_ids.len() {
                            assert(ids@[t] == before_ids[t]);
                            assert(label_set(before_table, before_ids).contains(x));
                            assert(strs(labels@.take(i as int)).contains(x));
                            let q = choose|q: int| 0 <= q < strs(labels@.take(i as int)).len() && strs(labels@.take(i as int))[q] == x;
                            assert(strs(ls)[q] == x);
                        } else {
                            assert(ids@[t] == id);
                            assert(strs(ls)[i as int] == n@);
                        }
                    }
                    if name_set(ls).contains(x) {
                        let q = choose|q: int| 0 <= q < strs(ls).len() && strs(ls)[q] == x;
                        if q < i {
                            assert(strs(labels@.take(i as int))[q] == x);
                            assert(name_set(labels@.take(i as int)).contains(x));
                            assert(label_set(before_table, before_ids).contains(x));
                            let t = choose|t: int| 0 <= t < before_ids.len() && label_name(before_table, #[trigger] before_ids[t]) == Some(x);
                            assert(ids@[t] == before_ids[t]);
                        } else {
                            assert(x == n@);
                            if ids_has(before_ids, id) {
                                let t = choose|t: int| 0 <= t < before_ids.len() && before_ids[t] == id;
                                assert(ids@[t] == id);
                            } else {
                                assert(ids@[before_ids.len() as int] == id);
                            }
                        }
                    }
                }
                assert(label_set(self.labels@, ids@) =~= name_set(ls));
            }
            i = i + 1;
        }
        proof {
            assert(labels@.take(labels.len() as int) =~= labels@);
        }
        ids
    }
}

pub open spec fn ids_has(ids: Seq<u64>, id: u64) -> bool {
    exists|t: int| 0 <= t < ids.len() && ids[t] == id
}

fn ids_contain(ids: &Vec<u64>, id: u64) -> (r: bool)
    ensures
        r == ids_has(ids@, id),
{
    let mut i: usize = 0;
    while i < ids.len()
        invariant
            i <= ids.len(),
            forall|t: int| 0 <= t < i ==> ids@[t] != id,
        decreases ids.len() - i,
    {
        if ids[i] == id {
            return true;
        }
        i = i + 1;
    }
    false
}


/// Two optional label id lists hold the same ids.
pub open spec fn same_labels(a: Option<Vec<u64>>, b: Option<Vec<u64>>) -> bool {
    match (a, b) {
        (None, None) => true,
        (Some(x), Some(y)) => forall|id: u64| ids_has(x@, id) == ids_has(y@, id),
        _ => false,
    }
}

fn subset_ids(x: &Vec<u64>, y: &Vec<u64>) -> (r: bool)
    ensures
        r == forall|id: u64| ids_has(x@, id) ==> ids_has(y@, id),
{
    let mut i: usize = 0;
    while i < x.len()
        invariant
            i <= x.len(),
            forall|t: int| 0 <= t < i ==> ids_has(y@, #[trigger] x@[t]),
        decreases x.len() - i,
    {
        if !ids_contain(y, x[i]) {
            return false;
        }
        i = i + 1;
    }
    true
}

fn same_ids(a: &Option<Vec<u64>>, b: &Option<Vec<u64>>) -> (r: bool)
    ensures
        r == same_labels(*a, *b),
{
    match (a, b) {
        (None, None) => true,
        (Some(x), Some(y)) => subset_ids(x, y) && subset_ids(y, x),
        _ => false,
    }
}

/// How many labels `repo` has.
pub open spec fn label_count(repo: Repo) -> nat {
    match repo.labels {
        Some(ls) => ls@.len(),
        None => 0,
    }
}

/// `new` is `old` with `repo` written: its entry holds the repository's path,
/// visits and labels; every other entry is as it was; the label table only
/// gains labels.
pub open spec fn upserted(old: Bucket, new: Bucket, repo: Repo) -> bool {
    &&& entry_at(new, repo.remote@, repo.owner@, repo.name@) matches Some(e) && {
        &&& opt_str(e.path) == opt_str(repo.path)
        &&& e.last_accessed == repo.last_accessed
        &&& e.accessed == repo.accessed
        &&& match repo.labels {
            None => e.labels is None,
            Some(ls) => e.labels matches Some(ids) && label_set(new.labels@, ids@) == name_set(ls@),
        }
    }
    &&& forall|r: Seq<char>, o: Seq<char>, n: Seq<char>|
        !(r == repo.remote@ && o == repo.owner@ && n == repo.name@) ==> #[trigger] entry_at(new, r, o, n) == entry_at(
            old,
            r,
            o,
            n,
        )
    &&& table_grows(old.labels@, new.labels@)
}

impl Database {
    /// Writes `repo` into the database, creating its remote and owner where
    /// needed. Labels new to the table get new ids; where the repository's
    /// label ids change, some label may fall out of use.
    pub fn upsert(&mut self, repo: &Repo)
        requires
            bucket_ok(old(self).bucket),
            old(self).bucket.label_index + label_count(*repo) <= u64::MAX,
        ensures
            bucket_ok(final(self).bucket),
            upserted(old(self).bucket, final(self).bucket, *repo),
            final(self).clean_labels == (old(self).clean_labels || !same_labels(
                match entry_at(old(self).bucket, repo.remote@, repo.owner@, repo.name@) {
                    Some(e) => e.labels,
                    None => None,
                },
                match entry_at(final(self).bucket, repo.remote@, repo.owner@, repo.name@) {
                    Some(e) => e.labels,
                    None => None,
                },
            )),
    {
        let ghost b0 = self.bucket;
        let ghost rk = repo.remote@;
        let ghost ok = repo.owner@;
        let ghost nk = repo.name@;
        let mut rb = match take_key(&mut self.bucket.data, repo.remote.as_str()) {
            Some(x) => x,
            None => RemoteBucket(Vec::new()),
        };
        proof {
            if lookup(b0.data@, rk) is Some {
                let p = key_pos(b0.data@, rk);
                assert(remote_ok(b0.data@[p].1));
            }
        }
        let ghost rb0 = rb;
        let mut ob = match take_key(&mut rb.0, repo.owner.as_str()) {
            Some(x) => x,
            None => OwnerBucket(Vec::new()),
        };
        proof {
            if lookup(rb0.0@, ok) is Some {
                let p = key_pos(rb0.0@, ok);
                assert(distinct_keys(rb0.0@[p].1.0@));
            }
        }
        let ghost ob0 = ob;
        let old_entry = take_key(&mut ob.0, repo.name.as_str());
        let new_ids = match &repo.labels {
            Some(ls) => Some(self.bucket.labels_index(ls)),
            None => None,
        };
        let changed = match &old_entry {
            Some(e) => !same_ids(&new_ids, &e.labels),
            None => !same_ids(&new_ids, &None),
        };
        proof {
            if old_entry is None {
                assert(same_labels(new_ids, None) == same_labels(None, new_ids));
            } else {
                let e = old_entry->0;
                assert(same_labels(new_ids, e.labels) == same_labels(e.labels, new_ids));
            }
        }
        if changed {
            self.clean_labels = true;
        }
        let e = RepoBucket {
            path: clone_path(&repo.path),
            labels: new_ids,
            last_accessed: repo.last_accessed,
            accessed: repo.accessed,
        };
        let ghost ob1 = ob;
        put_key(&mut ob.0, owned(repo.name.as_str()), e);
        let ghost rb1 = rb;
        put_key(&mut rb.0, owned(repo.owner.as_str()), ob);
        proof {
            assert forall|j: int| 0 <= j < rb.0@.len() implies distinct_keys(#[trigger] rb.0@[j].1.0@) by {
                if rb1.0@.contains(rb.0@[j]) {
                    let q = choose|q: int| 0 <= q < rb1.0@.len() && rb1.0@[q] == rb.0@[j];
                    assert(rb0.0@.contains(rb1.0@[q]));
                    let q2 = choose|q2: int| 0 <= q2 < rb0.0@.len() && rb0.0@[q2] == rb1.0@[q];
                    assert(distinct_keys(rb0.0@[q2].1.0@));
                }
            }
        }
        let ghost d1 = self.bucket.data;
        put_key(&mut self.bucket.data, owned(repo.remote.as_str()), rb);
        proof {
            let d = self.bucket.data@;
            assert forall|i: int| 0 <= i < d.len() implies remote_ok(#[trigger] d[i].1) by {
                if d1@.contains(d[i]) {
                    let q = choose|q: int| 0 <= q < d1@.len() && d1@[q] == d[i];
                    assert(b0.data@.contains(d1@[q]));
                    let q2 = choose|q2: int| 0 <= q2 < b0.data@.len() && b0.data@[q2] == d1@[q];
                    assert(remote_ok(b0.data@[q2].1));
                }
            }
            let b = self.bucket;
            assert(entry_at(b, rk, ok, nk) == Some(e));
            assert forall|r: Seq<char>, o: Seq<char>, n: Seq<char>|
                !(r == rk && o == ok && n == nk) implies #[trigger] entry_at(b, r, o, n) == entry_at(b0, r, o, n) by {
                if r != rk {
                    assert(lookup(b.data@, r) == lookup(b0.data@, r));
                } else if o != ok {
                    assert(lookup(rb.0@, o) == lookup(rb0.0@, o));
                } else {
                    assert(lookup(ob.0@, n) == lookup(ob0.0@, n));
                }
            }
            assert(entry_at(b0, rk, ok, nk) == old_entry);
        }
    }
}


/// `new` is `old` without the entry `remote:owner/name`: every other entry is
/// as it was, the label table too, and the remote and owner buckets that
/// held it are dropped where they are left empty.
pub open spec fn removed(old: Bucket, new: Bucket, remote: Seq<char>, owner: Seq<char>, name: Seq<char>) -> bool {
    &&& entry_at(new, remote, owner, name) is None
    &&& forall|r: Seq<char>, o: Seq<char>, n: Seq<char>|
        !(r == remote && o == owner && n == name) ==> #[trigger] entry_at(new, r, o, n) == entry_at(old, r, o, n)
    &&& new.labels == old.labels
    &&& new.label_index == old.label_index
    &&& (lookup(new.data@, remote) matches Some(rb) ==> rb.0@.len() > 0 && (lookup(rb.0@, owner) matches Some(ob)
        ==> ob.0@.len() > 0))
}

impl Database {
    /// Takes the repository `repo` names out of the database; where it had
    /// labels, some label may fall out of use.
    pub fn remove(&mut self, repo: &Repo)
        requires
            bucket_ok(old(self).bucket),
        ensures
            bucket_ok(final(self).bucket),
            removed(old(self).bucket, final(self).bucket, repo.remote@, repo.owner@, repo.name@),
            final(self).clean_labels == (old(self).clean_labels || (entry_at(
                old(self).bucket,
                repo.remote@,
                repo.owner@,
                repo.name@,
            ) matches Some(e) && e.labels is Some)),
    {
        let ghost b0 = self.bucket;
        let ghost rk = repo.remote@;
        let ghost ok = repo.owner@;
        let ghost nk = repo.name@;
        if let Some(mut rb) = take_key(&mut self.bucket.data, repo.remote.as_str()) {
            let ghost rb0 = rb;
            proof {
                let p = key_pos(b0.data@, rk);
                assert(remote_ok(b0.data@[p].1));
            }
            if let Some(mut ob) = take_key(&mut rb.0, repo.owner.as_str()) {
                let ghost ob0 = ob;
                proof {
                    let p = key_pos(rb0.0@, ok);
                    assert(distinct_keys(rb0.0@[p].1.0@));
                }
                if let Some(e) = take_key(&mut ob.0, repo.name.as_str()) {
                    if e.labels.is_some() {
                        self.clean_labels = true;
                    }
                }
                if ob.0.len() > 0 {
                    let ghost rb1 = rb;
                    put_key(&mut rb.0, owned(repo.owner.as_str()), ob);
                    proof {
                        assert forall|j: int| 0 <= j < rb.0@.len() implies distinct_keys(#[trigger] rb.0@[j].1.0@) by {
                            if rb1.0@.contains(rb.0@[j]) {
                                let q = choose|q: int| 0 <= q < rb1.0@.len() && rb1.0@[q] == rb.0@[j];
                                assert(rb0.0@.contains(rb1.0@[q]));
                                let q2 = choose|q2: int| 0 <= q2 < rb0.0@.len() && rb0.0@[q2] == rb1.0@[q];
                                assert(distinct_keys(rb0.0@[q2].1.0@));
                            }
                        }
                        assert forall|o: Seq<char>| o != ok implies #[trigger] lookup(rb.0@, o) == lookup(rb0.0@, o) by {}
                        assert forall|n: Seq<char>| n != nk implies #[trigger] lookup(ob.0@, n) == lookup(ob0.0@, n) by {}
                    }
                } else {
                    proof {
                        assert forall|j: int| 0 <= j < rb.0@.len() implies distinct_keys(#[trigger] rb.0@[j].1.0@) by {
                            assert(rb0.0@.contains(rb.0@[j]));
                            let q2 = choose|q2: int| 0 <= q2 < rb0.0@.len() && rb0.0@[q2] == rb.0@[j];
                            assert(distinct_keys(rb0.0@[q2].1.0@));
                        }
                        assert forall|n: Seq<char>| #[trigger] lookup(ob0.0@, n) is Some implies n == nk by {
                            if n != nk {
                                assert(lookup(ob.0@, n) == lookup(ob0.0@, n));
                                if has_key(ob.0@, n) {
                                    let q = key_pos(ob.0@, n);
                                    assert(0 <= q < ob.0@.len());
                                }
                            }
                        }
                    }
                }
            }
            if rb.0.len() > 0 {
                let ghost d1 = self.bucket.data;
                put_key(&mut self.bucket.data, owned(repo.remote.as_str()), rb);
                proof {
                    let d = self.bucket.data@;
                    assert forall|i: int| 0 <= i < d.len() implies remote_ok(#[trigger] d[i].1) by {
                        if d1@.contains(d[i]) {
                            let q = choose|q: int| 0 <= q < d1@.len() && d1@[q] == d[i];
                            assert(b0.data@.contains(d1@[q]));
                            let q2 = choose|q2: int| 0 <= q2 < b0.data@.len() && b0.data@[q2] == d1@[q];
                            assert(remote_ok(b0.data@[q2].1));
                        }
                    }
                }
            } else {
                proof {
                    let d = self.bucket.data@;
                    assert forall|i: int| 0 <= i < d.len() implies remote_ok(#[trigger] d[i].1) by {
                        assert(b0.data@.contains(d[i]));
                        let q2 = choose|q2: int| 0 <= q2 < b0.data@.len() && b0.data@[q2] == d[i];
                        assert(remote_ok(b0.data@[q2].1));
                    }
                    assert forall|o: Seq<char>| #[trigger] lookup(rb0.0@, o) is Some && o != ok implies false by {
                        assert(lookup(rb.0@, o) == lookup(rb0.0@, o));
                        if has_key(rb.0@, o) {
                            let q = key_pos(rb.0@, o);
                            assert(0 <= q < rb.0@.len());
                        }
                    }
                }
            }
        } else {
            proof {
                assert forall|i: int| 0 <= i < self.bucket.data@.len() implies remote_ok(#[trigger] self.bucket.data@[i].1) by {
                    assert(b0.data@.contains(self.bucket.data@[i]));
                    let q2 = choose|q2: int| 0 <= q2 < b0.data@.len() && b0.data@[q2] == self.bucket.data@[i];
                    assert(remote_ok(b0.data@[q2].1));
                }
            }
        }
    }
}


/// The optional id list holds `id`.
pub open spec fn has_id(labels: Option<Vec<u64>>, id: u64) -> bool {
    match labels {
        Some(ids) => ids_has(ids@, id),
        None => false,
    }
}

/// Some repository of `ob` has the label id `id`.
pub open spec fn owner_uses(ob: OwnerBucket, id: u64) -> bool {
    exists|k: int| 0 <= k < ob.0@.len() && has_id((#[trigger] ob.0@[k]).1.labels, id)
}

/// Some repository of `rb` has the label id `id`.
pub open spec fn remote_uses(rb: RemoteBucket, id: u64) -> bool {
    exists|j: int| 0 <= j < rb.0@.len() && owner_uses(#[trigger] rb.0@[j].1, id)
}

/// Some repository of the database has the label id `id`.
pub open spec fn label_used(data: Seq<(String, RemoteBucket)>, id: u64) -> bool {
    exists|i: int| 0 <= i < data.len() && remote_uses(#[trigger] data[i].1, id)
}

/// The labels of `table` that some repository of `data` has, in order.
pub open spec fn used_labels(table: Seq<(u64, String)>, data: Seq<(String, RemoteBucket)>) -> Seq<(u64, String)>
    decreases table.len(),
{
    if table.len() == 0 {
        Seq::empty()
    } else {
        let d = used_labels(table.drop_last(), data);
        if label_used(data, table.last().0) {
            d.push(table.last())
        } else {
            d
        }
    }
}

fn owner_uses_id(ob: &OwnerBucket, id: u64) -> (r: bool)
    ensures
        r == owner_uses(*ob, id),
{
    let mut k: usize = 0;
    while k < ob.0.len()
        invariant
            k <= ob.0.len(),
            forall|q: int| 0 <= q < k ==> !has_id((#[trigger] ob.0@[q]).1.labels, id),
        decreases ob.0.len() - k,
    {
        if let Some(ids) = &ob.0[k].1.labels {
            if ids_contain(ids, id) {
                return true;
            }
        }
        k = k + 1;
    }
    false
}

fn remote_uses_id(rb: &RemoteBucket, id: u64) -> (r: bool)
    ensures
        r == remote_uses(*rb, id),
{
    let mut j: usize = 0;
    while j < rb.0.len()
        invariant
            j <= rb.0.len(),
            forall|q: int| 0 <= q < j ==> !owner_uses(#[trigger] rb.0@[q].1, id),
        decreases rb.0.len() - j,
    {
        if owner_uses_id(&rb.0[j].1, id) {
            return true;
        }
        j = j + 1;
    }
    false
}

fn label_used_id(data: &Vec<(String, RemoteBucket)>, id: u64) -> (r: bool)
    ensures
        r == label_used(data@, id),
{
    let mut i: usize = 0;
    while i < data.len()
        invariant
            i <= data.len(),
            forall|q: int| 0 <= q < i ==> !remote_uses(#[trigger] data@[q].1, id),
        decreases data.len() - i,
    {
        if remote_uses_id(&data[i].1, id) {
            return true;
        }
        i = i + 1;
    }
    false
}

pub open spec fn table_views(t: Seq<(u64, String)>) -> Seq<(u64, Seq<char>)> {
    t.map_values(|p: (u64, String)| (p.0, p.1@))
}

proof fn lemma_used_labels_ok(t: Seq<(u64, String)>, data: Seq<(String, RemoteBucket)>, li: u64)
    requires
        table_ok(t, li),
    ensures
        table_ok(used_labels(t, data), li),
        forall|q: int| 0 <= q < used_labels(t, data).len() ==> t.contains(#[trigger] used_labels(t, data)[q]),
    decreases t.len(),
{
    if t.len() > 0 {
        let d = t.drop_last();
        assert forall|i: int, j: int| 0 <= i < j < d.len() implies #[trigger] d[i].0 != #[trigger] d[j].0 by {
            assert(d[i] == t[i] && d[j] == t[j]);
        }
        assert forall|i: int, j: int| 0 <= i < j < d.len() implies #[trigger] d[i].1@ != #[trigger] d[j].1@ by {
            assert(d[i] == t[i] && d[j] == t[j]);
        }
        assert forall|i: int| 0 <= i < d.len() implies #[trigger] d[i].0 < li by {
            assert(d[i] == t[i]);
        }
        lemma_used_labels_ok(d, data, li);
        let u = used_labels(d, data);
        let last = t.last();
        if label_used(data, last.0) {
            let v = u.push(last);
            assert forall|q: int| 0 <= q < u.len() implies #[trigger] u[q].0 != last.0 && u[q].1@ != last.1@ by {
                assert(d.contains(u[q]));
                let p = choose|p: int| 0 <= p < d.len() && d[p] == u[q];
                assert(t[p] == d[p]);
                assert(t[p].0 != t[t.len() - 1].0);
                assert(t[p].1@ != t[t.len() - 1].1@);
            }
            assert forall|i: int, j: int| 0 <= i < j < v.len() implies #[trigger] v[i].0 != #[trigger] v[j].0 by {
                if j == u.len() {
                    assert(v[i] == u[i]);
                } else {
                    assert(v[i] == u[i] && v[j] == u[j]);
                }
            }
            assert forall|i: int, j: int| 0 <= i < j < v.len() implies #[trigger] v[i].1@ != #[trigger] v[j].1@ by {
                if j == u.len() {
                    assert(v[i] == u[i]);
                } else {
                    assert(v[i] == u[i] && v[j] == u[j]);
                }
            }
            assert forall|i: int| 0 <= i < v.len() implies #[trigger] v[i].0 < li by {
                if i < u.len() {
                    assert(v[i] == u[i]);
                    assert(d.contains(u[i]));
                } else {
                    assert(t[t.len() - 1].0 < li);
                }
            }
            assert forall|q: int| 0 <= q < v.len() implies t.contains(#[trigger] v[q]) by {
                if q < u.len() {
                    assert(d.contains(u[q]));
                    let p = choose|p: int| 0 <= p < d.len() && d[p] == u[q];
                    assert(t[p] == d[p]);
                } else {
                    assert(t[t.len() - 1] == v[q]);
                }
            }
        } else {
            assert forall|q: int| 0 <= q < u.len() implies t.contains(#[trigger] u[q]) by {
                assert(d.contains(u[q]));
                let p = choose|p: int| 0 <= p < d.len() && d[p] == u[q];
                assert(t[p] == d[p]);
            }
        }
    }
}

impl Database {
    /// Puts `bucket` in place of the database's buckets.
    pub fn set_bucket(&mut self, bucket: Bucket)
        ensures
            final(self).bucket == bucket,
            final(self).clean_labels == old(self).clean_labels,
    {
        self.bucket = bucket;
    }

    /// The buckets to store: where some label may have fallen out of use,
    /// the label table keeps only the labels that some repository has.
    pub fn close(self) -> (b: Bucket)
        requires
            bucket_ok(self.bucket),
        ensures
            bucket_ok(b),
            !self.clean_labels ==> b == self.bucket,
            self.clean_labels ==> b.data == self.bucket.data && b.label_index == self.bucket.label_index
                && table_views(b.labels@) == table_views(used_labels(self.bucket.labels@, self.bucket.data@)),
    {
        let Database { bucket, clean_labels } = self;
        if !clean_labels {
            return bucket;
        }
        let Bucket { data, label_index, labels } = bucket;
        let ghost t = labels@;
        let mut kept: Vec<(u64, String)> = Vec::new();
        let mut i: usize = 0;
        proof {
            assert(t.take(0) =~= Seq::<(u64, String)>::empty());
            assert(table_views(kept@) =~= Seq::<(u64, Seq<char>)>::empty());
        }
        while i < labels.len()
            invariant
                i <= labels.len(),
                t == labels@,
                table_views(kept@) == table_views(used_labels(t.take(i as int), data@)),
            decreases labels.len() - i,
        {
            proof {
                assert(t.take(i + 1).drop_last() =~= t.take(i as int));
                assert(t.take(i + 1).last() == t[i as int]);
            }
            if label_used_id(&data, labels[i].0) {
                let x = (labels[i].0, owned(labels[i].1.as_str()));
                proof {
                    assert(table_views(kept@.push(x)) =~= table_views(kept@).push((x.0, x.1@)));
                    assert(table_views(used_labels(t.take(i as int), data@).push(t[i as int])) =~= table_views(
                        used_labels(t.take(i as int), data@),
                    ).push((t[i as int].0, t[i as int].1@)));
                }
                kept.push(x);
            }
            i = i + 1;
        }
        proof {
            assert(t.take(labels.len() as int) =~= t);
            lemma_used_labels_ok(t, data@, label_index);
            let u = used_labels(t, data@);
            let k = kept@;
            assert forall|q: int| 0 <= q < k.len() implies k[q].0 == u[q].0 && k[q].1@ == u[q].1@ by {
                assert(table_views(k)[q] == table_views(u)[q]);
            }
            assert forall|a: int, c: int| 0 <= a < c < k.len() implies #[trigger] k[a].0 != #[trigger] k[c].0 by {
                assert(u[a].0 != u[c].0);
            }
            assert forall|a: int, c: int| 0 <= a < c < k.len() implies #[trigger] k[a].1@ != #[trigger] k[c].1@ by {
                assert(u[a].1@ != u[c].1@);
            }
            assert forall|a: int| 0 <= a < k.len() implies #[trigger] k[a].0 < label_index by {
                assert(u[a].0 < label_index);
            }
        }
        Bucket { data, label_index, labels: kept }
    }
}


/// The names under which `s` holds values, in order.
pub open spec fn keys_of<V>(s: Seq<(String, V)>) -> Seq<Seq<char>> {
    s.map_values(|p: (String, V)| p.0@)
}

/// No name of `ns` comes before an earlier one.
pub open spec fn sorted_names(ns: Seq<Seq<char>>) -> bool {
    forall|i: int, j: int| 0 <= i < j < ns.len() ==> !lex_lt(#[trigger] ns[j], #[trigger] ns[i])
}

/// The labels `wanted` are all among the labels of `e` (no label wanted
/// lets every repository through).
pub open spec fn labels_match(table: Seq<(u64, String)>, e: RepoBucket, wanted: Option<Vec<String>>) -> bool {
    match wanted {
        None => true,
        Some(w) => w.len() == 0 || (e.labels matches Some(ids) && forall|t: int|
            0 <= t < w.len() ==> label_set(table, ids@).contains(#[trigger] w@[t]@)),
    }
}

fn name_position(v: &Vec<String>, x: &str) -> (k: usize)
    requires
        sorted_names(strs(v@)),
    ensures
        k <= v.len(),
        forall|i: int| 0 <= i < k ==> !lex_lt(x@, #[trigger] v@[i]@),
        k < v.len() ==> lex_lt(x@, v@[k as int]@),
{
    let mut k: usize = 0;
    while k < v.len()
        invariant
            k <= v.len(),
            forall|i: int| 0 <= i < k ==> !lex_lt(x@, #[trigger] v@[i]@),
        decreases v.len() - k,
    {
        if str_lt(x, v[k].as_str()) {
            return k;
        }
        k = k + 1;
    }
    k
}

impl Bucket {
    /// The database with no repository and no label.
    pub fn empty() -> (b: Bucket)
        ensures
            bucket_ok(b),
            b.data.len() == 0,
            b.labels.len() == 0,
            b.label_index == 0,
    {
        Bucket { data: Vec::new(), label_index: 0, labels: Vec::new() }
    }
}

impl Database {
    /// The owners of `remote`, in order of their names.
    pub fn list_owners(&self, remote: &str) -> (r: Vec<String>)
        requires
            bucket_ok(self.bucket),
        ensures
            sorted_names(strs(r@)),
            match lookup(self.bucket.data@, remote@) {
                None => r.len() == 0,
                Some(rb) => strs(r@).to_multiset() == keys_of(rb.0@).to_multiset(),
            },
    {
        let data = &self.bucket.data;
        let i = match find_key(data, remote) {
            Some(i) => i,
            None => return Vec::new(),
        };
        proof {
            lemma_lookup_at(data@, i as int);
        }
        let owners = &data[i].1.0;
        let ghost ks = keys_of(owners@);
        let mut out: Vec<String> = Vec::new();
        let mut j: usize = 0;
        proof {
            assert(ks.take(0) =~= Seq::<Seq<char>>::empty());
            assert(strs(out@) =~= Seq::<Seq<char>>::empty());
        }
        while j < owners.len()
            invariant
                j <= owners.len(),
                ks == keys_of(owners@),
                sorted_names(strs(out@)),
                strs(out@).to_multiset() == ks.take(j as int).to_multiset(),
            decreases owners.len() - j,
        {
            let x = owned(owners[j].0.as_str());
            let k = name_position(&out, x.as_str());
            let ghost before = strs(out@);
            let ghost xv = x@;
            proof {
                let gs = before.insert(k as int, xv);
                assert forall|a: int, b: int| 0 <= a < b < gs.len() implies !lex_lt(#[trigger] gs[b], #[trigger] gs[a]) by {
                    if b < k {
                        assert(gs[a] == before[a] && gs[b] == before[b]);
                    } else if b == k {
                        assert(gs[a] == before[a] && before[a] == out@[a]@);
                    } else if a < k {
                        assert(gs[a] == before[a] && gs[b] == before[b - 1]);
                    } else if a == k {
                        assert(gs[a] == xv && gs[b] == before[b - 1]);
                        assert(before[k as int] == out@[k as int]@);
                        if lex_lt(before[b - 1], xv) {
                            lemma_lex_transitive(before[b - 1], xv, before[k as int]);
                            if b - 1 == k {
                                lemma_lex_irreflexive(before[k as int]);
                            }
                        }
                    } else {
                        assert(gs[a] == before[a - 1] && gs[b] == before[b - 1]);
                    }
                }
                vstd::seq_lib::to_multiset_insert(before, k as int, xv);
                assert(ks.take(j + 1) =~= ks.take(j as int).push(xv));
                vstd::seq_lib::to_multiset_build(ks.take(j as int), xv);
            }
            out.insert(k, x);
            proof {
                assert(strs(out@) =~= before.insert(k as int, xv));
            }
            j = j + 1;
        }
        proof {
            assert(ks.take(owners.len() as int) =~= ks);
        }
        out
    }

    /// Whether the repository with entry `e` has every label of `labels`.
    pub fn filter_labels(&self, e: &RepoBucket, labels: &Option<Vec<String>>) -> (r: bool)
        requires
            bucket_ok(self.bucket),
        ensures
            r == labels_match(self.bucket.labels@, *e, *labels),
    {
        let wanted = match labels {
            None => return true,
            Some(w) => w,
        };
        if wanted.len() == 0 {
            return true;
        }
        let ids = match &e.labels {
            None => return false,
            Some(ids) => ids,
        };
        let names = label_names(&self.bucket.labels, ids, Ghost(self.bucket.label_index));
        let mut t: usize = 0;
        while t < wanted.len()
            invariant
                t <= wanted.len(),
                *labels == Some(*wanted),
                e.labels == Some(*ids),
                wanted.len() > 0,
                name_set(names@) == label_set(self.bucket.labels@, ids@),
                forall|q: int| 0 <= q < t ==> label_set(self.bucket.labels@, ids@).contains(#[trigger] wanted@[q]@),
            decreases wanted.len() - t,
        {
            if !crate::git::contains_string(&names, wanted[t].as_str()) {
                assert(!name_set(names@).contains(wanted@[t as int]@));
                assert(!label_set(self.bucket.labels@, ids@).contains(wanted@[t as int]@));
                return false;
            }
            assert(name_set(names@).contains(wanted@[t as int]@));
            t = t + 1;
        }
        true
    }
}

/// Reading a repository after writing it gives it back: the same path,
/// visits and, as a set, labels.
pub proof fn law_get_after_upsert(old: Bucket, new: Bucket, repo: Repo, got: Repo)
    requires
        upserted(old, new, repo),
        entry_at(new, repo.remote@, repo.owner@, repo.name@) matches Some(e) && repo_of_entry(
            got,
            repo.remote@,
            repo.owner@,
            repo.name@,
            e,
            new.labels@,
        ),
    ensures
        got.remote@ == repo.remote@,
        got.owner@ == repo.owner@,
        got.name@ == repo.name@,
        opt_str(got.path) == opt_str(repo.path),
        got.last_accessed == repo.last_accessed,
        got.accessed == repo.accessed,
        repo.labels is None <==> got.labels is None,
        repo.labels matches Some(ls) ==> (got.labels matches Some(gs) && name_set(gs@) == name_set(ls@)),
{
}

/// A removed repository is no longer found, and every other one is as it was.
pub proof fn law_get_after_remove(old: Bucket, new: Bucket, repo: Repo, r: Seq<char>, o: Seq<char>, n: Seq<char>)
    requires
        removed(old, new, repo.remote@, repo.owner@, repo.name@),
    ensures
        entry_at(new, repo.remote@, repo.owner@, repo.name@) is None,
        !(r == repo.remote@ && o == repo.owner@ && n == repo.name@) ==> entry_at(new, r, o, n) == entry_at(old, r, o, n),
{
}

/// The version of the stored database format that this library reads and writes.
pub const BUCKET_VERSION: u32 = 3;

/// The value of four bytes read as a little-endian number, as bincode
/// writes a `u32` with fixed-width integers.
pub open spec fn le_u32(b: Seq<u8>) -> int {
    b[0] + 256 * b[1] + 65536 * b[2] + 16777216 * b[3]
}

/// The four bytes that the version takes at the head of stored data.
pub open spec fn version_bytes() -> Seq<u8> {
    seq![3u8, 0u8, 0u8, 0u8]
}

impl Bucket {
    /// Where the stored buckets start in `data`, after the version: `corrupted
    /// data` where `data` is too short for a version, `unsupported version v`
    /// where it holds another version than [`BUCKET_VERSION`].
    pub fn version_body(data: &[u8]) -> (r: Result<usize, Error>)
        ensures
            data@.len() < 4 ==> r == Err::<usize, Error>(Error::CorruptedData),
            data@.len() >= 4 && le_u32(data@) != BUCKET_VERSION ==> r == Err::<usize, Error>(
                Error::UnsupportedVersion(le_u32(data@) as u32),
            ),
            data@.len() >= 4 && le_u32(data@) == BUCKET_VERSION ==> r == Ok::<usize, Error>(4),
    {
        if data.len() < 4 {
            return Err(Error::CorruptedData);
        }
        let v: u32 = data[0] as u32 + 256 * (data[1] as u32) + 65536 * (data[2] as u32) + 16777216 * (data[3] as u32);
        if v != BUCKET_VERSION {
            return Err(Error::UnsupportedVersion(v));
        }
        Ok(4)
    }

    /// The stored form of the buckets encoded as `body`: the version, then `body`.
    pub fn with_version(body: &[u8]) -> (r: Vec<u8>)
        ensures
            r@ == version_bytes() + body@,
    {
        let mut r: Vec<u8> = vec![3u8, 0u8, 0u8, 0u8];
        let mut i: usize = 0;
        while i < body.len()
            invariant
                i <= body.len(),
                r@ == version_bytes() + body@.take(i as int),
            decreases body.len() - i,
        {
            r.push(body[i]);
            assert(body@.take(i + 1) =~= body@.take(i as int).push(body@[i as int]));
            i = i + 1;
        }
        assert(body@.take(body.len() as int) =~= body@);
        r
    }
}

/// What is written with the version is read back: the version checks, and
/// the buckets' bytes start right after it.
pub proof fn law_version_round_trip(body: Seq<u8>)
    ensures
        (version_bytes() + body).len() >= 4,
        le_u32(version_bytes() + body) == BUCKET_VERSION,
        (version_bytes() + body).skip(4) == body,
{
    assert((version_bytes() + body).skip(4) =~= body);
}

} // verus!
