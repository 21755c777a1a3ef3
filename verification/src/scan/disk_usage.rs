//! How much space the files below a directory take: in all, and per path
//! cut to a given depth.
use vstd::prelude::*;

use crate::error::Error;
use vstd::string::StringSliceAdditionalSpecFns;
use crate::repo::keywords::{lemma_lex_irreflexive, lemma_lex_total, lemma_lex_transitive, lex_lt, str_lt};
use crate::repo::relative_parts;
use crate::repo::scan_orphans::relative_parts_of;
use crate::scan::ignore::Ignore;
use crate::secret::files::{rules_match, rules_source};
use crate::text::{eq_str, owned, strs};

verus! {

/// Relative paths in the order of `Path`: component by component, a proper
/// prefix first.
pub open spec fn comps_lt(a: Seq<Seq<char>>, b: Seq<Seq<char>>) -> bool
    decreases a.len(),
{
    if a.len() == 0 {
        b.len() > 0
    } else if b.len() == 0 {
        false
    } else if a[0] != b[0] {
        lex_lt(a[0], b[0])
    } else {
        comps_lt(a.drop_first(), b.drop_first())
    }
}

proof fn lemma_comps_irreflexive(a: Seq<Seq<char>>)
    ensures
        !comps_lt(a, a),
    decreases a.len(),
{
    if a.len() > 0 {
        lemma_comps_irreflexive(a.drop_first());
    }
}

proof fn lemma_comps_total(a: Seq<Seq<char>>, b: Seq<Seq<char>>)
    requires
        a != b,
    ensures
        comps_lt(a, b) || comps_lt(b, a),
    decreases a.len(),
{
    if a.len() > 0 && b.len() > 0 {
        if a[0] == b[0] {
            if a.drop_first() == b.drop_first() {
                assert(a =~= seq![a[0]] + a.drop_first());
                assert(b =~= seq![b[0]] + b.drop_first());
            }
            lemma_comps_total(a.drop_first(), b.drop_first());
        } else {
            lemma_lex_total(a[0], b[0]);
        }
    } else if a.len() == 0 && b.len() == 0 {
        assert(a =~= b);
    }
}

proof fn lemma_comps_transitive(a: Seq<Seq<char>>, b: Seq<Seq<char>>, c: Seq<Seq<char>>)
    requires
        comps_lt(a, b),
        comps_lt(b, c),
    ensures
        comps_lt(a, c),
    decreases a.len(),
{
    if a.len() > 0 && b.len() > 0 && c.len() > 0 {
        if a[0] == b[0] && b[0] == c[0] {
            lemma_comps_transitive(a.drop_first(), b.drop_first(), c.drop_first());
        } else if a[0] != b[0] && b[0] != c[0] {
            lemma_lex_transitive(a[0], b[0], c[0]);
            if a[0] == c[0] {
                lemma_lex_transitive(a[0], b[0], a[0]);
                lemma_lex_irreflexive(a[0]);
            }
        }
    }
}

/// Space taken: how many files, how many bytes, and the bytes per path cut
/// to the depth asked for (as its components), in the order of the paths.
#[derive(Debug, Default)]
pub struct DiskUsage {
    pub files_count: usize,
    pub files_usage: u64,
    pub items: Vec<(Vec<String>, u64)>,
}

/// The components of each path of `items` with its bytes.
pub open spec fn items_view(items: Seq<(Vec<String>, u64)>) -> Seq<(Seq<Seq<char>>, nat)> {
    items.map_values(|e: (Vec<String>, u64)| (strs(e.0@), e.1 as nat))
}

/// Paths in order, each once.
pub open spec fn items_sorted(v: Seq<(Seq<Seq<char>>, nat)>) -> bool {
    forall|a: int, b: int| 0 <= a < b < v.len() ==> comps_lt(#[trigger] v[a].0, #[trigger] v[b].0)
}

/// Each path once.
pub open spec fn distinct_keys(v: Seq<(Seq<Seq<char>>, nat)>) -> bool {
    forall|a: int, b: int| 0 <= a < b < v.len() ==> (#[trigger] v[a]).0 != (#[trigger] v[b]).0
}

/// Whether a path is recorded.
pub open spec fn has_key(v: Seq<(Seq<Seq<char>>, nat)>, key: Seq<Seq<char>>) -> bool {
    exists|i: int| 0 <= i < v.len() && (#[trigger] v[i]).0 == key
}

/// The bytes recorded for a path: zero when it has none.
pub open spec fn usage_of(v: Seq<(Seq<Seq<char>>, nat)>, key: Seq<Seq<char>>) -> nat {
    if has_key(v, key) {
        v[choose|i: int| 0 <= i < v.len() && (#[trigger] v[i]).0 == key].1
    } else {
        0
    }
}

/// The key that a file counts under: its path below the base when it is no
/// deeper than `depth`, else its first `depth` components; none for a file
/// deeper than a depth of zero.
pub open spec fn usage_key(rel: Seq<Seq<char>>, depth: nat) -> Option<Seq<Seq<char>>> {
    if rel.len() <= depth {
        Some(rel)
    } else if depth == 0 {
        None
    } else {
        Some(rel.take(depth as int))
    }
}

/// The files of a batch that the rules do not ignore.
pub open spec fn counted(rules: Option<(Seq<char>, Seq<Seq<char>>)>, files: Seq<(Seq<char>, u64)>) -> Seq<(Seq<char>, u64)>
    decreases files.len(),
{
    if files.len() == 0 {
        Seq::empty()
    } else {
        let r = counted(rules, files.drop_last());
        if rules_match(rules, files.last().0) { r } else { r.push(files.last()) }
    }
}

/// Whether all files of a sequence lie below `base`.
pub open spec fn all_below(base: Seq<char>, files: Seq<(Seq<char>, u64)>) -> bool {
    forall|i: int| 0 <= i < files.len() ==> (#[trigger] relative_parts(base, files[i].0)) is Some
}

/// The bytes of the files of a sequence.
pub open spec fn bytes_of(files: Seq<(Seq<char>, u64)>) -> nat
    decreases files.len(),
{
    if files.len() == 0 { 0 } else { bytes_of(files.drop_last()) + files.last().1 as nat }
}

/// The key of a file below `base`.
pub open spec fn file_key(base: Seq<char>, depth: nat, file: Seq<char>) -> Option<Seq<Seq<char>>> {
    match relative_parts(base, file) {
        Some(rel) => usage_key(rel, depth),
        None => None,
    }
}

/// The bytes per key of one batch of files: a file no deeper than the depth
/// sets its own path's bytes, a deeper one adds to its key's bytes.
pub open spec fn batch_usage(base: Seq<char>, depth: nat, files: Seq<(Seq<char>, u64)>, key: Seq<Seq<char>>) -> nat
    decreases files.len(),
{
    if files.len() == 0 {
        0
    } else {
        let before = batch_usage(base, depth, files.drop_last(), key);
        if file_key(base, depth, files.last().0) == Some(key) {
            if depth == 0 || relative_parts(base, files.last().0).unwrap().len() <= depth {
                files.last().1 as nat
            } else {
                before + files.last().1 as nat
            }
        } else {
            before
        }
    }
}

/// Whether some file of a batch counts under `key`.
pub open spec fn batch_has(base: Seq<char>, depth: nat, files: Seq<(Seq<char>, u64)>, key: Seq<Seq<char>>) -> bool
    decreases files.len(),
{
    if files.len() == 0 {
        false
    } else {
        batch_has(base, depth, files.drop_last(), key) || file_key(base, depth, files.last().0) == Some(key)
    }
}

/// The files of a batch, as text and sizes.
pub open spec fn files_view(files: Seq<(String, u64)>) -> Seq<(Seq<char>, u64)> {
    files.map_values(|f: (String, u64)| (f.0@, f.1))
}

proof fn lemma_usage_at(v: Seq<(Seq<Seq<char>>, nat)>, p: int)
    requires
        distinct_keys(v),
        0 <= p < v.len(),
    ensures
        has_key(v, v[p].0),
        usage_of(v, v[p].0) == v[p].1,
{
    assert(v[p].0 == v[p].0);
    assert(has_key(v, v[p].0));
    let j = choose|i: int| 0 <= i < v.len() && (#[trigger] v[i]).0 == v[p].0;
    if j < p {
        assert(v[j].0 != v[p].0);
    } else if j > p {
        assert(v[p].0 != v[j].0);
    }
}

proof fn lemma_usage_update(v: Seq<(Seq<Seq<char>>, nat)>, p: int, x: nat)
    requires
        distinct_keys(v),
        0 <= p < v.len(),
    ensures
        distinct_keys(v.update(p, (v[p].0, x))),
        forall|k: Seq<Seq<char>>| #[trigger] has_key(v.update(p, (v[p].0, x)), k) == has_key(v, k),
        forall|k: Seq<Seq<char>>| #[trigger] usage_of(v.update(p, (v[p].0, x)), k) == if k == v[p].0 { x } else { usage_of(v, k) },
{
    let w = v.update(p, (v[p].0, x));
    assert forall|a: int, b: int| 0 <= a < b < w.len() implies (#[trigger] w[a]).0 != (#[trigger] w[b]).0 by {
        assert(w[a].0 == v[a].0 && w[b].0 == v[b].0);
    }
    assert forall|k: Seq<Seq<char>>| #[trigger] has_key(w, k) == has_key(v, k) by {
        if has_key(v, k) {
            let i = choose|i: int| 0 <= i < v.len() && (#[trigger] v[i]).0 == k;
            assert(w[i].0 == k);
        }
        if has_key(w, k) {
            let i = choose|i: int| 0 <= i < w.len() && (#[trigger] w[i]).0 == k;
            assert(v[i].0 == k);
        }
    }
    assert forall|k: Seq<Seq<char>>| #[trigger] usage_of(w, k) == if k == v[p].0 { x } else { usage_of(v, k) } by {
        if has_key(v, k) {
            let i = choose|i: int| 0 <= i < v.len() && (#[trigger] v[i]).0 == k;
            lemma_usage_at(v, i);
            lemma_usage_at(w, i);
        }
    }
}

proof fn lemma_usage_insert(v: Seq<(Seq<Seq<char>>, nat)>, p: int, key: Seq<Seq<char>>, x: nat)
    requires
        distinct_keys(v),
        !has_key(v, key),
        0 <= p <= v.len(),
    ensures
        distinct_keys(v.insert(p, (key, x))),
        forall|k: Seq<Seq<char>>| #[trigger] has_key(v.insert(p, (key, x)), k) == (has_key(v, k) || k == key),
        forall|k: Seq<Seq<char>>| #[trigger] usage_of(v.insert(p, (key, x)), k) == if k == key { x } else { usage_of(v, k) },
{
    let w = v.insert(p, (key, x));
    assert forall|a: int, b: int| 0 <= a < b < w.len() implies (#[trigger] w[a]).0 != (#[trigger] w[b]).0 by {
        if b < p {
            assert(w[a] == v[a] && w[b] == v[b]);
        } else if b == p {
            assert(w[a] == v[a] && w[b].0 == key);
        } else if a < p {
            assert(w[a] == v[a] && w[b] == v[b - 1]);
        } else if a == p {
            assert(w[a].0 == key && w[b] == v[b - 1]);
        } else {
            assert(w[a] == v[a - 1] && w[b] == v[b - 1]);
        }
    }
    assert(w[p].0 == key);
    assert forall|k: Seq<Seq<char>>| #[trigger] has_key(w, k) == (has_key(v, k) || k == key) by {
        if has_key(v, k) {
            let i = choose|i: int| 0 <= i < v.len() && (#[trigger] v[i]).0 == k;
            if i < p {
                assert(w[i].0 == k);
            } else {
                assert(w[i + 1].0 == k);
            }
        }
        if has_key(w, k) {
            let i = choose|i: int| 0 <= i < w.len() && (#[trigger] w[i]).0 == k;
            if i < p {
                assert(v[i].0 == k);
            } else if i > p {
                assert(v[i - 1].0 == k);
            }
        }
    }
    assert forall|k: Seq<Seq<char>>| #[trigger] usage_of(w, k) == if k == key { x } else { usage_of(v, k) } by {
        lemma_usage_at(w, p);
        if has_key(v, k) {
            let i = choose|i: int| 0 <= i < v.len() && (#[trigger] v[i]).0 == k;
            lemma_usage_at(v, i);
            if i < p {
                assert(w[i] == v[i]);
                lemma_usage_at(w, i);
            } else {
                assert(w[i + 1] == v[i]);
                lemma_usage_at(w, i + 1);
            }
        }
    }
}

proof fn lemma_sorted_distinct(v: Seq<(Seq<Seq<char>>, nat)>)
    requires
        items_sorted(v),
    ensures
        distinct_keys(v),
{
    assert forall|a: int, b: int| 0 <= a < b < v.len() implies (#[trigger] v[a]).0 != (#[trigger] v[b]).0 by {
        assert(comps_lt(v[a].0, v[b].0));
        if v[a].0 == v[b].0 {
            lemma_comps_irreflexive(v[a].0);
        }
    }
}

proof fn lemma_batch_bounds(base: Seq<char>, depth: nat, files: Seq<(Seq<char>, u64)>, key: Seq<Seq<char>>)
    ensures
        batch_usage(base, depth, files, key) <= bytes_of(files),
        !batch_has(base, depth, files, key) ==> batch_usage(base, depth, files, key) == 0,
    decreases files.len(),
{
    if files.len() > 0 {
        lemma_batch_bounds(base, depth, files.drop_last(), key);
    }
}

proof fn lemma_counted_bytes(rules: Option<(Seq<char>, Seq<Seq<char>>)>, files: Seq<(Seq<char>, u64)>)
    ensures
        bytes_of(counted(rules, files)) <= bytes_of(files),
        counted(rules, files).len() <= files.len(),
    decreases files.len(),
{
    if files.len() > 0 {
        lemma_counted_bytes(rules, files.drop_last());
        let r = counted(rules, files.drop_last());
        assert(r.push(files.last()).drop_last() =~= r);
    }
}


proof fn lemma_bytes_take(fs: Seq<(Seq<char>, u64)>, i: int)
    requires
        0 <= i <= fs.len(),
    ensures
        bytes_of(fs.take(i)) <= bytes_of(fs),
    decreases fs.len(),
{
    if i < fs.len() {
        lemma_bytes_take(fs.drop_last(), i);
        assert(fs.drop_last().take(i) =~= fs.take(i));
    } else {
        assert(fs.take(i) =~= fs);
    }
}

proof fn lemma_counted_contains(rules: Option<(Seq<char>, Seq<Seq<char>>)>, fs: Seq<(Seq<char>, u64)>, i: int)
    requires
        0 <= i < fs.len(),
        !rules_match(rules, fs[i].0),
    ensures
        counted(rules, fs).contains(fs[i]),
    decreases fs.len(),
{
    let r = counted(rules, fs.drop_last());
    if i == fs.len() - 1 {
        assert(counted(rules, fs)[r.len() as int] == fs[i]);
    } else {
        lemma_counted_contains(rules, fs.drop_last(), i);
        let j = choose|j: int| 0 <= j < r.len() && r[j] == fs[i];
        if !rules_match(rules, fs.last().0) {
            assert(counted(rules, fs)[j] == fs[i]);
        }
    }
}

/// Whether two paths have the same components.
fn same_key(a: &Vec<String>, b: &Vec<String>) -> (r: bool)
    ensures
        r == (strs(a@) == strs(b@)),
{
    if a.len() != b.len() {
        assert(strs(a@).len() != strs(b@).len());
        return false;
    }
    let mut i: usize = 0;
    while i < a.len()
        invariant
            a@.len() == b@.len(),
            i <= a@.len(),
            forall|k: int| 0 <= k < i ==> strs(a@)[k] == strs(b@)[k],
        decreases a.len() - i,
    {
        if !eq_str(a[i].as_str(), b[i].as_str()) {
            assert(strs(a@)[i as int] != strs(b@)[i as int]);
            return false;
        }
        i += 1;
    }
    assert(strs(a@) =~= strs(b@));
    true
}

/// Whether path `a` comes before path `b`.
fn key_lt(a: &Vec<String>, b: &Vec<String>) -> (r: bool)
    ensures
        r == comps_lt(strs(a@), strs(b@)),
{
    let mut i: usize = 0;
    assert(strs(a@).skip(0) =~= strs(a@) && strs(b@).skip(0) =~= strs(b@));
    while i < a.len() && i < b.len() && eq_str(a[i].as_str(), b[i].as_str())
        invariant
            i <= a@.len(),
            i <= b@.len(),
            comps_lt(strs(a@), strs(b@)) == comps_lt(strs(a@).skip(i as int), strs(b@).skip(i as int)),
        decreases a.len() - i,
    {
        assert(strs(a@).skip(i as int).drop_first() =~= strs(a@).skip(i + 1));
        assert(strs(b@).skip(i as int).drop_first() =~= strs(b@).skip(i + 1));
        i += 1;
    }
    if i == a.len() {
        i < b.len()
    } else if i == b.len() {
        false
    } else {
        assert(strs(a@).skip(i as int)[0] == a@[i as int]@);
        assert(strs(b@).skip(i as int)[0] == b@[i as int]@);
        str_lt(a[i].as_str(), b[i].as_str())
    }
}


/// A copy of the first `n` components.
fn take_parts(v: &Vec<String>, n: usize) -> (r: Vec<String>)
    requires
        n <= v@.len(),
    ensures
        strs(r@) == strs(v@).take(n as int),
{
    let mut r: Vec<String> = Vec::new();
    let mut i: usize = 0;
    while i < n
        invariant
            n <= v@.len(),
            i <= n,
            strs(r@) == strs(v@).take(i as int),
        decreases n - i,
    {
        let ghost prev = strs(r@);
        r.push(owned(v[i].as_str()));
        assert(strs(r@) =~= prev.push(v@[i as int]@));
        assert(strs(r@) =~= strs(v@).take(i + 1));
        i += 1;
    }
    r
}

impl DiskUsage {
    /// Nothing counted yet.
    pub fn new() -> (r: DiskUsage)
        ensures
            r.files_count == 0,
            r.files_usage == 0,
            r.items@.len() == 0,
    {
        DiskUsage { files_count: 0, files_usage: 0, items: Vec::new() }
    }

    /// The paths are in order, each once.
    pub open spec fn wf(&self) -> bool {
        items_sorted(items_view(self.items@))
    }

    /// Adds `value` bytes to the path `key`, which keeps its place in the order.
    fn add_usage(&mut self, key: Vec<String>, value: u64)
        requires
            old(self).wf(),
            usage_of(items_view(old(self).items@), strs(key@)) + value <= u64::MAX,
        ensures
            final(self).wf(),
            final(self).files_count == old(self).files_count,
            final(self).files_usage == old(self).files_usage,
            forall|k: Seq<Seq<char>>| #[trigger] has_key(items_view(final(self).items@), k)
                == (has_key(items_view(old(self).items@), k) || k == strs(key@)),
            forall|k: Seq<Seq<char>>| #[trigger] usage_of(items_view(final(self).items@), k)
                == if k == strs(key@) { usage_of(items_view(old(self).items@), k) + value as nat } else { usage_of(items_view(old(self).items@), k) },
    {
        let ghost v = items_view(self.items@);
        let ghost kk = strs(key@);
        proof {
            lemma_sorted_distinct(v);
        }
        let mut p: usize = 0;
        while p < self.items.len()
            invariant
                v == items_view(self.items@),
                kk == strs(key@),
                p <= self.items@.len(),
                forall|a: int| 0 <= a < p ==> comps_lt(#[trigger] v[a].0, kk),
            ensures
                p <= self.items@.len(),
                forall|a: int| 0 <= a < p ==> comps_lt(#[trigger] v[a].0, kk),
                p < self.items@.len() ==> !comps_lt(v[p as int].0, kk),
            decreases self.items.len() - p,
        {
            assert(v[p as int].0 == strs(self.items@[p as int].0@));
            if !key_lt(&self.items[p].0, &key) {
                break;
            }
            p += 1;
        }
        assert(p < self.items@.len() ==> v[p as int].0 == strs(self.items@[p as int].0@));
        if p < self.items.len() && same_key(&self.items[p].0, &key) {
            let old_value = self.items[p].1;
            proof {
                lemma_usage_at(v, p as int);
            }
            let entry = (key, old_value + value);
            let ghost w = v.update(p as int, (v[p as int].0, (old_value + value) as nat));
            proof {
                lemma_usage_update(v, p as int, (old_value + value) as nat);
            }
            self.items.set(p, entry);
            assert(items_view(self.items@) =~= w);
            assert forall|a: int, b: int| 0 <= a < b < w.len() implies comps_lt(#[trigger] w[a].0, #[trigger] w[b].0) by {
                assert(w[a].0 == v[a].0 && w[b].0 == v[b].0);
            }
        } else {
            proof {
                if p < v.len() {
                    lemma_comps_total(v[p as int].0, kk);
                }
                assert(!has_key(v, kk)) by {
                    if has_key(v, kk) {
                        let i = choose|i: int| 0 <= i < v.len() && (#[trigger] v[i]).0 == kk;
                        if i < p {
                            lemma_comps_irreflexive(kk);
                        } else if i > p {
                            assert(comps_lt(v[p as int].0, v[i].0));
                            lemma_comps_transitive(kk, v[p as int].0, kk);
                            lemma_comps_irreflexive(kk);
                        }
                    }
                }
                lemma_usage_insert(v, p as int, kk, value as nat);
            }
            self.items.insert(p, (key, value));
            let ghost w = v.insert(p as int, (kk, value as nat));
            assert(items_view(self.items@) =~= w);
            assert forall|a: int, b: int| 0 <= a < b < w.len() implies comps_lt(#[trigger] w[a].0, #[trigger] w[b].0) by {
                if b < p {
                    assert(w[a] == v[a] && w[b] == v[b]);
                } else if b == p {
                    assert(w[a] == v[a]);
                } else if a < p {
                    assert(w[a] == v[a] && w[b] == v[b - 1]);
                    if b - 1 > p {
                    }
                } else if a == p {
                    assert(w[b] == v[b - 1]);
                    if b - 1 > p {
                        lemma_comps_transitive(kk, v[p as int].0, v[b - 1].0);
                    }
                } else {
                    assert(w[a] == v[a - 1] && w[b] == v[b - 1]);
                }
            }
        }
    }

    /// Counts a batch of files found below `base`, with their sizes: files
    /// that the rules ignore are left out; each other one adds to the count,
    /// to the bytes, and to the bytes of its key (see [`usage_key`]; within
    /// the batch a file no deeper than the depth sets its path's bytes). A
    /// counted file that does not lie below `base` fails the batch, which
    /// then counts nothing.
    pub fn handle(&mut self, base: &str, depth: usize, rules: &Ignore, files: &Vec<(String, u64)>) -> (r: Result<(), Error>)
        requires
            old(self).wf(),
            old(self).files_count + files@.len() <= usize::MAX,
            old(self).files_usage + bytes_of(files_view(files@)) <= u64::MAX,
            forall|k: Seq<Seq<char>>| usage_of(items_view(old(self).items@), k) + bytes_of(files_view(files@)) <= u64::MAX,
        ensures
            final(self).wf(),
            ({
                let c = counted(rules_source(*rules), files_view(files@));
                if all_below(base@, c) {
                    &&& r is Ok
                    &&& final(self).files_count == old(self).files_count + c.len()
                    &&& final(self).files_usage == old(self).files_usage + bytes_of(c)
                    &&& forall|k: Seq<Seq<char>>| #[trigger] usage_of(items_view(final(self).items@), k)
                        == usage_of(items_view(old(self).items@), k) + batch_usage(base@, depth as nat, c, k)
                    &&& forall|k: Seq<Seq<char>>| #[trigger] has_key(items_view(final(self).items@), k)
                        == (has_key(items_view(old(self).items@), k) || batch_has(base@, depth as nat, c, k))
                } else {
                    &&& r == Err::<(), Error>(Error::PrefixNotFound)
                    &&& *final(self) == *old(self)
                }
            }),
    {
        let ghost fs = files_view(files@);
        let ghost src = rules_source(*rules);
        let ghost old_items = items_view(self.items@);
        let ghost d = depth as nat;
        let mut batch: Vec<(Vec<String>, u64)> = Vec::new();
        let mut count: usize = 0;
        let mut bytes: u64 = 0;
        let mut i: usize = 0;
        assert(fs.take(0) =~= Seq::<(Seq<char>, u64)>::empty());
        while i < files.len()
            invariant
                fs == files_view(files@),
                src == rules_source(*rules),
                i <= files@.len(),
                self.files_count + files@.len() <= usize::MAX,
                self.files_usage + bytes_of(fs) <= u64::MAX,
                distinct_keys(items_view(batch@)),
                forall|k: Seq<Seq<char>>| #[trigger] usage_of(items_view(batch@), k) == batch_usage(base@, d, counted(src, fs.take(i as int)), k),
                forall|k: Seq<Seq<char>>| #[trigger] has_key(items_view(batch@), k) == batch_has(base@, d, counted(src, fs.take(i as int)), k),
                count == counted(src, fs.take(i as int)).len(),
                bytes == bytes_of(counted(src, fs.take(i as int))),
                all_below(base@, counted(src, fs.take(i as int))),
                d == depth as nat,
                *self == *old(self),
                self.wf(),
            decreases files.len() - i,
        {
            let ghost c0 = counted(src, fs.take(i as int));
            let ghost f = fs[i as int];
            assert(fs.take(i + 1).drop_last() =~= fs.take(i as int));
            assert(fs.take(i + 1).last() == f);
            assert(f == (files@[i as int].0@, files@[i as int].1));
            let path = files[i].0.as_str();
            let size = files[i].1;
            if !rules.matched(path, false) {
                let ghost c1 = c0.push(f);
                assert(counted(src, fs.take(i + 1)) == c1);
                proof {
                    lemma_counted_bytes(src, fs.take(i + 1));
                    lemma_bytes_take(fs, i + 1);
                    assert(c1.drop_last() =~= c0);
                    lemma_batch_bounds(base@, d, c0, Seq::empty());
                }
                let rel = match relative_parts_of(base, path) {
                    Some(rel) => rel,
                    None => {
                        proof {
                            lemma_counted_contains(src, fs, i as int);
                            let j = choose|j: int| 0 <= j < counted(src, fs).len() && counted(src, fs)[j] == f;
                            assert(relative_parts(base@, counted(src, fs)[j].0) is None);
                        }
                        return Err(Error::PrefixNotFound);
                    },
                };
                assert forall|j: int| 0 <= j < c1.len() implies (#[trigger] relative_parts(base@, c1[j].0)) is Some by {
                    if j < c0.len() {
                        assert(c1[j] == c0[j]);
                    }
                }
                let shallow = rel.len() <= depth;
                let key_parts: Option<Vec<String>> = if rel.len() <= depth {
                    Some(rel)
                } else if depth == 0 {
                    None
                } else {
                    Some(take_parts(&rel, depth))
                };
                assert(file_key(base@, d, f.0) == match key_parts { Some(k) => Some(strs(k@)), None => None::<Seq<Seq<char>>> });
                let ghost bv = items_view(batch@);
                match key_parts {
                    Some(key) => {
                        let ghost kk = strs(key@);
                        proof {
                            lemma_batch_bounds(base@, d, c0, kk);
                        }
                        let mut q: usize = 0;
                        while q < batch.len()
                            invariant
                                bv == items_view(batch@),
                                kk == strs(key@),
                                q <= batch@.len(),
                                forall|a: int| 0 <= a < q ==> (#[trigger] bv[a]).0 != kk,
                            ensures
                                q <= batch@.len(),
                                forall|a: int| 0 <= a < q ==> (#[trigger] bv[a]).0 != kk,
                                q < batch@.len() ==> bv[q as int].0 == kk,
                            decreases batch.len() - q,
                        {
                            assert(bv[q as int].0 == strs(batch@[q as int].0@));
                            if same_key(&batch[q].0, &key) {
                                break;
                            }
                            q += 1;
                        }
                        if q < batch.len() {
                            let old_value = batch[q].1;
                            proof {
                                lemma_usage_at(bv, q as int);
                            }
                            let new_value = if shallow { size } else { old_value + size };
                            proof {
                                lemma_usage_update(bv, q as int, new_value as nat);
                            }
                            batch.set(q, (key, new_value));
                            assert(items_view(batch@) =~= bv.update(q as int, (bv[q as int].0, new_value as nat)));
                        } else {
                            proof {
                                assert(!has_key(bv, kk));
                                lemma_usage_insert(bv, bv.len() as int, kk, size as nat);
                            }
                            batch.push((key, size));
                            assert(items_view(batch@) =~= bv.insert(bv.len() as int, (kk, size as nat)));
                        }
                    },
                    None => {},
                }
                count = count + 1;
                bytes = bytes + size;
            } else {
                assert(counted(src, fs.take(i + 1)) == c0);
            }
            i += 1;
        }
        assert(fs.take(files@.len() as int) =~= fs);
        let ghost c = counted(src, fs);
        proof {
            lemma_counted_bytes(src, fs);
        }
        let ghost bv = items_view(batch@);
        let mut j: usize = 0;
        assert forall|k: Seq<Seq<char>>| usage_of(bv.take(0), k) == 0 && !has_key(bv.take(0), k) by {}
        while j < batch.len()
            invariant
                bv == items_view(batch@),
                distinct_keys(bv),
                j <= batch@.len(),
                self.wf(),
                self.files_count == old(self).files_count,
                self.files_usage == old(self).files_usage,
                forall|k: Seq<Seq<char>>| #[trigger] usage_of(items_view(self.items@), k) == usage_of(old_items, k) + usage_of(bv.take(j as int), k),
                forall|k: Seq<Seq<char>>| #[trigger] has_key(items_view(self.items@), k) == (has_key(old_items, k) || has_key(bv.take(j as int), k)),
                forall|k: Seq<Seq<char>>| #[trigger] usage_of(bv, k) == batch_usage(base@, d, c, k),
                forall|k: Seq<Seq<char>>| usage_of(old_items, k) + bytes_of(fs) <= u64::MAX,
                bytes_of(c) <= bytes_of(fs),
            decreases batch.len() - j,
        {
            let ghost kk = bv[j as int].0;
            let ghost pre = bv.take(j as int);
            assert(bv.take(j + 1) =~= pre.insert(j as int, bv[j as int]));
            assert(distinct_keys(pre));
            assert(!has_key(pre, kk)) by {
                if has_key(pre, kk) {
                    let a = choose|a: int| 0 <= a < pre.len() && (#[trigger] pre[a]).0 == kk;
                    assert(bv[a].0 == kk);
                }
            }
            proof {
                lemma_usage_insert(pre, j as int, kk, bv[j as int].1);
                lemma_usage_at(bv, j as int);
                lemma_batch_bounds(base@, d, c, kk);
            }
            assert(kk == strs(batch@[j as int].0@));
            let key = take_parts(&batch[j].0, batch[j].0.len());
            assert(strs(batch@[j as int].0@).take(batch@[j as int].0@.len() as int) =~= strs(batch@[j as int].0@));
            self.add_usage(key, batch[j].1);
            j += 1;
        }
        assert(bv.take(batch@.len() as int) =~= bv);
        self.files_count = self.files_count + count;
        self.files_usage = self.files_usage + bytes;
        Ok(())
    }
}


/// The display width that `pad` measures a text with (`unicode-width`'s
/// `UnicodeWidthStr::width`).
pub uninterp spec fn display_width(s: Seq<char>) -> nat;

/// `s` padded with spaces on the left to `width` columns, as `pad` does it:
/// unchanged where it is that wide already.
pub open spec fn pad_left(s: Seq<char>, width: nat) -> Seq<char> {
    if display_width(s) >= width {
        s
    } else {
        Seq::new((width - display_width(s)) as nat, |i: int| ' ') + s
    }
}

/// `pad`'s `PadStr::pad_to_width_with_alignment` with right alignment:
/// spaces on the left up to `width` columns of display width, the text
/// unchanged where it is that wide already.
#[verifier::external_body]
fn pad_right_aligned(s: &str, width: usize) -> (r: String)
    ensures
        r@ == (if display_width(s@) >= width {
            s@
        } else {
            Seq::new((width - display_width(s@)) as nat, |i: int| ' ') + s@
        }),
{
    pad::PadStr::pad_to_width_with_alignment(s, width, pad::Alignment::Right)
}

/// How many bytes `s` takes in UTF-8.
pub open spec fn byte_len(s: Seq<char>) -> nat {
    vstd::utf8::encode_utf8(s).len()
}

/// The widest of the texts, by bytes, and `w`.
pub open spec fn widest(texts: Seq<String>, w: nat) -> nat
    decreases texts.len(),
{
    if texts.len() == 0 {
        w
    } else {
        let m = widest(texts.drop_last(), w);
        if byte_len(texts.last()@) > m { byte_len(texts.last()@) } else { m }
    }
}

impl DiskUsage {
    /// Each path with its bytes as `item_texts` renders them, then `.` with
    /// the total as `total_text` renders it, each text aligned to the right
    /// at the width of the widest of them.
    pub fn formatted(&self, total_text: &str, item_texts: &Vec<String>) -> (r: Vec<(Vec<String>, String)>)
        requires
            item_texts.len() == self.items.len(),
        ensures
            ({
                let w = widest(item_texts@, byte_len(total_text@));
                &&& r.len() == self.items.len() + 1
                &&& forall|i: int| 0 <= i < self.items.len() ==> strs((#[trigger] r@[i]).0@) == strs(self.items@[i].0@)
                    && r@[i].1@ == pad_left(item_texts@[i]@, w)
                &&& strs(r@[self.items.len() as int].0@) == seq!["."@]
                &&& r@[self.items.len() as int].1@ == pad_left(total_text@, w)
            }),
    {
        let mut width: usize = total_text.as_bytes().len();
        let mut i: usize = 0;
        proof {
            assert(item_texts@.take(0) =~= Seq::<String>::empty());
            assert(total_text.spec_bytes() == vstd::utf8::encode_utf8(total_text@));
        }
        while i < item_texts.len()
            invariant
                i <= item_texts.len(),
                width as nat == widest(item_texts@.take(i as int), byte_len(total_text@)),
            decreases item_texts.len() - i,
        {
            proof {
                assert(item_texts@.take(i + 1).drop_last() =~= item_texts@.take(i as int));
            }
            let t = item_texts[i].as_str();
            let n = t.as_bytes().len();
            proof {
                assert(t@ == item_texts@[i as int]@);
                assert(t.spec_bytes() == vstd::utf8::encode_utf8(t@));
                assert(item_texts@.take(i + 1).last() == item_texts@[i as int]);
            }
            if n > width {
                width = n;
            }
            i = i + 1;
        }
        proof {
            assert(item_texts@.take(item_texts.len() as int) =~= item_texts@);
        }
        let mut out: Vec<(Vec<String>, String)> = Vec::new();
        let mut k: usize = 0;
        while k < self.items.len()
            invariant
                k <= self.items.len(),
                item_texts.len() == self.items.len(),
                width as nat == widest(item_texts@, byte_len(total_text@)),
                out.len() == k,
                forall|i: int| 0 <= i < k ==> strs((#[trigger] out@[i]).0@) == strs(self.items@[i].0@)
                    && out@[i].1@ == pad_left(item_texts@[i]@, width as nat),
            decreases self.items.len() - k,
        {
            let path = crate::exec::clone_strings(&self.items[k].0);
            let text = pad_right_aligned(item_texts[k].as_str(), width);
            out.push((path, text));
            k = k + 1;
        }
        let dot = vec![owned(".")];
        proof {
            assert(strs(dot@) =~= seq!["."@]);
        }
        let total = pad_right_aligned(total_text, width);
        out.push((dot, total));
        out
    }
}

} // verus!
