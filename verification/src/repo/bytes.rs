//! The compact form of the repository index: each remote, owner and label
//! name is kept once, and every repository points at its names by position.
use vstd::prelude::*;

use crate::error::Error;
use crate::text::{eq_str, opt_str, opt_strs, owned, strs};

verus! {

/// A repository as the index lists it.
#[derive(Debug, Clone, PartialEq, Eq)]
pub struct Repo {
    pub remote: String,
    pub owner: String,
    pub name: String,
    /// Where the repository lives when it is outside the workspace.
    pub path: Option<String>,
    pub last_accessed: u64,
    /// The access weight, carried as the bit pattern of its floating-point value.
    pub accessed: u64,
    pub labels: Option<Vec<String>>,
}

/// A repository of the stored index: its remote, owner and labels are positions.
#[derive(Debug, Clone, PartialEq, Eq)]
pub struct RepoBytes {
    pub remote: u32,
    pub owner: u32,
    pub name: String,
    pub path: Option<String>,
    pub last_accessed: u64,
    pub accessed: u64,
    pub labels: Option<Vec<u32>>,
}

/// The stored index.
#[derive(Debug, Clone, PartialEq, Eq)]
pub struct Bytes {
    pub remotes: Vec<String>,
    pub owners: Vec<String>,
    pub repos: Vec<RepoBytes>,
    pub labels: Option<Vec<String>>,
}

/// What a repository of the index is, as plain values.
pub struct RepoRecord {
    pub remote: Seq<char>,
    pub owner: Seq<char>,
    pub name: Seq<char>,
    pub path: Option<Seq<char>>,
    pub last_accessed: u64,
    pub accessed: u64,
    pub labels: Option<Seq<Seq<char>>>,
}

impl View for Repo {
    type V = RepoRecord;

    open spec fn view(&self) -> RepoRecord {
        RepoRecord {
            remote: self.remote@,
            owner: self.owner@,
            name: self.name@,
            path: opt_str(self.path),
            last_accessed: self.last_accessed,
            accessed: self.accessed,
            labels: opt_strs(self.labels),
        }
    }
}

/// The views of a list of repositories.
pub open spec fn records(rs: Seq<Repo>) -> Seq<RepoRecord> {
    rs.map_values(|r: Repo| r@)
}

/// The names of `s`, each once, in the order in which they first occur.
pub open spec fn dedup(s: Seq<Seq<char>>) -> Seq<Seq<char>>
    decreases s.len(),
{
    if s.len() == 0 {
        Seq::empty()
    } else {
        let d = dedup(s.drop_last());
        if d.contains(s.last()) {
            d
        } else {
            d.push(s.last())
        }
    }
}

/// The labels at positions `idx` of `all`, in that order, each once; positions
/// past the end of `all` are passed over.
pub open spec fn decode_labels(all: Seq<Seq<char>>, idx: Seq<u32>) -> Seq<Seq<char>>
    decreases idx.len(),
{
    if idx.len() == 0 {
        Seq::empty()
    } else {
        let d = decode_labels(all, idx.drop_last());
        let k = idx.last() as int;
        if k < all.len() && !d.contains(all[k]) {
            d.push(all[k])
        } else {
            d
        }
    }
}

/// The repository that an entry of `b` stands for: none where its remote or
/// owner position is past the end of the names. Its labels are none where the
/// index holds no label names.
pub open spec fn decode_item(b: Bytes, item: RepoBytes) -> Option<RepoRecord> {
    if item.remote < b.remotes.len() && item.owner < b.owners.len() {
        Some(RepoRecord {
            remote: b.remotes@[item.remote as int]@,
            owner: b.owners@[item.owner as int]@,
            name: item.name@,
            path: opt_str(item.path),
            last_accessed: item.last_accessed,
            accessed: item.accessed,
            labels: match (item.labels, b.labels) {
                (Some(idx), Some(all)) => Some(decode_labels(strs(all@), idx@)),
                _ => None,
            },
        })
    } else {
        None
    }
}

/// The repositories that the entries `items` of `b` stand for, in order.
pub open spec fn decode_items(b: Bytes, items: Seq<RepoBytes>) -> Seq<RepoRecord>
    decreases items.len(),
{
    if items.len() == 0 {
        Seq::empty()
    } else {
        let d = decode_items(b, items.drop_last());
        match decode_item(b, items.last()) {
            Some(r) => d.push(r),
            None => d,
        }
    }
}

/// The remote of each repository, in order.
pub open spec fn remote_names(rs: Seq<Repo>) -> Seq<Seq<char>> {
    rs.map_values(|r: Repo| r.remote@)
}

/// The owner of each repository, in order.
pub open spec fn owner_names(rs: Seq<Repo>) -> Seq<Seq<char>> {
    rs.map_values(|r: Repo| r.owner@)
}

pub open spec fn repo_labels(r: Repo) -> Seq<Seq<char>> {
    match r.labels {
        Some(v) => strs(v@),
        None => Seq::empty(),
    }
}

/// The labels of all repositories, one repository after the other.
pub open spec fn label_stream(rs: Seq<Repo>) -> Seq<Seq<char>>
    decreases rs.len(),
{
    if rs.len() == 0 {
        Seq::empty()
    } else {
        label_stream(rs.drop_last()) + repo_labels(rs.last())
    }
}

/// `item` stands for `r` where the index names are `remotes`, `owners` and `all`.
pub open spec fn encodes(
    item: RepoBytes,
    r: Repo,
    remotes: Seq<Seq<char>>,
    owners: Seq<Seq<char>>,
    all: Seq<Seq<char>>,
) -> bool {
    &&& item.remote < remotes.len() && remotes[item.remote as int] == r.remote@
    &&& item.owner < owners.len() && owners[item.owner as int] == r.owner@
    &&& item.name@ == r.name@
    &&& opt_str(item.path) == opt_str(r.path)
    &&& item.last_accessed == r.last_accessed
    &&& item.accessed == r.accessed
    &&& match (item.labels, r.labels) {
        (Some(idx), Some(ls)) => idx.len() == ls.len() && forall|j: int|
            0 <= j < idx.len() ==> (#[trigger] idx@[j]) < all.len() && all[idx@[j] as int]
                == ls@[j]@,
        (None, None) => true,
        _ => false,
    }
}

/// `b` is the stored form of `repos`: the remote, owner and label names each
/// once in the order in which they first occur, no label list where there is
/// no label, and one entry for each repository, in order.
pub open spec fn encoded(repos: Seq<Repo>, b: Bytes) -> bool {
    let all = dedup(label_stream(repos));
    &&& strs(b.remotes@) == dedup(remote_names(repos))
    &&& strs(b.owners@) == dedup(owner_names(repos))
    &&& (if all.len() == 0 {
        b.labels is None
    } else {
        b.labels matches Some(v) && strs(v@) == all
    })
    &&& b.repos.len() == repos.len()
    &&& forall|i: int|
        0 <= i < repos.len() ==> encodes(
            #[trigger] b.repos@[i],
            repos[i],
            strs(b.remotes@),
            strs(b.owners@),
            all,
        )
}

pub proof fn lemma_dedup_push(s: Seq<Seq<char>>, x: Seq<char>)
    ensures
        dedup(s.push(x)) == (if dedup(s).contains(x) {
            dedup(s)
        } else {
            dedup(s).push(x)
        }),
{
    assert(s.push(x).drop_last() =~= s);
}

pub proof fn lemma_dedup_prefix(a: Seq<Seq<char>>, b: Seq<Seq<char>>)
    requires
        a.is_prefix_of(b),
    ensures
        dedup(a).len() <= dedup(b).len(),
    decreases b.len() - a.len(),
{
    if a.len() < b.len() {
        let a2 = a.push(b[a.len() as int]);
        assert(a2 =~= b.subrange(0, a2.len() as int));
        lemma_dedup_prefix(a2, b);
        lemma_dedup_push(a, b[a.len() as int]);
    } else {
        assert(a =~= b);
    }
}

proof fn lemma_stream_step(rs: Seq<Repo>, i: int)
    requires
        0 <= i < rs.len(),
    ensures
        label_stream(rs.take(i + 1)) == label_stream(rs.take(i)) + repo_labels(rs[i]),
{
    assert(rs.take(i + 1).drop_last() =~= rs.take(i));
}

proof fn lemma_stream_prefix(rs: Seq<Repo>, i: int)
    requires
        0 <= i <= rs.len(),
    ensures
        label_stream(rs.take(i)).is_prefix_of(label_stream(rs)),
    decreases rs.len(),
{
    if i == rs.len() {
        assert(rs.take(i) =~= rs);
        assert(label_stream(rs) =~= label_stream(rs).subrange(0, label_stream(rs).len() as int));
    } else {
        let d = rs.drop_last();
        assert(rs.take(i) =~= d.take(i));
        lemma_stream_prefix(d, i);
        let a = label_stream(rs.take(i));
        let b = label_stream(d);
        let c = label_stream(rs);
        assert(c == b + repo_labels(rs.last()));
        assert(a =~= c.subrange(0, a.len() as int));
    }
}

proof fn lemma_names_take(rs: Seq<Repo>, i: int)
    requires
        0 <= i <= rs.len(),
    ensures
        remote_names(rs.take(i)) == remote_names(rs).take(i),
        owner_names(rs.take(i)) == owner_names(rs).take(i),
        remote_names(rs.take(i)).is_prefix_of(remote_names(rs)),
        owner_names(rs.take(i)).is_prefix_of(owner_names(rs)),
{
    assert(remote_names(rs.take(i)) =~= remote_names(rs).take(i));
    assert(owner_names(rs.take(i)) =~= owner_names(rs).take(i));
}

proof fn lemma_encodes_grow(
    item: RepoBytes,
    r: Repo,
    remotes: Seq<Seq<char>>,
    owners: Seq<Seq<char>>,
    all: Seq<Seq<char>>,
    remotes2: Seq<Seq<char>>,
    owners2: Seq<Seq<char>>,
    all2: Seq<Seq<char>>,
)
    requires
        encodes(item, r, remotes, owners, all),
        remotes.is_prefix_of(remotes2),
        owners.is_prefix_of(owners2),
        all.is_prefix_of(all2),
    ensures
        encodes(item, r, remotes2, owners2, all2),
{
    assert(remotes2[item.remote as int] == remotes[item.remote as int]);
    assert(owners2[item.owner as int] == owners[item.owner as int]);
    match (item.labels, r.labels) {
        (Some(idx), Some(ls)) => {
            assert forall|j: int| 0 <= j < idx.len() implies (#[trigger] idx@[j]) < all2.len()
                && all2[idx@[j] as int] == ls@[j]@ by {
                assert(all2[idx@[j] as int] == all[idx@[j] as int]);
            }
        },
        _ => {},
    }
}

proof fn lemma_dedup_nonempty(s: Seq<Seq<char>>)
    requires
        s.len() > 0,
    ensures
        dedup(s).len() > 0,
{
    let d = dedup(s.drop_last());
    if d.contains(s.last()) {
        assert(d.len() > 0);
    }
}

proof fn lemma_decode_labels_exact(all: Seq<Seq<char>>, idx: Seq<u32>, ls: Seq<Seq<char>>)
    requires
        idx.len() == ls.len(),
        forall|j: int| 0 <= j < idx.len() ==> (#[trigger] idx[j]) < all.len() && all[idx[j] as int] == ls[j],
        ls.no_duplicates(),
    ensures
        decode_labels(all, idx) == ls,
    decreases idx.len(),
{
    if idx.len() > 0 {
        let n = idx.len() - 1;
        assert forall|j: int| 0 <= j < idx.drop_last().len() implies (#[trigger] idx.drop_last()[j])
            < all.len() && all[idx.drop_last()[j] as int] == ls.drop_last()[j] by {
            assert(idx.drop_last()[j] == idx[j]);
        }
        lemma_decode_labels_exact(all, idx.drop_last(), ls.drop_last());
        assert(idx[n] < all.len());
        if ls.drop_last().contains(ls[n]) {
            let m = choose|m: int| 0 <= m < ls.drop_last().len() && ls.drop_last()[m] == ls[n];
            assert(ls[m] == ls[n]);
        }
        assert(ls.drop_last().push(ls[n]) =~= ls);
    } else {
        assert(ls =~= Seq::<Seq<char>>::empty());
    }
}

proof fn lemma_decode_item(b: Bytes, item: RepoBytes, r: Repo, all: Seq<Seq<char>>)
    requires
        encodes(item, r, strs(b.remotes@), strs(b.owners@), all),
        r.labels is Some ==> (b.labels matches Some(v) && strs(v@) == all),
        repo_labels(r).no_duplicates(),
    ensures
        decode_item(b, item) == Some(r@),
{
    assert(strs(b.remotes@)[item.remote as int] == b.remotes@[item.remote as int]@);
    assert(strs(b.owners@)[item.owner as int] == b.owners@[item.owner as int]@);
    match (item.labels, r.labels) {
        (Some(idx), Some(ls)) => {
            assert forall|j: int| 0 <= j < idx@.len() implies (#[trigger] idx@[j]) < all.len()
                && all[idx@[j] as int] == strs(ls@)[j] by {
                assert(strs(ls@)[j] == ls@[j]@);
            }
            lemma_decode_labels_exact(all, idx@, strs(ls@));
        },
        _ => {},
    }
}

proof fn lemma_decode_prefix(repos: Seq<Repo>, b: Bytes, k: int)
    requires
        0 <= k <= repos.len(),
        encoded(repos, b),
        forall|i: int| 0 <= i < repos.len() ==> (#[trigger] repo_labels(repos[i])).no_duplicates(),
        label_stream(repos).len() > 0 ==> dedup(label_stream(repos)).len() > 0,
        label_stream(repos).len() == 0 ==> forall|i: int|
            0 <= i < repos.len() ==> (#[trigger] repos[i].labels) is None,
    ensures
        decode_items(b, b.repos@.take(k)) == records(repos.take(k)),
    decreases k,
{
    if k > 0 {
        lemma_decode_prefix(repos, b, k - 1);
        let all = dedup(label_stream(repos));
        let items = b.repos@;
        assert(encodes(items[k - 1], repos[k - 1], strs(b.remotes@), strs(b.owners@), all));
        assert(repo_labels(repos[k - 1]).no_duplicates());
        if repos[k - 1].labels is Some {
            assert(label_stream(repos).len() > 0);
        }
        lemma_decode_item(b, items[k - 1], repos[k - 1], all);
        assert(items.take(k).drop_last() =~= items.take(k - 1));
        assert(records(repos.take(k)) =~= records(repos.take(k - 1)).push(repos[k - 1]@));
    } else {
        assert(records(repos.take(0)) =~= Seq::<RepoRecord>::empty());
    }
}

/// Reading back the stored form of a list of repositories gives the list again,
/// where no repository lists a label twice and, if some repository has a label
/// list, some label is listed.
pub proof fn law_index_round_trip(repos: Seq<Repo>, b: Bytes)
    requires
        encoded(repos, b),
        forall|i: int| 0 <= i < repos.len() ==> (#[trigger] repo_labels(repos[i])).no_duplicates(),
        label_stream(repos).len() == 0 ==> forall|i: int|
            0 <= i < repos.len() ==> (#[trigger] repos[i].labels) is None,
    ensures
        decode_items(b, b.repos@) == records(repos),
{
    if label_stream(repos).len() > 0 {
        lemma_dedup_nonempty(label_stream(repos));
    }
    lemma_decode_prefix(repos, b, repos.len() as int);
    assert(b.repos@.take(repos.len() as int) =~= b.repos@);
    assert(repos.take(repos.len() as int) =~= repos);
}

/// The layout version that stored index data starts with.
pub const INDEX_VERSION: u32 = 1;

/// The little-endian number in the first four bytes of `b`.
pub open spec fn le_u32(b: Seq<u8>) -> int {
    b[0] + 256 * b[1] + 65536 * b[2] + 16777216 * b[3]
}

/// Stored index data: the version, then the body.
pub open spec fn framed(body: Seq<u8>) -> Seq<u8> {
    seq![INDEX_VERSION as u8, 0u8, 0u8, 0u8] + body
}

/// The body of stored index data, or why there is none.
pub open spec fn unframed(data: Seq<u8>) -> Result<Seq<u8>, Error> {
    if data.len() < 4 {
        Err(Error::CorruptedIndex)
    } else if le_u32(data) != INDEX_VERSION {
        Err(Error::UnsupportedIndexVersion(le_u32(data) as u32))
    } else {
        Ok(data.skip(4))
    }
}

/// Stored index data of this version gives back the body it was made from.
pub proof fn law_frame_round_trip(body: Seq<u8>)
    ensures
        unframed(framed(body)) == Ok::<Seq<u8>, Error>(body),
{
    assert(framed(body).skip(4) =~= body);
}

/// Stored index data with the body `body`.
pub fn frame(body: &Vec<u8>) -> (r: Vec<u8>)
    ensures
        r@ == framed(body@),
{
    let mut r: Vec<u8> = vec![INDEX_VERSION as u8, 0u8, 0u8, 0u8];
    let mut i: usize = 0;
    while i < body.len()
        invariant
            i <= body.len(),
            r@ == seq![INDEX_VERSION as u8, 0u8, 0u8, 0u8] + body@.take(i as int),
        decreases body.len() - i,
    {
        r.push(body[i]);
        i = i + 1;
        proof {
            assert(seq![INDEX_VERSION as u8, 0u8, 0u8, 0u8] + body@.take(i as int) =~= (seq![
                INDEX_VERSION as u8,
                0u8,
                0u8,
                0u8,
            ] + body@.take(i - 1)).push(body@[i - 1]));
        }
    }
    proof {
        assert(body@.take(body.len() as int) =~= body@);
    }
    r
}

/// The body of stored index data: an error where the data is too short to
/// hold a version or holds another version.
pub fn unframe(data: &Vec<u8>) -> (r: Result<Vec<u8>, Error>)
    ensures
        match (r, unframed(data@)) {
            (Ok(b), Ok(s)) => b@ == s,
            (Err(e), Err(f)) => e == f,
            _ => false,
        },
{
    if data.len() < 4 {
        return Err(Error::CorruptedIndex);
    }
    let version: u32 = data[0] as u32 + 256 * (data[1] as u32) + 65536 * (data[2] as u32) + 16777216 * (
    data[3] as u32);
    if version != INDEX_VERSION {
        return Err(Error::UnsupportedIndexVersion(version));
    }
    let mut body: Vec<u8> = Vec::new();
    let mut i: usize = 4;
    while i < data.len()
        invariant
            4 <= i <= data.len(),
            body@ == data@.subrange(4, i as int),
        decreases data.len() - i,
    {
        body.push(data[i]);
        i = i + 1;
        proof {
            assert(data@.subrange(4, i as int) =~= data@.subrange(4, i - 1).push(data@[i - 1]));
        }
    }
    proof {
        assert(data@.subrange(4, data.len() as int) =~= data@.skip(4));
    }
    Ok(body)
}

/// Where `s` stands in `v`.
fn position_of(v: &Vec<String>, s: &str) -> (r: Option<usize>)
    ensures
        match r {
            Some(k) => k < v.len() && v@[k as int]@ == s@,
            None => !strs(v@).contains(s@),
        },
{
    let mut i: usize = 0;
    while i < v.len()
        invariant
            i <= v.len(),
            forall|j: int| 0 <= j < i ==> v@[j]@ != s@,
        decreases v.len() - i,
    {
        if eq_str(v[i].as_str(), s) {
            return Some(i);
        }
        i = i + 1;
    }
    proof {
        assert forall|j: int| 0 <= j < strs(v@).len() implies strs(v@)[j] != s@ by {
            assert(strs(v@)[j] == v@[j]@);
        }
    }
    None
}

fn clone_path(p: &Option<String>) -> (r: Option<String>)
    ensures
        opt_str(r) == opt_str(*p),
{
    match p {
        Some(s) => Some(owned(s.as_str())),
        None => None,
    }
}

/// The labels at positions `idx` of `all`, each once.
fn labels_at(all: &Vec<String>, idx: &Vec<u32>) -> (r: Vec<String>)
    ensures
        strs(r@) == decode_labels(strs(all@), idx@),
{
    let mut r: Vec<String> = Vec::new();
    let mut i: usize = 0;
    while i < idx.len()
        invariant
            i <= idx.len(),
            strs(r@) == decode_labels(strs(all@), idx@.take(i as int)),
        decreases idx.len() - i,
    {
        proof {
            assert(idx@.take(i + 1).drop_last() =~= idx@.take(i as int));
        }
        let k = idx[i] as usize;
        if k < all.len() {
            let label = all[k].as_str();
            proof {
                assert(strs(all@)[k as int] == all@[k as int]@);
            }
            match position_of(&r, label) {
                None => {
                    let x = owned(label);
                    proof {
                        crate::text::lemma_strs_push(r@, x);
                    }
                    r.push(x);
                },
                Some(p) => {
                    assert(strs(r@)[p as int] == r@[p as int]@);
                },
            }
        }
        i = i + 1;
    }
    proof {
        assert(idx@.take(idx.len() as int) =~= idx@);
    }
    r
}

/// The position of `s` in `names`, which gets `s` at its end where it is not there yet.
fn intern(names: &mut Vec<String>, s: &str) -> (k: u32)
    requires
        old(names).len() <= 0x1_0000_0000,
        !strs(old(names)@).contains(s@) ==> old(names).len() <= u32::MAX,
    ensures
        strs(final(names)@) == (if strs(old(names)@).contains(s@) {
            strs(old(names)@)
        } else {
            strs(old(names)@).push(s@)
        }),
        strs(old(names)@).is_prefix_of(strs(final(names)@)),
        k < final(names).len(),
        strs(final(names)@)[k as int] == s@,
{
    match position_of(names, s) {
        Some(k) => {
            proof {
                assert(strs(names@)[k as int] == names@[k as int]@);
                assert(strs(names@) =~= strs(names@).subrange(0, strs(names@).len() as int));
            }
            k as u32
        },
        None => {
            let k = names.len() as u32;
            let x = owned(s);
            proof {
                crate::text::lemma_strs_push(names@, x);
            }
            names.push(x);
            proof {
                assert(strs(old(names)@) =~= strs(names@).subrange(0, strs(old(names)@).len() as int));
            }
            k
        },
    }
}

/// The positions of the labels `ls` in `all`, which gets each label it lacks.
fn intern_labels(
    all: &mut Vec<String>,
    ls: &Vec<String>,
    Ghost(before): Ghost<Seq<Seq<char>>>,
    Ghost(whole): Ghost<Seq<Seq<char>>>,
) -> (idx: Vec<u32>)
    requires
        strs(old(all)@) == dedup(before),
        (before + strs(ls@)).is_prefix_of(whole),
        dedup(whole).len() <= 0x1_0000_0000,
    ensures
        strs(final(all)@) == dedup(before + strs(ls@)),
        strs(old(all)@).is_prefix_of(strs(final(all)@)),
        idx.len() == ls.len(),
        forall|j: int|
            0 <= j < idx.len() ==> (#[trigger] idx@[j]) < final(all).len() && strs(final(all)@)[idx@[j] as int]
                == ls@[j]@,
{
    let ghost start = strs(all@);
    let mut idx: Vec<u32> = Vec::new();
    let mut j: usize = 0;
    proof {
        assert(before + strs(ls@).take(0) =~= before);
        assert(start =~= start.subrange(0, start.len() as int));
    }
    while j < ls.len()
        invariant
            j <= ls.len(),
            strs(all@) == dedup(before + strs(ls@).take(j as int)),
            start.is_prefix_of(strs(all@)),
            (before + strs(ls@)).is_prefix_of(whole),
            dedup(whole).len() <= 0x1_0000_0000,
            idx.len() == j,
            forall|m: int|
                0 <= m < j ==> (#[trigger] idx@[m]) < all.len() && strs(all@)[idx@[m] as int]
                    == ls@[m]@,
        decreases ls.len() - j,
    {
        let ghost old_all = strs(all@);
        let label = ls[j].as_str();
        proof {
            let p = before + strs(ls@).take(j as int);
            let p2 = before + strs(ls@).take(j + 1);
            assert(strs(ls@)[j as int] == ls@[j as int]@);
            assert(p2 =~= p.push(ls@[j as int]@));
            lemma_dedup_push(p, ls@[j as int]@);
            assert(p2 =~= whole.subrange(0, p2.len() as int));
            lemma_dedup_prefix(p2, whole);
        }
        let k = intern(all, label);
        proof {
            assert forall|m: int| 0 <= m < j implies (#[trigger] idx@[m]) < all.len()
                && strs(all@)[idx@[m] as int] == ls@[m]@ by {
                assert(strs(all@)[idx@[m] as int] == old_all[idx@[m] as int]);
            }
            assert(start =~= strs(all@).subrange(0, start.len() as int));
        }
        idx.push(k);
        j = j + 1;
    }
    proof {
        assert(strs(ls@).take(ls.len() as int) =~= strs(ls@));
    }
    idx
}

fn clone_labels(l: &Option<Vec<String>>) -> (r: Option<Vec<String>>)
    ensures
        opt_strs(r) == opt_strs(*l),
{
    match l {
        Some(v) => {
            let mut out: Vec<String> = Vec::new();
            let mut i: usize = 0;
            while i < v.len()
                invariant
                    i <= v.len(),
                    strs(out@) == strs(v@).take(i as int),
                decreases v.len() - i,
            {
                let x = owned(v[i].as_str());
                proof {
                    crate::text::lemma_strs_push(out@, x);
                    assert(strs(v@).take(i + 1) =~= strs(v@).take(i as int).push(x@));
                }
                out.push(x);
                i = i + 1;
            }
            proof {
                assert(strs(v@).take(v.len() as int) =~= strs(v@));
            }
            Some(out)
        },
        None => None,
    }
}

impl Bytes {
    /// The index with no repository.
    pub fn empty() -> (b: Bytes)
        ensures
            b.remotes.len() == 0,
            b.owners.len() == 0,
            b.repos.len() == 0,
            b.labels is None,
    {
        Bytes { remotes: Vec::new(), owners: Vec::new(), repos: Vec::new(), labels: None }
    }

    /// The stored form of `repos`.
    pub fn from_repos(repos: &Vec<Repo>) -> (b: Bytes)
        requires
            dedup(remote_names(repos@)).len() <= 0x1_0000_0000,
            dedup(owner_names(repos@)).len() <= 0x1_0000_0000,
            dedup(label_stream(repos@)).len() <= 0x1_0000_0000,
        ensures
            encoded(repos@, b),
    {
        let mut remotes: Vec<String> = Vec::new();
        let mut owners: Vec<String> = Vec::new();
        let mut all: Vec<String> = Vec::new();
        let mut items: Vec<RepoBytes> = Vec::new();
        let mut i: usize = 0;
        proof {
            assert(remote_names(repos@.take(0)) =~= Seq::<Seq<char>>::empty());
            assert(owner_names(repos@.take(0)) =~= Seq::<Seq<char>>::empty());
            assert(label_stream(repos@.take(0)) =~= Seq::<Seq<char>>::empty());
            assert(strs(remotes@) =~= Seq::<Seq<char>>::empty());
            assert(strs(owners@) =~= Seq::<Seq<char>>::empty());
            assert(strs(all@) =~= Seq::<Seq<char>>::empty());
        }
        while i < repos.len()
            invariant
                i <= repos.len(),
                dedup(remote_names(repos@)).len() <= 0x1_0000_0000,
                dedup(owner_names(repos@)).len() <= 0x1_0000_0000,
                dedup(label_stream(repos@)).len() <= 0x1_0000_0000,
                strs(remotes@) == dedup(remote_names(repos@.take(i as int))),
                strs(owners@) == dedup(owner_names(repos@.take(i as int))),
                strs(all@) == dedup(label_stream(repos@.take(i as int))),
                items.len() == i,
                forall|j: int|
                    0 <= j < i ==> encodes(
                        #[trigger] items@[j],
                        repos@[j],
                        strs(remotes@),
                        strs(owners@),
                        strs(all@),
                    ),
            decreases repos.len() - i,
        {
            let r = &repos[i];
            let ghost r0 = strs(remotes@);
            let ghost o0 = strs(owners@);
            let ghost a0 = strs(all@);
            proof {
                let rs = repos@;
                lemma_names_take(rs, i as int);
                lemma_names_take(rs, i + 1);
                assert(remote_names(rs.take(i + 1)) =~= remote_names(rs.take(i as int)).push(r.remote@));
                assert(owner_names(rs.take(i + 1)) =~= owner_names(rs.take(i as int)).push(r.owner@));
                lemma_dedup_push(remote_names(rs.take(i as int)), r.remote@);
                lemma_dedup_push(owner_names(rs.take(i as int)), r.owner@);
                lemma_dedup_prefix(remote_names(rs.take(i + 1)), remote_names(rs));
                lemma_dedup_prefix(owner_names(rs.take(i + 1)), owner_names(rs));
                lemma_stream_step(rs, i as int);
                lemma_stream_prefix(rs, i + 1);
                lemma_dedup_prefix(label_stream(rs.take(i as int)), label_stream(rs.take(i + 1)));
                assert(label_stream(rs.take(i as int)) =~= label_stream(rs.take(i + 1)).subrange(
                    0,
                    label_stream(rs.take(i as int)).len() as int,
                ));
            }
            let ri = intern(&mut remotes, r.remote.as_str());
            let oi = intern(&mut owners, r.owner.as_str());
            let labels = match &r.labels {
                Some(ls) => Some(
                    intern_labels(
                        &mut all,
                        ls,
                        Ghost(label_stream(repos@.take(i as int))),
                        Ghost(label_stream(repos@)),
                    ),
                ),
                None => None,
            };
            proof {
                if r.labels is None {
                    assert(label_stream(repos@.take(i + 1)) =~= label_stream(repos@.take(i as int)));
                    assert(a0 =~= a0.subrange(0, a0.len() as int));
                }
            }
            let item = RepoBytes {
                remote: ri,
                owner: oi,
                name: owned(r.name.as_str()),
                path: clone_path(&r.path),
                last_accessed: r.last_accessed,
                accessed: r.accessed,
                labels,
            };
            proof {
                assert forall|j: int| 0 <= j < i implies encodes(
                    #[trigger] items@[j],
                    repos@[j],
                    strs(remotes@),
                    strs(owners@),
                    strs(all@),
                ) by {
                    lemma_encodes_grow(
                        items@[j],
                        repos@[j],
                        r0,
                        o0,
                        a0,
                        strs(remotes@),
                        strs(owners@),
                        strs(all@),
                    );
                }
            }
            items.push(item);
            i = i + 1;
        }
        proof {
            assert(repos@.take(repos.len() as int) =~= repos@);
        }
        let labels = if all.len() == 0 {
            None
        } else {
            Some(all)
        };
        Bytes { remotes, owners, repos: items, labels }
    }

    /// The repositories that the index lists, in the order of its entries.
    /// An entry whose remote or owner position is past the end of the names
    /// is passed over.
    pub fn into_repos(&self) -> (r: Vec<Repo>)
        ensures
            records(r@) == decode_items(*self, self.repos@),
    {
        let mut r: Vec<Repo> = Vec::new();
        let mut i: usize = 0;
        while i < self.repos.len()
            invariant
                i <= self.repos.len(),
                records(r@) == decode_items(*self, self.repos@.take(i as int)),
            decreases self.repos.len() - i,
        {
            proof {
                assert(self.repos@.take(i + 1).drop_last() =~= self.repos@.take(i as int));
            }
            let item = &self.repos[i];
            let ri = item.remote as usize;
            let oi = item.owner as usize;
            if ri < self.remotes.len() && oi < self.owners.len() {
                let labels = match (&item.labels, &self.labels) {
                    (Some(idx), Some(all)) => Some(labels_at(all, idx)),
                    _ => None,
                };
                let repo = Repo {
                    remote: owned(self.remotes[ri].as_str()),
                    owner: owned(self.owners[oi].as_str()),
                    name: owned(item.name.as_str()),
                    path: clone_path(&item.path),
                    last_accessed: item.last_accessed,
                    accessed: item.accessed,
                    labels,
                };
                proof {
                    assert(records(r@.push(repo)) =~= records(r@).push(repo@));
                }
                r.push(repo);
            }
            i = i + 1;
        }
        proof {
            assert(self.repos@.take(self.repos.len() as int) =~= self.repos@);
        }
        r
    }
}

} // verus!
