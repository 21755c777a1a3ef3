//! Keywords typed to find repositories, remembered per remote so that they
//! can be offered again.
use vstd::prelude::*;

use crate::text::eq_str;

verus! {

/// How often a keyword must have been used before it is offered.
pub const COMPLETE_ACCESSED: u64 = 3;

/// One keyword of one remote: when it was last used and how often.
#[derive(Debug, Clone, Default, PartialEq, Eq)]
pub struct KeywordRecord {
    pub remote: String,
    pub keyword: String,
    pub last_accessed: u64,
    pub accessed: u64,
}

impl KeywordRecord {
    /// A copy with the same fields.
    pub fn duplicate(&self) -> (r: KeywordRecord)
        ensures
            r == *self,
    {
        KeywordRecord {
            remote: self.remote.clone(),
            keyword: self.keyword.clone(),
            last_accessed: self.last_accessed,
            accessed: self.accessed,
        }
    }
}

/// The remembered keywords.
pub struct Keywords {
    data: Vec<KeywordRecord>,
    disable: bool,
    now: u64,
}

/// The key of a record: its remote and its keyword.
pub open spec fn record_key(r: KeywordRecord) -> (Seq<char>, Seq<char>) {
    (r.remote@, r.keyword@)
}

/// No two records share remote and keyword.
pub open spec fn keys_unique(s: Seq<KeywordRecord>) -> bool {
    forall|i: int, j: int| 0 <= i < j < s.len() ==> record_key(s[i]) != record_key(s[j])
}

/// The records as a map from remote and keyword to last use and use count.
pub open spec fn records_map(s: Seq<KeywordRecord>) -> Map<(Seq<char>, Seq<char>), (u64, u64)>
    decreases s.len(),
{
    if s.len() == 0 {
        Map::empty()
    } else {
        records_map(s.drop_last()).insert(record_key(s.last()), (s.last().last_accessed, s.last().accessed))
    }
}

proof fn lemma_records_map(s: Seq<KeywordRecord>)
    requires
        keys_unique(s),
    ensures
        forall|k: (Seq<char>, Seq<char>)| records_map(s).contains_key(k) <==> exists|i: int| 0 <= i < s.len() && record_key(#[trigger] s[i]) == k,
        forall|i: int| 0 <= i < s.len() ==> records_map(s)[record_key(#[trigger] s[i])] == (s[i].last_accessed, s[i].accessed),
    decreases s.len(),
{
    if s.len() > 0 {
        let t = s.drop_last();
        assert(keys_unique(t));
        lemma_records_map(t);
        assert forall|k: (Seq<char>, Seq<char>)| records_map(s).contains_key(k) implies exists|i: int| 0 <= i < s.len() && record_key(#[trigger] s[i]) == k by {
            if k != record_key(s.last()) {
                assert(records_map(t).contains_key(k));
                let i = choose|i: int| 0 <= i < t.len() && record_key(#[trigger] t[i]) == k;
                assert(s[i] == t[i]);
            } else {
                assert(record_key(s[s.len() - 1]) == k);
            }
        }
        assert forall|k: (Seq<char>, Seq<char>)| (exists|i: int| 0 <= i < s.len() && record_key(#[trigger] s[i]) == k) implies records_map(s).contains_key(k) by {
            let i = choose|i: int| 0 <= i < s.len() && record_key(#[trigger] s[i]) == k;
            if i < t.len() {
                assert(t[i] == s[i]);
            }
        }
        assert forall|i: int| 0 <= i < s.len() implies records_map(s)[record_key(#[trigger] s[i])] == (s[i].last_accessed, s[i].accessed) by {
            if i < t.len() {
                assert(t[i] == s[i]);
                assert(record_key(s[i]) != record_key(s[s.len() - 1]));
            }
        }
    }
}

proof fn lemma_records_map_update(s: Seq<KeywordRecord>, p: int, x: KeywordRecord)
    requires
        keys_unique(s),
        0 <= p < s.len(),
        record_key(x) == record_key(s[p]),
    ensures
        keys_unique(s.update(p, x)),
        records_map(s.update(p, x)) == records_map(s).insert(record_key(x), (x.last_accessed, x.accessed)),
{
    let u = s.update(p, x);
    assert(keys_unique(u)) by {
        assert forall|i: int, j: int| 0 <= i < j < u.len() implies record_key(u[i]) != record_key(u[j]) by {
            assert(record_key(u[i]) == record_key(s[i]));
            assert(record_key(u[j]) == record_key(s[j]));
        }
    }
    lemma_records_map(s);
    lemma_records_map(u);
    let m = records_map(s).insert(record_key(x), (x.last_accessed, x.accessed));
    assert forall|k: (Seq<char>, Seq<char>)| records_map(u).contains_key(k) <==> m.contains_key(k) by {
        if records_map(u).contains_key(k) {
            let i = choose|i: int| 0 <= i < u.len() && record_key(#[trigger] u[i]) == k;
            if i != p {
                assert(u[i] == s[i]);
            }
        }
        if records_map(s).contains_key(k) {
            let i = choose|i: int| 0 <= i < s.len() && record_key(#[trigger] s[i]) == k;
            assert(record_key(u[i]) == k);
        }
        if k == record_key(x) {
            assert(record_key(u[p]) == k);
        }
    }
    assert forall|k: (Seq<char>, Seq<char>)| #[trigger] records_map(u).contains_key(k) implies records_map(u)[k] == m[k] by {
        let i = choose|i: int| 0 <= i < u.len() && record_key(#[trigger] u[i]) == k;
        if i != p {
            assert(u[i] == s[i]);
            assert(record_key(s[i]) != record_key(s[p])) by {
                if i < p { assert(record_key(s[i]) != record_key(s[p])); } else { assert(record_key(s[p]) != record_key(s[i])); }
            }
        }
    }
    assert(records_map(u) =~= m);
}

/// The order in which keywords are offered: latest use first, then the most
/// used, then by keyword.
pub open spec fn offered_before(a: (Seq<char>, u64, u64), b: (Seq<char>, u64, u64)) -> bool {
    ||| a.1 > b.1
    ||| a.1 == b.1 && a.2 > b.2
    ||| a.1 == b.1 && a.2 == b.2 && lex_lt(a.0, b.0)
}

/// `a` comes before `b` when compared character by character, a proper
/// prefix first (the order of `str` and `String`).
pub open spec fn lex_lt(a: Seq<char>, b: Seq<char>) -> bool
    decreases a.len(),
{
    if a.len() == 0 {
        b.len() > 0
    } else if b.len() == 0 {
        false
    } else if a[0] != b[0] {
        a[0] < b[0]
    } else {
        lex_lt(a.drop_first(), b.drop_first())
    }
}

/// No text comes before itself.
pub proof fn lemma_lex_irreflexive(a: Seq<char>)
    ensures
        !lex_lt(a, a),
    decreases a.len(),
{
    if a.len() > 0 {
        lemma_lex_irreflexive(a.drop_first());
    }
}

/// Of two different texts one comes before the other.
pub proof fn lemma_lex_total(a: Seq<char>, b: Seq<char>)
    requires
        a != b,
    ensures
        lex_lt(a, b) || lex_lt(b, a),
    decreases a.len(),
{
    if a.len() > 0 && b.len() > 0 && a[0] == b[0] {
        if a.drop_first() == b.drop_first() {
            assert(a =~= seq![a[0]] + a.drop_first());
            assert(b =~= seq![b[0]] + b.drop_first());
        }
        lemma_lex_total(a.drop_first(), b.drop_first());
    } else if a.len() == 0 && b.len() == 0 {
        assert(a =~= b);
    }
}

/// The order of texts is transitive.
pub proof fn lemma_lex_transitive(a: Seq<char>, b: Seq<char>, c: Seq<char>)
    requires
        lex_lt(a, b),
        lex_lt(b, c),
    ensures
        lex_lt(a, c),
    decreases a.len(),
{
    if a.len() > 0 && b.len() > 0 && c.len() > 0 && a[0] == b[0] && b[0] == c[0] {
        lemma_lex_transitive(a.drop_first(), b.drop_first(), c.drop_first());
    }
}

/// Whether `a` comes before `b`, character by character.
pub fn str_lt(a: &str, b: &str) -> (r: bool)
    ensures
        r == lex_lt(a@, b@),
{
    let v = crate::text::chars_of(a);
    let w = crate::text::chars_of(b);
    let mut i: usize = 0;
    assert(v@.skip(0) =~= v@ && w@.skip(0) =~= w@);
    assert(v@.take(0) =~= w@.take(0));
    while i < v.len() && i < w.len() && v[i] == w[i]
        invariant
            v@ == a@,
            w@ == b@,
            i <= v.len(),
            i <= w.len(),
            v@.take(i as int) == w@.take(i as int),
            lex_lt(a@, b@) == lex_lt(v@.skip(i as int), w@.skip(i as int)),
        decreases v.len() - i,
    {
        assert(v@.take(i + 1) =~= v@.take(i as int).push(v@[i as int]));
        assert(w@.take(i + 1) =~= w@.take(i as int).push(w@[i as int]));
        assert(v@.skip(i as int).drop_first() =~= v@.skip(i + 1));
        assert(w@.skip(i as int).drop_first() =~= w@.skip(i + 1));
        i += 1;
    }
    if i == v.len() {
        i < w.len()
    } else if i == w.len() {
        false
    } else {
        v[i] < w[i]
    }
}

/// What a record is ordered by: keyword, last use, use count.
pub open spec fn offer_key(r: KeywordRecord) -> (Seq<char>, u64, u64) {
    (r.keyword@, r.last_accessed, r.accessed)
}

/// The keywords offered for `remote` from `m`, in order: each one used at
/// least `COMPLETE_ACCESSED` times, all of those, each once, ordered by
/// `offered_before`.
pub open spec fn completion(m: Map<(Seq<char>, Seq<char>), (u64, u64)>, remote: Seq<char>, r: Seq<Seq<char>>) -> bool {
    &&& forall|i: int| 0 <= i < r.len() ==> m.contains_key((remote, #[trigger] r[i])) && m[(remote, r[i])].1 >= COMPLETE_ACCESSED
    &&& forall|k: (Seq<char>, Seq<char>)| #[trigger] m.contains_key(k) && k.0 == remote && m[k].1 >= COMPLETE_ACCESSED ==> r.contains(k.1)
    &&& forall|i: int, j: int| 0 <= i < j < r.len() ==> offered_before(
        (r[i], m[(remote, r[i])].0, m[(remote, r[i])].1),
        (r[j], m[(remote, r[j])].0, m[(remote, r[j])].1),
    )
}

/// Keeps the records whose use has not expired.
pub open spec fn fresh(r: KeywordRecord, expire: u64, now: u64) -> bool {
    now <= r.last_accessed + expire
}

impl View for Keywords {
    type V = Map<(Seq<char>, Seq<char>), (u64, u64)>;

    closed spec fn view(&self) -> Map<(Seq<char>, Seq<char>), (u64, u64)> {
        records_map(self.data@)
    }
}

impl Keywords {
    /// No two records share remote and keyword.
    pub closed spec fn wf(&self) -> bool {
        keys_unique(self.data@)
    }

    /// Whether recording is switched off.
    pub closed spec fn disabled(&self) -> bool {
        self.disable
    }

    /// The time at which uses are recorded.
    pub closed spec fn time(&self) -> u64 {
        self.now
    }

    /// The keywords as they were saved, at time `now`. An `expire` of zero
    /// switches recording off (and keeps what was saved); otherwise the
    /// keywords not used in the last `expire` seconds are dropped.
    pub fn load(records: Vec<KeywordRecord>, expire: u64, now: u64) -> (r: Keywords)
        requires
            keys_unique(records@),
        ensures
            r.wf(),
            expire == 0 ==> r.disabled() && r@ == records_map(records@),
            expire != 0 ==> !r.disabled() && r.time() == now
                && (forall|k: (Seq<char>, Seq<char>)| #[trigger] r@.contains_key(k) <==> records_map(records@).contains_key(k)
                    && now <= records_map(records@)[k].0 + expire)
                && (forall|k: (Seq<char>, Seq<char>)| #[trigger] r@.contains_key(k) ==> r@[k] == records_map(records@)[k]),
    {
        if expire == 0 {
            return Keywords { data: records, disable: true, now: 0 };
        }
        let ghost s = records@;
        let mut kept: Vec<KeywordRecord> = Vec::new();
        let ghost mut from: Seq<int> = Seq::empty();
        let mut i: usize = 0;
        while i < records.len()
            invariant
                s == records@,
                i <= records.len(),
                keys_unique(s),
                from.len() == kept.len(),
                forall|a: int| 0 <= a < kept.len() ==> 0 <= #[trigger] from[a] < i && kept@[a] == s[from[a]]
                    && fresh(s[from[a]], expire, now),
                forall|a: int, b: int| 0 <= a < b < kept.len() ==> from[a] < from[b],
                forall|j: int| 0 <= j < i && fresh(#[trigger] s[j], expire, now) ==> exists|a: int| 0 <= a < kept.len() && from[a] == j,
            decreases records.len() - i,
        {
            let rec = &records[i];
            if now <= rec.last_accessed || now - rec.last_accessed <= expire {
                let ghost fb = from;
                kept.push(rec.duplicate());
                proof {
                    from = from.push(i as int);
                    assert forall|j: int| 0 <= j < i + 1 && fresh(#[trigger] s[j], expire, now) implies exists|a: int| 0 <= a < kept.len() && from[a] == j by {
                        if j < i {
                            let a = choose|a: int| 0 <= a < fb.len() && fb[a] == j;
                            assert(from[a] == j);
                        } else {
                            assert(from[fb.len() as int] == j);
                        }
                    }
                }
            }
            i += 1;
        }
        proof {
            assert(keys_unique(kept@)) by {
                assert forall|a: int, b: int| 0 <= a < b < kept@.len() implies record_key(kept@[a]) != record_key(kept@[b]) by {
                    assert(from[a] < from[b]);
                }
            }
            lemma_records_map(s);
            lemma_records_map(kept@);
            assert forall|k: (Seq<char>, Seq<char>)| #[trigger] records_map(kept@).contains_key(k) <==> records_map(s).contains_key(k)
                && now <= records_map(s)[k].0 + expire by {
                if records_map(kept@).contains_key(k) {
                    let a = choose|a: int| 0 <= a < kept@.len() && record_key(#[trigger] kept@[a]) == k;
                    assert(record_key(s[from[a]]) == k);
                }
                if records_map(s).contains_key(k) && now <= records_map(s)[k].0 + expire {
                    let j = choose|j: int| 0 <= j < s.len() && record_key(#[trigger] s[j]) == k;
                    assert(fresh(s[j], expire, now));
                    let a = choose|a: int| 0 <= a < kept.len() && from[a] == j;
                    assert(record_key(kept@[a]) == k);
                }
            }
            assert forall|k: (Seq<char>, Seq<char>)| #[trigger] records_map(kept@).contains_key(k) implies records_map(kept@)[k] == records_map(s)[k] by {
                let a = choose|a: int| 0 <= a < kept@.len() && record_key(#[trigger] kept@[a]) == k;
                assert(kept@[a] == s[from[a]]);
            }
        }
        Keywords { data: kept, disable: false, now }
    }

    /// Records a use of `keyword` under `remote` at this time; nothing when
    /// recording is switched off.
    pub fn upsert(&mut self, remote: &str, keyword: &str)
        requires
            old(self).wf(),
            old(self)@.contains_key((remote@, keyword@)) ==> old(self)@[(remote@, keyword@)].1 < u64::MAX,
        ensures
            final(self).wf(),
            final(self).disabled() == old(self).disabled(),
            final(self).time() == old(self).time(),
            old(self).disabled() ==> final(self)@ == old(self)@,
            !old(self).disabled() ==> final(self)@ == old(self)@.insert((remote@, keyword@), (
                old(self).time(),
                if old(self)@.contains_key((remote@, keyword@)) { (old(self)@[(remote@, keyword@)].1 + 1) as u64 } else { 1 },
            )),
    {
        if self.disable {
            return;
        }
        proof { lemma_records_map(self.data@); }
        let mut p: usize = 0;
        while p < self.data.len() && !(eq_str(self.data[p].remote.as_str(), remote) && eq_str(self.data[p].keyword.as_str(), keyword))
            invariant
                p <= self.data.len(),
                forall|a: int| 0 <= a < p ==> record_key(#[trigger] self.data@[a]) != (remote@, keyword@),
            decreases self.data.len() - p,
        {
            p += 1;
        }
        if p < self.data.len() {
            assert(record_key(self.data@[p as int]) == (remote@, keyword@));
            let x = KeywordRecord {
                remote: self.data[p].remote.clone(),
                keyword: self.data[p].keyword.clone(),
                last_accessed: self.now,
                accessed: self.data[p].accessed + 1,
            };
            proof { lemma_records_map_update(self.data@, p as int, x); }
            self.data.set(p, x);
        } else {
            assert(!records_map(self.data@).contains_key((remote@, keyword@)));
            let x = KeywordRecord {
                remote: crate::text::owned(remote),
                keyword: crate::text::owned(keyword),
                last_accessed: self.now,
                accessed: 1,
            };
            let ghost before = self.data@;
            self.data.push(x);
            proof {
                assert(self.data@.drop_last() =~= before);
                assert forall|i: int, j: int| 0 <= i < j < self.data@.len() implies record_key(self.data@[i]) != record_key(self.data@[j]) by {
                    if j == before.len() {
                        assert(self.data@[i] == before[i]);
                    } else {
                        assert(self.data@[i] == before[i] && self.data@[j] == before[j]);
                    }
                }
            }
        }
    }

    /// The keywords to offer for `remote`: those used at least
    /// `COMPLETE_ACCESSED` times, latest and most used first.
    #[verifier::spinoff_prover]
    pub fn complete(&self, remote: &str) -> (r: Vec<String>)
        requires
            self.wf(),
        ensures
            completion(self@, remote@, crate::text::strs(r@)),
    {
        let ghost s = self.data@;
        proof { lemma_records_map(s); }
        let mut out: Vec<KeywordRecord> = Vec::new();
        let ghost mut from: Seq<int> = Seq::empty();
        let mut i: usize = 0;
        while i < self.data.len()
            invariant
                s == self.data@,
                keys_unique(s),
                i <= s.len(),
                from.len() == out.len(),
                forall|a: int| 0 <= a < out.len() ==> 0 <= #[trigger] from[a] < i && out@[a] == s[from[a]]
                    && s[from[a]].remote@ == remote@ && s[from[a]].accessed >= COMPLETE_ACCESSED,
                forall|a: int, b: int| 0 <= a < out.len() && 0 <= b < out.len() && a != b ==> from[a] != from[b],
                forall|j: int| 0 <= j < i && (#[trigger] s[j]).remote@ == remote@ && s[j].accessed >= COMPLETE_ACCESSED
                    ==> exists|a: int| 0 <= a < out.len() && from[a] == j,
                forall|a: int, b: int| 0 <= a < b < out.len() ==> offered_before(offer_key(out@[a]), offer_key(out@[b])),
            decreases s.len() - i,
        {
            let rec = &self.data[i];
            if eq_str(rec.remote.as_str(), remote) && rec.accessed >= COMPLETE_ACCESSED {
                let mut p: usize = 0;
                while p < out.len() && !Self::before(rec, &out[p])
                    invariant
                        p <= out.len(),
                        forall|a: int| 0 <= a < p ==> !offered_before(offer_key(*rec), offer_key(#[trigger] out@[a])),
                    decreases out.len() - p,
                {
                    p += 1;
                }
                let ghost ob = out@;
                let ghost fb = from;
                out.insert(p, rec.duplicate());
                proof {
                    from = fb.insert(p as int, i as int);
                    let x = offer_key(*rec);
                    assert forall|a: int| 0 <= a < p implies offered_before(offer_key(ob[a]), x) by {
                        let y = offer_key(ob[a]);
                        assert(ob[a] == s[fb[a]]);
                        assert(0 <= fb[a] < i);
                        assert(record_key(s[fb[a]]) != record_key(s[i as int]));
                        assert(s[fb[a]].remote@ == remote@ && s[i as int].remote@ == remote@);
                        assert(s[fb[a]].keyword@ != s[i as int].keyword@);
                        assert(y.0 != x.0);
                        lemma_lex_total(y.0, x.0);
                    }
                    assert forall|a: int, b: int| 0 <= a < b < out.len() implies offered_before(offer_key(out@[a]), offer_key(out@[b])) by {
                        if a < p && b > p {
                            assert(out@[a] == ob[a] && out@[b] == ob[b - 1]);
                            if p < ob.len() {
                                lemma_before_transitive(offer_key(ob[a]), x, offer_key(ob[p as int]));
                                if b - 1 > p {
                                    lemma_before_transitive(offer_key(ob[a]), offer_key(ob[p as int]), offer_key(ob[b - 1]));
                                }
                            }
                        } else if a < p && b == p {
                            assert(out@[a] == ob[a]);
                        } else if a == p {
                            assert(out@[b] == ob[b - 1]);
                            if b - 1 > p {
                                lemma_before_transitive(x, offer_key(ob[p as int]), offer_key(ob[b - 1]));
                            }
                        } else if b < p {
                            assert(out@[a] == ob[a] && out@[b] == ob[b]);
                        } else {
                            assert(out@[a] == ob[a - 1] && out@[b] == ob[b - 1]);
                        }
                    }
                    assert forall|c: int| 0 <= c < out.len() implies 0 <= #[trigger] from[c] < i + 1 && out@[c] == s[from[c]]
                        && s[from[c]].remote@ == remote@ && s[from[c]].accessed >= COMPLETE_ACCESSED by {
                        if c < p { assert(from[c] == fb[c] && out@[c] == ob[c]); }
                        else if c > p { assert(from[c] == fb[c - 1] && out@[c] == ob[c - 1]); }
                    }
                    assert forall|c: int, d: int| 0 <= c < out.len() && 0 <= d < out.len() && c != d implies from[c] != from[d] by {
                        if c != p && d != p {
                            let c0 = if c < p { c } else { c - 1 };
                            let d0 = if d < p { d } else { d - 1 };
                            assert(from[c] == fb[c0] && from[d] == fb[d0]);
                        } else if c == p {
                            let d0 = if d < p { d } else { d - 1 };
                            assert(from[d] == fb[d0]);
                        } else {
                            let c0 = if c < p { c } else { c - 1 };
                            assert(from[c] == fb[c0]);
                        }
                    }
                    assert forall|j: int| 0 <= j < i + 1 && (#[trigger] s[j]).remote@ == remote@ && s[j].accessed >= COMPLETE_ACCESSED
                        implies exists|a: int| 0 <= a < out.len() && from[a] == j by {
                        if j < i {
                            let a = choose|a: int| 0 <= a < fb.len() && fb[a] == j;
                            if a < p { assert(from[a] == j); } else { assert(from[a + 1] == j); }
                        } else {
                            assert(from[p as int] == j);
                        }
                    }
                }
            } else {
                proof {
                    assert forall|j: int| 0 <= j < i + 1 && (#[trigger] s[j]).remote@ == remote@ && s[j].accessed >= COMPLETE_ACCESSED
                        implies exists|a: int| 0 <= a < out.len() && from[a] == j by {
                        assert(j < i);
                    }
                }
            }
            i += 1;
        }
        let mut r: Vec<String> = Vec::new();
        let mut k: usize = 0;
        while k < out.len()
            invariant
                k <= out.len(),
                r@.len() == k,
                forall|a: int| 0 <= a < k ==> r@[a]@ == (#[trigger] out@[a]).keyword@,
            decreases out.len() - k,
        {
            r.push(out[k].keyword.clone());
            k += 1;
        }
        proof {
            let rs = crate::text::strs(r@);
            let m = records_map(s);
            assert forall|a: int| 0 <= a < out.len() implies m[(remote@, #[trigger] out@[a].keyword@)] == (out@[a].last_accessed, out@[a].accessed)
                && m.contains_key((remote@, out@[a].keyword@)) by {
                assert(out@[a] == s[from[a]]);
                assert(record_key(s[from[a]]) == (remote@, out@[a].keyword@));
            }
            assert forall|a: int| 0 <= a < rs.len() implies m.contains_key((remote@, #[trigger] rs[a])) && m[(remote@, rs[a])].1 >= COMPLETE_ACCESSED by {
                assert(rs[a] == out@[a].keyword@);
                assert(out@[a] == s[from[a]]);
                assert(m[(remote@, out@[a].keyword@)] == (out@[a].last_accessed, out@[a].accessed));
            }
            assert forall|kk: (Seq<char>, Seq<char>)| #[trigger] m.contains_key(kk) && kk.0 == remote@ && m[kk].1 >= COMPLETE_ACCESSED implies rs.contains(kk.1) by {
                let j = choose|j: int| 0 <= j < s.len() && record_key(#[trigger] s[j]) == kk;
                assert(s[j].remote@ == remote@);
                let a = choose|a: int| 0 <= a < out.len() && from[a] == j;
                assert(rs[a] == kk.1);
            }
            assert forall|a: int, b: int| 0 <= a < b < rs.len() implies offered_before(
                (rs[a], m[(remote@, rs[a])].0, m[(remote@, rs[a])].1),
                (rs[b], m[(remote@, rs[b])].0, m[(remote@, rs[b])].1),
            ) by {
                assert(rs[a] == out@[a].keyword@ && rs[b] == out@[b].keyword@);
                assert(offered_before(offer_key(out@[a]), offer_key(out@[b])));
            }
        }
        r
    }

    /// Whether `a` is offered before `b`.
    fn before(a: &KeywordRecord, b: &KeywordRecord) -> (r: bool)
        ensures
            r == offered_before(offer_key(*a), offer_key(*b)),
    {
        if a.last_accessed != b.last_accessed {
            a.last_accessed > b.last_accessed
        } else if a.accessed != b.accessed {
            a.accessed > b.accessed
        } else {
            str_lt(a.keyword.as_str(), b.keyword.as_str())
        }
    }

    /// The records to save.
    pub fn save(self) -> (r: Vec<KeywordRecord>)
        requires
            self.wf(),
        ensures
            keys_unique(r@),
            records_map(r@) == self@,
    {
        self.data
    }
}

proof fn lemma_before_transitive(a: (Seq<char>, u64, u64), b: (Seq<char>, u64, u64), c: (Seq<char>, u64, u64))
    requires
        offered_before(a, b),
        offered_before(b, c),
    ensures
        offered_before(a, c),
{
    if a.1 == b.1 && a.2 == b.2 && b.1 == c.1 && b.2 == c.2 {
        lemma_lex_transitive(a.0, b.0, c.0);
    }
}

/// A keyword used once more after `COMPLETE_ACCESSED - 1` uses is offered
/// for its remote.
pub proof fn law_recorded_keyword_offered(
    m: Map<(Seq<char>, Seq<char>), (u64, u64)>,
    remote: Seq<char>,
    keyword: Seq<char>,
    now: u64,
    r: Seq<Seq<char>>,
)
    requires
        m.contains_key((remote, keyword)),
        m[(remote, keyword)].1 + 1 >= COMPLETE_ACCESSED,
        m[(remote, keyword)].1 < u64::MAX,
        completion(m.insert((remote, keyword), (now, (m[(remote, keyword)].1 + 1) as u64)), remote, r),
    ensures
        r.contains(keyword),
{
    let m2 = m.insert((remote, keyword), (now, (m[(remote, keyword)].1 + 1) as u64));
    assert(m2.contains_key((remote, keyword)));
}

} // verus!
