//! Making the next tag from a rule with placeholders: `{N}` stands for the
//! N-th number of the current tag, `{N+}` for that number plus one, and
//! `{%Y}`, `{%m}` and the like for parts of today's date.
use vstd::prelude::*;

use crate::error::Error;
use crate::exec::git::tag::{date_rendered, local_now_format, simple_date_format};
use crate::git::GitTag;
use crate::text::{chars_of, dec, digits_value, is_digit, owned, push_char, push_dec};

verus! {

/// The end of the run of characters from `i` on that satisfy `is_digit`.
pub open spec fn digit_run_end(s: Seq<char>, i: int) -> int
    decreases s.len() - i,
{
    if 0 <= i < s.len() && is_digit(s[i]) { digit_run_end(s, i + 1) } else { i }
}

/// The end of the run of `+` from `i` on.
pub open spec fn plus_run_end(s: Seq<char>, i: int) -> int
    decreases s.len() - i,
{
    if 0 <= i < s.len() && s[i] == '+' { plus_run_end(s, i + 1) } else { i }
}

/// The numbers of a tag: the values of its maximal runs of digits, in order.
pub open spec fn tag_nums(s: Seq<char>, i: int) -> Seq<int>
    decreases s.len() - i,
{
    if i < 0 || i >= s.len() {
        Seq::empty()
    } else if is_digit(s[i]) {
        let e = digit_run_end(s, i);
        if i < e <= s.len() {
            seq![digits_value(s.subrange(i, e)) as int] + tag_nums(s, e)
        } else {
            Seq::empty()
        }
    } else {
        tag_nums(s, i + 1)
    }
}

/// The letters a date placeholder may hold after `%`.
pub open spec fn is_date_letter(c: char) -> bool {
    c == 'y' || c == 'Y' || c == 'm' || c == 'M' || c == 'd' || c == 'D'
}

/// The placeholder that starts at `i`, if one does: where it ends, what it
/// holds between `{` and the `+` signs, and whether it has a `+`. A
/// placeholder is `{`, digits or `%` and a date letter, any number of `+`,
/// and `}`.
pub open spec fn placeholder_at(r: Seq<char>, i: int) -> Option<(int, Seq<char>, bool)> {
    if 0 <= i && i + 1 < r.len() && r[i] == '{' {
        let d = digit_run_end(r, i + 1);
        let cap_end = if d > i + 1 {
            d
        } else if i + 2 < r.len() && r[i + 1] == '%' && is_date_letter(r[i + 2]) {
            i + 3
        } else {
            -1
        };
        if cap_end < 0 {
            None
        } else {
            let p = plus_run_end(r, cap_end);
            if p < r.len() && r[p] == '}' { Some((p + 1, r.subrange(i + 1, cap_end), p > cap_end)) } else { None }
        }
    } else {
        None
    }
}

/// What a placeholder holding `cap` becomes: an index that fits in `usize`
/// gives the number at that index (zero past the end), plus one with `+`;
/// anything else stays as it is and asks for the date to be filled in.
pub open spec fn replacement(cap: Seq<char>, plus: bool, nums: Seq<int>) -> (Seq<char>, bool) {
    if cap.len() > 0 && crate::text::all_digits(cap) && digits_value(cap) <= usize::MAX {
        let idx = digits_value(cap) as int;
        let n = if idx < nums.len() { nums[idx] } else { 0 };
        (dec((n + if plus { 1int } else { 0 }) as nat), false)
    } else {
        (cap, true)
    }
}

/// The rule from `i` on with its placeholders replaced, left to right, and
/// whether a date placeholder was met.
pub open spec fn substitute(r: Seq<char>, nums: Seq<int>, i: int) -> (Seq<char>, bool)
    decreases r.len() - i,
{
    if i < 0 || i >= r.len() {
        (Seq::empty(), false)
    } else {
        match placeholder_at(r, i) {
            Some((e, cap, plus)) => if i < e <= r.len() {
                let (t, d) = replacement(cap, plus, nums);
                let (rest, d2) = substitute(r, nums, e);
                (t + rest, d || d2)
            } else {
                (Seq::empty(), false)
            },
            None => {
                let (rest, d2) = substitute(r, nums, i + 1);
                (seq![r[i]] + rest, d2)
            },
        }
    }
}

/// Every number of the tag fits in an `i32`, and one plus it fits where a
/// `{N+}` placeholder of the rule asks for it.
pub open spec fn rule_fits(tag: Seq<char>, rule: Seq<char>) -> bool {
    let nums = tag_nums(tag, 0);
    &&& forall|k: int| 0 <= k < nums.len() ==> nums[k] <= i32::MAX
    &&& forall|i: int| #[trigger] placeholder_at(rule, i) is Some ==> increment_fits(placeholder_at(rule, i)->0, nums)
}

/// One plus the number that a `{N+}` placeholder names fits in an `i32`.
pub open spec fn increment_fits(p: (int, Seq<char>, bool), nums: Seq<int>) -> bool {
    p.2 && p.1.len() > 0 && crate::text::all_digits(p.1) && digits_value(p.1) < nums.len()
        ==> nums[digits_value(p.1) as int] < i32::MAX
}

/// A text whose characters all come before U+0660, the first decimal digit
/// outside ASCII: in such a text the decimal digits are `0` to `9` alone.
pub open spec fn narrow_digits(s: Seq<char>) -> bool {
    forall|i: int| 0 <= i < s.len() ==> (s[i] as u32) < 0x660
}

proof fn lemma_digit_run(s: Seq<char>, i: int)
    requires
        0 <= i <= s.len(),
    ensures
        i <= digit_run_end(s, i) <= s.len(),
        forall|k: int| i <= k < digit_run_end(s, i) ==> is_digit(#[trigger] s[k]),
        digit_run_end(s, i) < s.len() ==> !is_digit(s[digit_run_end(s, i)]),
    decreases s.len() - i,
{
    if i < s.len() && is_digit(s[i]) {
        lemma_digit_run(s, i + 1);
    }
}

proof fn lemma_tag_nums_nonneg(s: Seq<char>, i: int)
    ensures
        forall|k: int| 0 <= k < tag_nums(s, i).len() ==> tag_nums(s, i)[k] >= 0,
    decreases s.len() - i,
{
    if 0 <= i < s.len() {
        if is_digit(s[i]) {
            let e = digit_run_end(s, i);
            if i < e <= s.len() {
                lemma_tag_nums_nonneg(s, e);
                let h = seq![digits_value(s.subrange(i, e)) as int];
                assert(tag_nums(s, i) == h + tag_nums(s, e));
                assert forall|k: int| 0 <= k < tag_nums(s, i).len() implies tag_nums(s, i)[k] >= 0 by {
                    if k >= 1 {
                        assert(tag_nums(s, i)[k] == tag_nums(s, e)[k - 1]);
                    }
                }
            }
        } else {
            lemma_tag_nums_nonneg(s, i + 1);
            assert(tag_nums(s, i) == tag_nums(s, i + 1));
        }
    } else {
        assert(tag_nums(s, i).len() == 0);
    }
}

proof fn lemma_plus_run(s: Seq<char>, i: int)
    requires
        0 <= i <= s.len(),
    ensures
        i <= plus_run_end(s, i) <= s.len(),
        plus_run_end(s, i) < s.len() ==> s[plus_run_end(s, i)] != '+',
    decreases s.len() - i,
{
    if i < s.len() && s[i] == '+' {
        lemma_plus_run(s, i + 1);
    }
}

/// Where the run of digits from `i` ends.
fn digit_run(v: &Vec<char>, i: usize) -> (e: usize)
    requires
        i <= v.len(),
    ensures
        e as int == digit_run_end(v@, i as int),
{
    let mut e = i;
    proof { lemma_digit_run(v@, i as int); }
    while e < v.len() && '0' <= v[e] && v[e] <= '9'
        invariant
            i <= e <= v.len(),
            digit_run_end(v@, e as int) == digit_run_end(v@, i as int),
        decreases v.len() - e,
    {
        e += 1;
    }
    e
}

/// Where the run of `+` from `i` ends.
fn plus_run(v: &Vec<char>, i: usize) -> (e: usize)
    requires
        i <= v.len(),
    ensures
        e as int == plus_run_end(v@, i as int),
{
    let mut e = i;
    while e < v.len() && v[e] == '+'
        invariant
            i <= e <= v.len(),
            plus_run_end(v@, e as int) == plus_run_end(v@, i as int),
        decreases v.len() - e,
    {
        e += 1;
    }
    e
}

/// The value of the digits `v[i..e]`, when it is at most `bound`.
fn digits_upto(v: &Vec<char>, i: usize, e: usize, bound: u64) -> (r: Option<u64>)
    requires
        i <= e <= v.len(),
        bound >= 9,
        forall|k: int| i <= k < e ==> is_digit(#[trigger] v@[k]),
    ensures
        digits_value(v@.subrange(i as int, e as int)) <= bound ==> r == Some(digits_value(v@.subrange(i as int, e as int)) as u64),
        digits_value(v@.subrange(i as int, e as int)) > bound ==> r is None,
{
    let mut acc: u64 = 0;
    let mut k = i;
    assert(v@.subrange(i as int, i as int) =~= Seq::<char>::empty());
    while k < e
        invariant
            i <= k <= e <= v.len(),
            forall|j: int| i <= j < e ==> is_digit(#[trigger] v@[j]),
            acc == digits_value(v@.subrange(i as int, k as int)),
            acc <= bound,
            bound >= 9,
        decreases e - k,
    {
        let d = (v[k] as u32 - '0' as u32) as u64;
        assert(v@.subrange(i as int, k + 1).drop_last() =~= v@.subrange(i as int, k as int));
        assert(is_digit(v@[k as int]));
        if acc > (bound - d) / 10 {
            proof {
                crate::text::lemma_digits_value_mono(v@.subrange(i as int, e as int), (k + 1 - i) as int);
                assert(v@.subrange(i as int, e as int).take((k + 1 - i) as int) =~= v@.subrange(i as int, k + 1));
            }
            return None;
        }
        acc = acc * 10 + d;
        k += 1;
    }
    Some(acc)
}

/// The rule with its placeholders replaced (see [`substitute`]) for the
/// tag `tag`, and whether it holds a date placeholder.
pub fn substitute_rule(tag: &str, rule: &str) -> (r: (String, bool))
    requires
        narrow_digits(tag@),
        narrow_digits(rule@),
        rule_fits(tag@, rule@),
    ensures
        r.0@ == substitute(rule@, tag_nums(tag@, 0), 0).0,
        r.1 == substitute(rule@, tag_nums(tag@, 0), 0).1,
{
    let nums = tag_numbers(tag);
    let v = chars_of(rule);
    let mut out = String::new();
    let mut with_date = false;
    let mut i: usize = 0;
    let ghost ns = tag_nums(tag@, 0);
    proof {
        lemma_tag_nums_nonneg(tag@, 0);
        assert(v@.subrange(0, 0) =~= Seq::<char>::empty());
    }
    while i < v.len()
        invariant
            v@ == rule@,
            nums@.map_values(|x: i32| x as int) == ns,
            ns == tag_nums(tag@, 0),
            rule_fits(tag@, rule@),
            forall|k: int| 0 <= k < ns.len() ==> ns[k] >= 0,
            i <= v.len(),
            (out@ + substitute(v@, ns, i as int).0, with_date || substitute(v@, ns, i as int).1)
                == substitute(v@, ns, 0),
        decreases v.len() - i,
    {
        let ghost before = (out@, with_date);
        match placeholder(&v, i) {
            Some((e, cs, ce, plus)) => {
                let ghost cap = v@.subrange(cs as int, ce as int);
                proof {
                    lemma_digit_run(v@, cs as int);
                }
                let idx = if ce > cs && '0' <= v[cs] && v[cs] <= '9' {
                    digits_upto(&v, cs, ce, usize::MAX as u64)
                } else {
                    None
                };
                let ghost is_index = cap.len() > 0 && crate::text::all_digits(cap) && digits_value(cap) <= usize::MAX;
                assert(idx is Some <==> is_index) by {
                    if ce > cs && is_digit(v@[cs as int]) {
                        assert(forall|k: int| cs <= k < ce ==> is_digit(#[trigger] v@[k]));
                    } else if cap.len() > 0 {
                        assert(!is_digit(cap[0]));
                    }
                }
                match idx {
                    Some(x) => {
                        let k = x as usize;
                        let n: i32 = if k < nums.len() { nums[k] } else { 0 };
                        let m: u64 = if plus {
                            proof {
                                assert(placeholder_at(rule@, i as int) == Some((e as int, cap, plus)));
                            }
                            (n as u64) + 1
                        } else {
                            n as u64
                        };
                        push_dec(&mut out, m);
                    },
                    None => {
                        with_date = true;
                        let mut k = cs;
                        while k < ce
                            invariant
                                cs <= k <= ce <= v.len(),
                                out@ == before.0 + v@.subrange(cs as int, k as int),
                            decreases ce - k,
                        {
                            push_char(&mut out, v[k]);
                            assert(v@.subrange(cs as int, k + 1) =~= v@.subrange(cs as int, k as int).push(v@[k as int]));
                            k += 1;
                        }
                    },
                }
                proof {
                    assert(out@ =~= before.0 + replacement(cap, plus, ns).0);
                }
                i = e;
            },
            None => {
                push_char(&mut out, v[i]);
                i += 1;
            },
        }
    }
    proof {
        assert(substitute(v@, ns, i as int) == (Seq::<char>::empty(), false));
        assert(out@ + Seq::<char>::empty() =~= out@);
    }
    (out, with_date)
}

impl GitTag {
    /// The tag that `rule` makes from this one: each `{N}` becomes the N-th
    /// number of this tag (zero when there is none), each `{N+}` that number
    /// plus one (see [`substitute_rule`]); when the rule holds a date
    /// placeholder, that text is then rendered as a date format with the local
    /// time now (see [`date_rendered`]). A rule whose date format cannot be
    /// rendered is an error.
    pub fn apply_rule(&self, rule: &str) -> (r: Result<GitTag, Error>)
        requires
            narrow_digits(self.0@),
            narrow_digits(rule@),
            rule_fits(self.0@, rule@),
        ensures
            !substitute(rule@, tag_nums(self.0@, 0), 0).1 ==> (r matches Ok(t) && t.0@ == substitute(rule@, tag_nums(self.0@, 0), 0).0),
            substitute(rule@, tag_nums(self.0@, 0), 0).1 && r is Err ==> (r matches Err(Error::InvalidTagRule(x)) && x@ == rule@),
            substitute(rule@, tag_nums(self.0@, 0), 0).1 && simple_date_format(substitute(rule@, tag_nums(self.0@, 0), 0).0)
                ==> (r matches Ok(t) && date_rendered(substitute(rule@, tag_nums(self.0@, 0), 0).0, t.0@)),
            substitute(rule@, tag_nums(self.0@, 0), 0).1 && substitute(rule@, tag_nums(self.0@, 0), 0).0 == "%Y-%m-%d"@
                ==> (r matches Ok(t) && crate::exec::git::tag::date_text(t.0@, '-')),
            substitute(rule@, tag_nums(self.0@, 0), 0).1 && substitute(rule@, tag_nums(self.0@, 0), 0).0 == "%Y.%m.%d"@
                ==> (r matches Ok(t) && crate::exec::git::tag::date_text(t.0@, '.')),
    {
        let (out, with_date) = substitute_rule(self.0.as_str(), rule);
        if with_date {
            match local_now_format(out.as_str()) {
                Some(s) => Ok(GitTag(s)),
                None => Err(Error::InvalidTagRule(owned(rule))),
            }
        } else {
            Ok(GitTag(out))
        }
    }
}

/// The placeholder that starts at `i`: where it ends, where what it holds
/// starts and ends, and whether it has a `+`.
fn placeholder(v: &Vec<char>, i: usize) -> (r: Option<(usize, usize, usize, bool)>)
    requires
        i < v.len(),
    ensures
        match placeholder_at(v@, i as int) {
            Some((e, cap, plus)) => r matches Some((e2, cs, ce, p2)) && e2 == e && p2 == plus && i < cs <= ce < e2 <= v.len()
                && v@.subrange(cs as int, ce as int) == cap && cs == i + 1,
            None => r is None,
        },
{
    if !(i + 1 < v.len() && v[i] == '{') {
        return None;
    }
    let d = digit_run(v, i + 1);
    proof { lemma_digit_run(v@, i + 1); }
    let cap_end: usize = if d > i + 1 {
        d
    } else if i + 2 < v.len() && v[i + 1] == '%' && (v[i + 2] == 'y' || v[i + 2] == 'Y' || v[i + 2] == 'm'
        || v[i + 2] == 'M' || v[i + 2] == 'd' || v[i + 2] == 'D') {
        i + 3
    } else {
        return None;
    };
    let p = plus_run(v, cap_end);
    proof { lemma_plus_run(v@, cap_end as int); }
    if p < v.len() && v[p] == '}' {
        Some((p + 1, i + 1, cap_end, p > cap_end))
    } else {
        None
    }
}

/// The numbers of a tag, in order.
fn tag_numbers(s: &str) -> (r: Vec<i32>)
    requires
        forall|k: int| 0 <= k < tag_nums(s@, 0).len() ==> tag_nums(s@, 0)[k] <= i32::MAX,
    ensures
        r@.map_values(|x: i32| x as int) == tag_nums(s@, 0),
{
    let v = chars_of(s);
    let mut r: Vec<i32> = Vec::new();
    let mut i: usize = 0;
    while i < v.len()
        invariant
            v@ == s@,
            i <= v.len(),
            r@.map_values(|x: i32| x as int) + tag_nums(s@, i as int) == tag_nums(s@, 0),
            forall|k: int| 0 <= k < tag_nums(s@, 0).len() ==> tag_nums(s@, 0)[k] <= i32::MAX,
        decreases v.len() - i,
    {
        if '0' <= v[i] && v[i] <= '9' {
            let e = digit_run(&v, i);
            proof { lemma_digit_run(v@, i as int); }
            let ghost prev = r@.map_values(|x: i32| x as int);
            let ghost val = digits_value(v@.subrange(i as int, e as int));
            assert(tag_nums(s@, i as int) == seq![val as int] + tag_nums(s@, e as int));
            assert(tag_nums(s@, 0)[prev.len() as int] == val);
            let x = digits_upto(&v, i, e, 2147483647u64);
            let x = match x {
                Some(x) => x,
                None => {
                    assert(false);
                    0
                },
            };
            r.push(x as i32);
            assert(r@.map_values(|x: i32| x as int) =~= prev.push(val as int));
            assert(prev.push(val as int) + tag_nums(s@, e as int) =~= prev + (seq![val as int] + tag_nums(s@, e as int)));
            i = e;
        } else {
            i += 1;
        }
    }
    assert(r@.map_values(|x: i32| x as int) + Seq::<int>::empty() =~= r@.map_values(|x: i32| x as int));
    r
}

/// A rule without `{` is a tag as it stands, with no date to fill in.
pub proof fn law_plain_rule_kept(rule: Seq<char>, nums: Seq<int>, i: int)
    requires
        0 <= i <= rule.len(),
        !rule.contains('{'),
    ensures
        substitute(rule, nums, i) == (rule.skip(i), false),
    decreases rule.len() - i,
{
    if i < rule.len() {
        assert(rule[i] != '{') by {
            if rule[i] == '{' { assert(rule.contains('{')); }
        }
        assert(placeholder_at(rule, i) is None);
        law_plain_rule_kept(rule, nums, i + 1);
        assert(seq![rule[i]] + rule.skip(i + 1) =~= rule.skip(i));
    } else {
        assert(rule.skip(i) =~= Seq::<char>::empty());
    }
}

} // verus!
