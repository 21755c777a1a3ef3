//! Plain text handling on character sequences: trimming, splitting, joining
//! and the searches that the rest of the library performs on command output
//! and user patterns.
use vstd::prelude::*;

verus! {

/// Unicode `White_Space`, which is what `char::is_whitespace` tests.
pub open spec fn is_ws(c: char) -> bool {
    ||| c == ' '
    ||| ('\t' <= c && c <= '\r')
    ||| c == '\u{85}'
    ||| c == '\u{a0}'
    ||| c == '\u{1680}'
    ||| ('\u{2000}' <= c && c <= '\u{200a}')
    ||| c == '\u{2028}'
    ||| c == '\u{2029}'
    ||| c == '\u{202f}'
    ||| c == '\u{205f}'
    ||| c == '\u{3000}'
}

/// The view of each string of a list.
pub open spec fn strs(v: Seq<String>) -> Seq<Seq<char>> {
    v.map_values(|s: String| s@)
}

pub proof fn lemma_strs_push(v: Seq<String>, x: String)
    ensures
        strs(v.push(x)) == strs(v).push(x@),
{
    assert(strs(v.push(x)) =~= strs(v).push(x@));
}

/// The present values of a list of options, in order.
pub open spec fn keep_some(ls: Seq<Option<Seq<char>>>) -> Seq<Seq<char>>
    decreases ls.len(),
{
    if ls.len() == 0 {
        Seq::empty()
    } else {
        let r = keep_some(ls.drop_last());
        match ls.last() {
            Some(x) => r.push(x),
            None => r,
        }
    }
}

pub proof fn lemma_keep_some_push(ls: Seq<Option<Seq<char>>>, x: Option<Seq<char>>)
    ensures
        keep_some(ls.push(x)) == match x {
            Some(y) => keep_some(ls).push(y),
            None => keep_some(ls),
        },
{
    assert(ls.push(x).drop_last() =~= ls);
}

/// Number of whitespace characters that start `s`.
pub open spec fn lead_ws(s: Seq<char>) -> nat
    decreases s.len(),
{
    if s.len() > 0 && is_ws(s[0]) {
        1 + lead_ws(s.subrange(1, s.len() as int))
    } else {
        0
    }
}

/// Number of whitespace characters that end `s`.
pub open spec fn trail_ws(s: Seq<char>) -> nat
    decreases s.len(),
{
    if s.len() > 0 && is_ws(s.last()) {
        1 + trail_ws(s.drop_last())
    } else {
        0
    }
}

pub open spec fn trim_start(s: Seq<char>) -> Seq<char> {
    s.subrange(lead_ws(s) as int, s.len() as int)
}

pub open spec fn trim_end(s: Seq<char>) -> Seq<char> {
    s.subrange(0, s.len() - trail_ws(s))
}

/// `s` without its leading and trailing whitespace.
pub open spec fn trim(s: Seq<char>) -> Seq<char> {
    trim_end(trim_start(s))
}

pub open spec fn starts_with(s: Seq<char>, p: Seq<char>) -> bool {
    p.len() <= s.len() && s.subrange(0, p.len() as int) == p
}

pub open spec fn ends_with(s: Seq<char>, p: Seq<char>) -> bool {
    p.len() <= s.len() && s.subrange(s.len() - p.len(), s.len() as int) == p
}

/// `p` occurs in `s` at position `i`.
pub open spec fn occurs_at(s: Seq<char>, p: Seq<char>, i: int) -> bool {
    0 <= i && i + p.len() <= s.len() && s.subrange(i, i + p.len()) == p
}

/// `p` is a substring of `s`.
pub open spec fn contains(s: Seq<char>, p: Seq<char>) -> bool {
    exists|i: int| occurs_at(s, p, i)
}

/// The pieces of `s` between the occurrences of `c`, as `str::split` gives them.
pub open spec fn split_char(s: Seq<char>, c: char) -> Seq<Seq<char>>
    decreases s.len(),
{
    if s.len() == 0 {
        seq![Seq::<char>::empty()]
    } else {
        let r = split_char(s.drop_last(), c);
        if s.last() == c {
            r.push(Seq::<char>::empty())
        } else {
            r.update(r.len() - 1, r.last().push(s.last()))
        }
    }
}

/// The maximal runs of non-whitespace characters of `s`, as `split_whitespace` gives them.
pub open spec fn words(s: Seq<char>) -> Seq<Seq<char>>
    decreases s.len(),
{
    if s.len() == 0 {
        Seq::empty()
    } else {
        let w = words(s.drop_last());
        let c = s.last();
        if is_ws(c) {
            w
        } else if s.len() >= 2 && !is_ws(s[s.len() - 2]) {
            w.update(w.len() - 1, w.last().push(c))
        } else {
            w.push(seq![c])
        }
    }
}

/// The parts joined with `sep` between consecutive parts.
pub open spec fn join(parts: Seq<Seq<char>>, sep: Seq<char>) -> Seq<char>
    decreases parts.len(),
{
    if parts.len() == 0 {
        Seq::empty()
    } else if parts.len() == 1 {
        parts[0]
    } else {
        join(parts.drop_last(), sep) + sep + parts.last()
    }
}

/// The non-empty lines of a command's output, each trimmed.
pub open spec fn nonempty_trimmed(ls: Seq<Seq<char>>) -> Seq<Seq<char>>
    decreases ls.len(),
{
    if ls.len() == 0 {
        Seq::empty()
    } else {
        let r = nonempty_trimmed(ls.drop_last());
        if ls.last().len() > 0 {
            r.push(trim(ls.last()))
        } else {
            r
        }
    }
}

/// The lines of `out` once the whole output is trimmed: empty lines dropped,
/// each remaining line trimmed.
pub open spec fn output_lines(out: Seq<char>) -> Seq<Seq<char>> {
    if trim(out).len() == 0 {
        Seq::empty()
    } else {
        nonempty_trimmed(split_char(trim(out), '\n'))
    }
}

/// `s` with every leading repetition of `p` removed.
pub open spec fn trim_start_matches(s: Seq<char>, p: Seq<char>) -> Seq<char>
    decreases s.len(),
{
    if p.len() > 0 && starts_with(s, p) {
        trim_start_matches(s.subrange(p.len() as int, s.len() as int), p)
    } else {
        s
    }
}

/// `s` with every trailing repetition of `p` removed.
pub open spec fn trim_end_matches(s: Seq<char>, p: Seq<char>) -> Seq<char>
    decreases s.len(),
{
    if p.len() > 0 && ends_with(s, p) {
        trim_end_matches(s.subrange(0, s.len() - p.len()), p)
    } else {
        s
    }
}

pub proof fn lemma_lead_ws(s: Seq<char>, i: int)
    requires
        0 <= i <= s.len(),
        forall|j: int| 0 <= j < i ==> is_ws(#[trigger] s[j]),
        i == s.len() || !is_ws(s[i]),
    ensures
        lead_ws(s) == i,
    decreases i,
{
    if i > 0 {
        let t = s.subrange(1, s.len() as int);
        assert forall|j: int| 0 <= j < i - 1 implies is_ws(#[trigger] t[j]) by {
            assert(t[j] == s[j + 1]);
        }
        if i - 1 < t.len() {
            assert(t[i - 1] == s[i]);
        }
        lemma_lead_ws(t, i - 1);
    }
}

pub proof fn lemma_trail_ws(s: Seq<char>, k: int)
    requires
        0 <= k <= s.len(),
        forall|j: int| s.len() - k <= j < s.len() ==> is_ws(#[trigger] s[j]),
        k == s.len() || !is_ws(s[s.len() - k - 1]),
    ensures
        trail_ws(s) == k,
    decreases k,
{
    if k > 0 {
        let t = s.drop_last();
        assert forall|j: int| t.len() - (k - 1) <= j < t.len() implies is_ws(#[trigger] t[j]) by {
            assert(t[j] == s[j]);
        }
        if k - 1 < t.len() {
            assert(t[t.len() - (k - 1) - 1] == s[s.len() - k - 1]);
        }
        lemma_trail_ws(t, k - 1);
    }
}

pub proof fn lemma_split_char_nonempty(s: Seq<char>, c: char)
    ensures
        split_char(s, c).len() >= 1,
    decreases s.len(),
{
    if s.len() > 0 {
        lemma_split_char_nonempty(s.drop_last(), c);
    }
}

pub proof fn lemma_words_last(s: Seq<char>)
    requires
        s.len() > 0,
        !is_ws(s.last()),
    ensures
        words(s).len() > 0,
    decreases s.len(),
{
    if s.len() >= 2 && !is_ws(s[s.len() - 2]) {
        lemma_words_last(s.drop_last());
    }
}

/// `char::is_whitespace`.
pub fn is_whitespace(c: char) -> (r: bool)
    ensures
        r == is_ws(c),
{
    c == ' ' || ('\t' <= c && c <= '\r') || c == '\u{85}' || c == '\u{a0}' || c == '\u{1680}'
        || ('\u{2000}' <= c && c <= '\u{200a}') || c == '\u{2028}' || c == '\u{2029}' || c
        == '\u{202f}' || c == '\u{205f}' || c == '\u{3000}'
}

/// The characters of a string slice, in order.
pub fn chars_of(s: &str) -> (v: Vec<char>)
    ensures
        v@ == s@,
{
    let mut v: Vec<char> = Vec::new();
    for c in it: s.chars()
        invariant
            v@ == it.seq().take(it.index() as int),
    {
        v.push(c);
    }
    v
}

/// `String::push`.
#[verifier::external_body]
pub fn push_char(s: &mut String, c: char)
    ensures
        final(s)@ == old(s)@.push(c),
{
    s.push(c)
}

/// `str::to_string`.
pub fn owned(s: &str) -> (r: String)
    ensures
        r@ == s@,
{
    s.to_owned()
}

/// The string made of `v[lo..hi]`.
pub fn string_of(v: &Vec<char>, lo: usize, hi: usize) -> (r: String)
    requires
        lo <= hi <= v.len(),
    ensures
        r@ == v@.subrange(lo as int, hi as int),
{
    let mut r = String::new();
    let mut i = lo;
    while i < hi
        invariant
            lo <= i <= hi <= v.len(),
            r@ == v@.subrange(lo as int, i as int),
        decreases hi - i,
    {
        push_char(&mut r, v[i]);
        assert(v@.subrange(lo as int, i + 1) == v@.subrange(lo as int, i as int).push(v@[i as int]));
        i += 1;
    }
    r
}

/// The concatenation of two strings.
pub fn concat(a: &str, b: &str) -> (r: String)
    ensures
        r@ == a@ + b@,
{
    let mut r = a.to_owned();
    r.append(b);
    r
}

/// Index of the first non-whitespace character of `v[lo..hi]` (or `hi`).
fn skip_ws(v: &Vec<char>, lo: usize, hi: usize) -> (i: usize)
    requires
        lo <= hi <= v.len(),
    ensures
        lo <= i <= hi,
        forall|j: int| lo <= j < i ==> is_ws(#[trigger] v@[j]),
        i == hi || !is_ws(v@[i as int]),
{
    let mut i = lo;
    while i < hi && is_whitespace(v[i])
        invariant
            lo <= i <= hi <= v.len(),
            forall|j: int| lo <= j < i ==> is_ws(#[trigger] v@[j]),
        decreases hi - i,
    {
        i += 1;
    }
    i
}

proof fn lemma_trim_bounds(s: Seq<char>, a: int, b: int)
    requires
        0 <= a <= b <= s.len(),
        forall|j: int| 0 <= j < a ==> is_ws(#[trigger] s[j]),
        a == s.len() || !is_ws(s[a]),
        forall|j: int| b <= j < s.len() ==> is_ws(#[trigger] s[j]),
        a == b || !is_ws(s[b - 1]),
    ensures
        trim(s) == s.subrange(a, b),
{
    lemma_lead_ws(s, a);
    let t = trim_start(s);
    assert(t == s.subrange(a, s.len() as int));
    let k = s.len() - b;
    assert forall|j: int| t.len() - k <= j < t.len() implies is_ws(#[trigger] t[j]) by {
        assert(t[j] == s[j + a]);
    }
    if k < t.len() {
        assert(t[t.len() - k - 1] == s[b - 1]);
    }
    lemma_trail_ws(t, k);
    assert(trim_end(t) == s.subrange(a, b));
}

/// Bounds `(a, b)` of the trimmed part of `v`.
fn trim_bounds(v: &Vec<char>) -> (r: (usize, usize))
    ensures
        r.0 <= r.1 <= v.len(),
        trim(v@) == v@.subrange(r.0 as int, r.1 as int),
{
    let a = skip_ws(v, 0, v.len());
    let mut b = v.len();
    while b > a && is_whitespace(v[b - 1])
        invariant
            a <= b <= v.len(),
            forall|j: int| b <= j < v.len() ==> is_ws(#[trigger] v@[j]),
        decreases b,
    {
        b -= 1;
    }
    proof {
        if a == v.len() {
        } else if b == a {
            assert(!is_ws(v@[a as int]));
            assert(false);
        }
        lemma_trim_bounds(v@, a as int, b as int);
    }
    (a, b)
}

/// `str::trim`.
pub fn trim_str(s: &str) -> (r: String)
    ensures
        r@ == trim(s@),
{
    let v = chars_of(s);
    let (a, b) = trim_bounds(&v);
    string_of(&v, a, b)
}

/// `str::starts_with` for a string pattern.
pub fn starts_with_str(s: &str, p: &str) -> (r: bool)
    ensures
        r == starts_with(s@, p@),
{
    let v = chars_of(s);
    let w = chars_of(p);
    seq_starts_with(&v, &w)
}

pub fn seq_starts_with(v: &Vec<char>, w: &Vec<char>) -> (r: bool)
    ensures
        r == starts_with(v@, w@),
{
    if w.len() > v.len() {
        return false;
    }
    let mut i: usize = 0;
    while i < w.len()
        invariant
            w.len() <= v.len(),
            i <= w.len(),
            forall|j: int| 0 <= j < i ==> v@[j] == w@[j],
        decreases w.len() - i,
    {
        if v[i] != w[i] {
            assert(v@.subrange(0, w.len() as int)[i as int] != w@[i as int]);
            return false;
        }
        i += 1;
    }
    assert(v@.subrange(0, w.len() as int) =~= w@);
    true
}

/// Whether `w` occurs in `v` at position `i`.
fn seq_occurs_at(v: &Vec<char>, w: &Vec<char>, i: usize) -> (r: bool)
    ensures
        r == occurs_at(v@, w@, i as int),
{
    if i > v.len() || w.len() > v.len() - i {
        return false;
    }
    let mut k: usize = 0;
    while k < w.len()
        invariant
            i + w.len() <= v.len(),
            k <= w.len(),
            forall|j: int| 0 <= j < k ==> v@[i + j] == w@[j],
        decreases w.len() - k,
    {
        if v[i + k] != w[k] {
            assert(v@.subrange(i as int, i + w.len())[k as int] != w@[k as int]);
            return false;
        }
        k += 1;
    }
    assert(v@.subrange(i as int, i + w.len()) =~= w@);
    true
}

/// `str::contains` for a string pattern.
pub fn contains_str(s: &str, p: &str) -> (r: bool)
    ensures
        r == contains(s@, p@),
{
    let v = chars_of(s);
    let w = chars_of(p);
    seq_contains(&v, &w)
}

pub fn seq_contains(v: &Vec<char>, w: &Vec<char>) -> (r: bool)
    ensures
        r == contains(v@, w@),
{
    if w.len() > v.len() {
        return false;
    }
    let last = v.len() - w.len();
    let mut i: usize = 0;
    loop
        invariant
            w.len() <= v.len(),
            last == v.len() - w.len(),
            i <= last,
            forall|j: int| 0 <= j < i ==> !occurs_at(v@, w@, j),
        ensures
            forall|j: int| 0 <= j <= last ==> !occurs_at(v@, w@, j),
        decreases last - i,
    {
        if seq_occurs_at(v, w, i) {
            return true;
        }
        if i == last {
            break;
        }
        i += 1;
    }
    assert forall|j: int| !occurs_at(v@, w@, j) by {
        if 0 <= j <= last {
        }
    }
    false
}

/// Whether the character `c` occurs in `s`.
pub fn contains_char(s: &str, c: char) -> (r: bool)
    ensures
        r == s@.contains(c),
{
    let v = chars_of(s);
    let mut i: usize = 0;
    while i < v.len()
        invariant
            v@ == s@,
            i <= v.len(),
            forall|j: int| 0 <= j < i ==> v@[j] != c,
        decreases v.len() - i,
    {
        if v[i] == c {
            return true;
        }
        i += 1;
    }
    false
}

/// `str::split` on a character.
pub fn split_char_str(s: &str, c: char) -> (r: Vec<String>)
    ensures
        strs(r@) == split_char(s@, c),
{
    let v = chars_of(s);
    let mut r: Vec<String> = Vec::new();
    let mut start: usize = 0;
    let mut i: usize = 0;
    proof {
        assert(v@.take(0) =~= Seq::<char>::empty());
        assert(strs(r@) =~= Seq::<Seq<char>>::empty());
        assert(v@.subrange(0, 0) =~= Seq::<char>::empty());
    }
    while i < v.len()
        invariant
            v@ == s@,
            start <= i <= v.len(),
            strs(r@).push(v@.subrange(start as int, i as int)) == split_char(v@.take(i as int), c),
        decreases v.len() - i,
    {
        let ghost prev = strs(r@);
        proof {
            assert(v@.take(i + 1).drop_last() == v@.take(i as int));
            assert(v@.take(i + 1).last() == v@[i as int]);
        }
        if v[i] == c {
            let piece = string_of(&v, start, i);
            r.push(piece);
            start = i + 1;
            proof {
                assert(strs(r@) =~= prev.push(piece@));
                assert(v@.subrange(start as int, (i + 1) as int) =~= Seq::<char>::empty());
            }
        } else {
            proof {
                assert(v@.subrange(start as int, i + 1) =~= v@.subrange(start as int, i as int).push(v@[i as int]));
                let sc = split_char(v@.take(i as int), c);
                assert(sc == prev.push(v@.subrange(start as int, i as int)));
                assert(sc.update(sc.len() - 1, sc.last().push(v@[i as int])) =~= prev.push(v@.subrange(start as int, i + 1)));
            }
        }
        i += 1;
    }
    let piece = string_of(&v, start, v.len());
    r.push(piece);
    proof {
        assert(v@.take(v.len() as int) == v@);
        assert(strs(r@) =~= strs(r@.drop_last()).push(piece@));
    }
    r
}


/// Decimal digit character of `d < 10`.
pub open spec fn digit_char(d: nat) -> char {
    ((d + 48) as u32) as char
}

/// Decimal notation of a natural number.
pub open spec fn dec(n: nat) -> Seq<char>
    decreases n,
{
    if n < 10 {
        seq![digit_char(n)]
    } else {
        dec(n / 10).push(digit_char(n % 10))
    }
}

/// Decimal notation of an integer, with a leading `-` when it is negative.
pub open spec fn dec_int(i: int) -> Seq<char> {
    if i < 0 {
        seq!['-'] + dec((-i) as nat)
    } else {
        dec(i as nat)
    }
}

pub open spec fn is_digit(c: char) -> bool {
    '0' <= c && c <= '9'
}

pub open spec fn digit_value(c: char) -> nat {
    (c as int - '0' as int) as nat
}

/// Value of a string of decimal digits.
pub open spec fn digits_value(s: Seq<char>) -> nat
    decreases s.len(),
{
    if s.len() == 0 {
        0
    } else {
        digits_value(s.drop_last()) * 10 + digit_value(s.last())
    }
}

pub open spec fn all_digits(s: Seq<char>) -> bool {
    forall|i: int| 0 <= i < s.len() ==> is_digit(#[trigger] s[i])
}

/// What `u64::from_str` accepts and gives: an optional `+`, then at least one
/// decimal digit, and a value that fits in 64 bits.
pub open spec fn parse_u64(s: Seq<char>) -> Option<u64> {
    let d = if s.len() > 0 && s[0] == '+' { s.subrange(1, s.len() as int) } else { s };
    if d.len() > 0 && all_digits(d) && digits_value(d) <= u64::MAX {
        Some(digits_value(d) as u64)
    } else {
        None
    }
}

fn digit(d: u64) -> (c: char)
    requires
        d < 10,
    ensures
        c == digit_char(d as nat),
{
    let b = (d as u8) + 48;
    assert(b as u32 == (d + 48) as u32);
    b as char
}

/// Appends the decimal notation of `n`.
pub fn push_dec(s: &mut String, n: u64)
    ensures
        final(s)@ == old(s)@ + dec(n as nat),
    decreases n,
{
    if n >= 10 {
        push_dec(s, n / 10);
    }
    push_char(s, digit(n % 10));
    proof {
        if n >= 10 {
            assert(old(s)@ + dec(n as nat) =~= old(s)@ + dec((n / 10) as nat) + seq![digit_char((n % 10) as nat)]);
        } else {
            assert(old(s)@ + dec(n as nat) =~= old(s)@.push(digit_char((n % 10) as nat)));
        }
    }
}

/// Decimal notation of `n`.
pub fn u64_to_string(n: u64) -> (r: String)
    ensures
        r@ == dec(n as nat),
{
    let mut r = String::new();
    push_dec(&mut r, n);
    assert(r@ =~= dec(n as nat));
    r
}

/// Decimal notation of `i`.
pub fn i64_to_string(i: i64) -> (r: String)
    ensures
        r@ == dec_int(i as int),
{
    let mut r = String::new();
    if i < 0 {
        push_char(&mut r, '-');
        let m: u64 = if i == i64::MIN { 9223372036854775808u64 } else { (-i) as u64 };
        push_dec(&mut r, m);
    } else {
        push_dec(&mut r, i as u64);
    }
    assert(r@ =~= dec_int(i as int));
    r
}

/// `u64::from_str`.
pub fn parse_u64_str(s: &str) -> (r: Option<u64>)
    ensures
        r == parse_u64(s@),
{
    let v = chars_of(s);
    let start: usize = if v.len() > 0 && v[0] == '+' { 1 } else { 0 };
    let ghost d = if s@.len() > 0 && s@[0] == '+' { s@.subrange(1, s@.len() as int) } else { s@ };
    assert(d =~= v@.subrange(start as int, v.len() as int));
    if start >= v.len() {
        return None;
    }
    let mut acc: u64 = 0;
    let mut i = start;
    while i < v.len()
        invariant
            v@ == s@,
            d == v@.subrange(start as int, v.len() as int),
            parse_u64(s@) == (if d.len() > 0 && all_digits(d) && digits_value(d) <= u64::MAX {
                Some(digits_value(d) as u64)
            } else {
                None
            }),
            start <= i <= v.len(),
            all_digits(v@.subrange(start as int, i as int)),
            acc as nat == digits_value(v@.subrange(start as int, i as int)),
        decreases v.len() - i,
    {
        let c = v[i];
        let ghost pre = v@.subrange(start as int, i as int);
        assert(v@.subrange(start as int, i + 1) =~= pre.push(c));
        assert(v@.subrange(start as int, i + 1).drop_last() =~= pre);
        if !('0' <= c && c <= '9') {
            assert(d[i - start] == c);
            assert(!is_digit(d[i - start]));
            assert(!all_digits(d));
            return None;
        }
        let dv = (c as u32 - '0' as u32) as u64;
        if acc > (u64::MAX - dv) / 10 {
            proof {
                assert(digits_value(pre.push(c)) == acc * 10 + dv);
                assert(acc * 10 + dv > u64::MAX) by (nonlinear_arith)
                    requires acc > (u64::MAX - dv) / 10, dv < 10;
                lemma_digits_value_mono(d, (i + 1 - start) as int);
                assert(d.take((i + 1 - start) as int) =~= pre.push(c));
                assert(pre.push(c).drop_last() =~= pre);
            }
            return None;
        }
        acc = acc * 10 + dv;
        i += 1;
    }
    assert(v@.subrange(start as int, v.len() as int) == d);
    Some(acc)
}

/// A prefix of digits never has a larger value than the whole.
pub proof fn lemma_digits_value_mono(s: Seq<char>, k: int)
    requires
        0 <= k <= s.len(),
    ensures
        digits_value(s.take(k)) <= digits_value(s),
    decreases s.len() - k,
{
    if k < s.len() {
        lemma_digits_value_mono(s, k + 1);
        assert(s.take(k + 1).drop_last() =~= s.take(k));
    } else {
        assert(s.take(k) =~= s);
    }
}

/// `str::split_whitespace`.
pub fn split_whitespace(s: &str) -> (r: Vec<String>)
    ensures
        strs(r@) == words(s@),
{
    let v = chars_of(s);
    let mut r: Vec<String> = Vec::new();
    let mut in_word = false;
    let mut start: usize = 0;
    let mut i: usize = 0;
    proof {
        assert(v@.take(0) =~= Seq::<char>::empty());
        assert(strs(r@) =~= Seq::<Seq<char>>::empty());
    }
    while i < v.len()
        invariant
            v@ == s@,
            start <= i <= v.len(),
            in_word ==> start < i && !is_ws(v@[i - 1]) && strs(r@).push(v@.subrange(start as int, i as int)) == words(v@.take(i as int)),
            !in_word ==> (i == 0 || is_ws(v@[i - 1])) && strs(r@) == words(v@.take(i as int)),
        decreases v.len() - i,
    {
        let c = v[i];
        let ghost prev = strs(r@);
        proof {
            assert(v@.take(i + 1).drop_last() =~= v@.take(i as int));
            assert(v@.take(i + 1).last() == c);
            if i >= 1 {
                assert(v@.take(i + 1)[i - 1] == v@[i - 1]);
            }
        }
        if is_whitespace(c) {
            if in_word {
                let w = string_of(&v, start, i);
                r.push(w);
                assert(strs(r@) =~= prev.push(w@));
            }
            in_word = false;
        } else {
            if !in_word {
                start = i;
                assert(v@.subrange(start as int, i + 1) =~= seq![c]);
            } else {
                assert(v@.subrange(start as int, i + 1) =~= v@.subrange(start as int, i as int).push(c));
                let ghost ww = words(v@.take(i as int));
                assert(ww =~= prev.push(v@.subrange(start as int, i as int)));
                assert(ww.update(ww.len() - 1, ww.last().push(c)) =~= prev.push(v@.subrange(start as int, i + 1)));
            }
            in_word = true;
        }
        i += 1;
    }
    assert(v@.take(v.len() as int) =~= v@);
    if in_word {
        let w = string_of(&v, start, v.len());
        let ghost prev = strs(r@);
        r.push(w);
        assert(strs(r@) =~= prev.push(w@));
    }
    r
}

/// The strings of `parts` joined with `sep`.
pub fn join_strs(parts: &Vec<String>, sep: &str) -> (r: String)
    ensures
        r@ == join(strs(parts@), sep@),
{
    let mut r = String::new();
    let mut i: usize = 0;
    while i < parts.len()
        invariant
            i <= parts.len(),
            r@ == join(strs(parts@).take(i as int), sep@),
        decreases parts.len() - i,
    {
        let ghost t = strs(parts@).take(i + 1);
        assert(t.drop_last() =~= strs(parts@).take(i as int));
        assert(t.last() == parts@[i as int]@);
        if i > 0 {
            r.append(sep);
        } else {
            assert(strs(parts@).take(0) =~= Seq::<Seq<char>>::empty());
            assert(r@ =~= Seq::<char>::empty());
        }
        r.append(parts[i].as_str());
        if i == 0 {
            assert(r@ =~= t[0]);
        }
        i += 1;
    }
    assert(strs(parts@).take(parts.len() as int) =~= strs(parts@));
    r
}

/// The non-empty lines of the trimmed output, each trimmed.
pub fn output_lines_of(out: &str) -> (r: Vec<String>)
    ensures
        strs(r@) == output_lines(out@),
{
    let t = trim_str(out);
    let mut r: Vec<String> = Vec::new();
    if t.as_str().is_empty() {
        assert(strs(r@) =~= Seq::<Seq<char>>::empty());
        return r;
    }
    let pieces = split_char_str(t.as_str(), '\n');
    let mut i: usize = 0;
    assert(strs(pieces@).take(0) =~= Seq::<Seq<char>>::empty());
    assert(strs(r@) =~= Seq::<Seq<char>>::empty());
    while i < pieces.len()
        invariant
            strs(pieces@) == split_char(trim(out@), '\n'),
            i <= pieces.len(),
            strs(r@) == nonempty_trimmed(strs(pieces@).take(i as int)),
        decreases pieces.len() - i,
    {
        let ghost prev = strs(r@);
        assert(strs(pieces@).take(i + 1).drop_last() =~= strs(pieces@).take(i as int));
        assert(strs(pieces@).take(i + 1).last() == pieces@[i as int]@);
        if !pieces[i].as_str().is_empty() {
            let l = trim_str(pieces[i].as_str());
            r.push(l);
            assert(strs(r@) =~= prev.push(l@));
        }
        i += 1;
    }
    assert(strs(pieces@).take(pieces.len() as int) =~= strs(pieces@));
    r
}

/// `str::strip_prefix` for a string pattern.
pub fn strip_prefix_str(s: &str, p: &str) -> (r: Option<String>)
    ensures
        r is Some <==> starts_with(s@, p@),
        r matches Some(t) ==> t@ == s@.subrange(p@.len() as int, s@.len() as int),
{
    let v = chars_of(s);
    let w = chars_of(p);
    if seq_starts_with(&v, &w) {
        Some(string_of(&v, w.len(), v.len()))
    } else {
        None
    }
}

/// `str::trim_start_matches` for a string pattern.
pub fn trim_start_matches_str(s: &str, p: &str) -> (r: String)
    ensures
        r@ == trim_start_matches(s@, p@),
{
    let v = chars_of(s);
    let w = chars_of(p);
    let mut i: usize = 0;
    if w.len() == 0 {
        assert(v@.subrange(0, v.len() as int) =~= v@);
        return string_of(&v, 0, v.len());
    }
    assert(v@.subrange(0, v.len() as int) =~= v@);
    while i <= v.len() && seq_occurs_at(&v, &w, i)
        invariant
            v@ == s@,
            w@ == p@,
            w.len() > 0,
            i <= v.len(),
            trim_start_matches(v@.subrange(i as int, v.len() as int), w@) == trim_start_matches(s@, p@),
        decreases v.len() - i,
    {
        let ghost t = v@.subrange(i as int, v.len() as int);
        assert(t.subrange(0, w.len() as int) =~= v@.subrange(i as int, i + w.len()));
        assert(t.subrange(w.len() as int, t.len() as int) =~= v@.subrange(i + w.len(), v.len() as int));
        i += w.len();
    }
    proof {
        let t = v@.subrange(i as int, v.len() as int);
        if starts_with(t, w@) {
            assert(t.subrange(0, w.len() as int) =~= v@.subrange(i as int, i + w.len()));
            assert(occurs_at(v@, w@, i as int));
        }
    }
    string_of(&v, i, v.len())
}

/// Whether two strings are equal.
pub fn eq_str(a: &str, b: &str) -> (r: bool)
    ensures
        r == (a@ == b@),
{
    let v = chars_of(a);
    let w = chars_of(b);
    if v.len() != w.len() {
        assert(a@.len() != b@.len());
        return false;
    }
    let mut i: usize = 0;
    while i < v.len()
        invariant
            v@ == a@,
            w@ == b@,
            v.len() == w.len(),
            i <= v.len(),
            forall|j: int| 0 <= j < i ==> v@[j] == w@[j],
        decreases v.len() - i,
    {
        if v[i] != w[i] {
            assert(a@[i as int] != b@[i as int]);
            return false;
        }
        i += 1;
    }
    assert(v@ =~= w@);
    true
}

/// A sequence that starts with a non-whitespace character keeps that start
/// when trimmed.
pub proof fn lemma_trim_keeps_start(s: Seq<char>)
    requires
        s.len() > 0,
        !is_ws(s[0]),
    ensures
        trim(s).len() > 0,
        trim(s)[0] == s[0],
{
    lemma_lead_ws(s, 0);
    let u = trim_start(s);
    assert(u =~= s);
    lemma_trail_nonempty(u);
}

/// A sequence with a non-whitespace character keeps some characters at its end.
pub proof fn lemma_trail_nonempty(u: Seq<char>)
    requires
        u.len() > 0,
        !is_ws(u[0]),
    ensures
        trail_ws(u) < u.len(),
    decreases u.len(),
{
    if u.len() > 1 && is_ws(u.last()) {
        lemma_trail_nonempty(u.drop_last());
    }
}

/// Every line of `output_lines` is its own trim.
pub proof fn lemma_output_lines_trimmed(s: Seq<char>, i: int)
    requires
        0 <= i < output_lines(s).len(),
    ensures
        trim(output_lines(s)[i]) == output_lines(s)[i],
{
    if trim(s).len() > 0 {
        lemma_nonempty_trimmed_trimmed(split_char(trim(s), '\n'), i);
    }
}

pub proof fn lemma_nonempty_trimmed_trimmed(ls: Seq<Seq<char>>, i: int)
    requires
        0 <= i < nonempty_trimmed(ls).len(),
    ensures
        trim(nonempty_trimmed(ls)[i]) == nonempty_trimmed(ls)[i],
    decreases ls.len(),
{
    let r = nonempty_trimmed(ls.drop_last());
    if ls.last().len() > 0 && i == r.len() {
        lemma_trim_twice(ls.last());
    } else {
        lemma_nonempty_trimmed_trimmed(ls.drop_last(), i);
    }
}

/// The trim of a sequence neither starts nor ends with whitespace.
pub proof fn lemma_trim_shape(s: Seq<char>)
    ensures
        trim(s).len() > 0 ==> !is_ws(trim(s)[0]) && !is_ws(trim(s).last()),
{
    lemma_lead_ws_stops(s);
    let u = trim_start(s);
    lemma_trail_ws_stops(u);
    if trim(s).len() > 0 {
        assert(trim(s)[0] == u[0]);
        assert(trim(s).last() == u[u.len() - trail_ws(u) - 1]);
    }
}

pub proof fn lemma_lead_ws_stops(s: Seq<char>)
    ensures
        lead_ws(s) <= s.len(),
        lead_ws(s) < s.len() ==> !is_ws(s[lead_ws(s) as int]),
    decreases s.len(),
{
    if s.len() > 0 && is_ws(s[0]) {
        let t = s.subrange(1, s.len() as int);
        lemma_lead_ws_stops(t);
        if lead_ws(s) < s.len() {
            assert(s[lead_ws(s) as int] == t[lead_ws(t) as int]);
        }
    }
}

pub proof fn lemma_trail_ws_stops(s: Seq<char>)
    ensures
        trail_ws(s) <= s.len(),
        trail_ws(s) < s.len() ==> !is_ws(s[s.len() - trail_ws(s) - 1]),
    decreases s.len(),
{
    if s.len() > 0 && is_ws(s.last()) {
        let t = s.drop_last();
        lemma_trail_ws_stops(t);
        if trail_ws(s) < s.len() {
            assert(s[s.len() - trail_ws(s) - 1] == t[t.len() - trail_ws(t) - 1]);
        }
    }
}

/// A sequence that neither starts nor ends with whitespace is its own trim.
pub proof fn lemma_trim_bounds_of(t: Seq<char>)
    requires
        t.len() > 0,
        !is_ws(t[0]),
        !is_ws(t.last()),
    ensures
        trim(t) == t,
{
    lemma_lead_ws(t, 0);
    assert(trim_start(t) =~= t);
    lemma_trail_ws(t, 0);
    assert(trim_end(t) =~= t);
}

pub proof fn lemma_trim_empty(t: Seq<char>)
    requires
        t.len() == 0,
    ensures
        trim(t).len() == 0,
{
}

/// Trimming twice trims nothing more.
pub proof fn lemma_trim_twice(s: Seq<char>)
    ensures
        trim(trim(s)) == trim(s),
{
    let t = trim(s);
    lemma_trim_shape(s);
    if t.len() > 0 {
        lemma_trim_bounds_of(t);
    } else {
        lemma_trim_empty(t);
        assert(trim(t) =~= t);
    }
}

/// `str::ends_with` for a string pattern.
pub fn ends_with_str(s: &str, p: &str) -> (r: bool)
    ensures
        r == ends_with(s@, p@),
{
    let v = chars_of(s);
    let w = chars_of(p);
    if w.len() > v.len() {
        return false;
    }
    let r = seq_occurs_at(&v, &w, v.len() - w.len());
    assert(occurs_at(v@, w@, v.len() - w.len()) == ends_with(v@, w@));
    r
}

/// `str::trim_start`.
pub fn trim_start_str(s: &str) -> (r: String)
    ensures
        r@ == trim_start(s@),
{
    let v = chars_of(s);
    let a = skip_ws(&v, 0, v.len());
    proof {
        lemma_lead_ws(v@, a as int);
    }
    string_of(&v, a, v.len())
}


/// The view of an optional string.
pub open spec fn opt_str(p: Option<String>) -> Option<Seq<char>> {
    match p {
        Some(s) => Some(s@),
        None => None,
    }
}

/// The view of an optional list of strings.
pub open spec fn opt_strs(l: Option<Vec<String>>) -> Option<Seq<Seq<char>>> {
    match l {
        Some(v) => Some(strs(v@)),
        None => None,
    }
}

/// `str::trim_end_matches` for a string pattern.
pub fn trim_end_matches_str(s: &str, p: &str) -> (r: String)
    ensures
        r@ == trim_end_matches(s@, p@),
{
    let v = chars_of(s);
    let w = chars_of(p);
    if w.len() == 0 {
        assert(v@.subrange(0, v.len() as int) =~= v@);
        return string_of(&v, 0, v.len());
    }
    let mut j: usize = v.len();
    assert(v@.subrange(0, v.len() as int) =~= v@);
    while j >= w.len() && seq_occurs_at(&v, &w, j - w.len())
        invariant
            v@ == s@,
            w@ == p@,
            w.len() > 0,
            j <= v.len(),
            trim_end_matches(v@.subrange(0, j as int), w@) == trim_end_matches(s@, p@),
        decreases j,
    {
        let ghost t = v@.subrange(0, j as int);
        assert(t.subrange(t.len() - w.len(), t.len() as int) =~= v@.subrange(j - w.len(), j as int));
        assert(t.subrange(0, t.len() - w.len()) =~= v@.subrange(0, j - w.len()));
        j -= w.len();
    }
    proof {
        let t = v@.subrange(0, j as int);
        if ends_with(t, w@) {
            assert(t.subrange(t.len() - w.len(), t.len() as int) =~= v@.subrange(j - w.len(), j as int));
            assert(occurs_at(v@, w@, j - w.len()));
        }
    }
    string_of(&v, 0, j)
}

/// `s` with its first `from` turned into `to`.
pub open spec fn replace_first(s: Seq<char>, from: char, to: char) -> Seq<char>
    decreases s.len(),
{
    if s.len() == 0 {
        s
    } else if s[0] == from {
        seq![to] + s.skip(1)
    } else {
        seq![s[0]] + replace_first(s.skip(1), from, to)
    }
}

proof fn lemma_replace_first_prefix(s: Seq<char>, from: char, to: char, i: int)
    requires
        0 <= i <= s.len(),
        forall|j: int| 0 <= j < i ==> s[j] != from,
    ensures
        replace_first(s, from, to) == s.take(i) + replace_first(s.skip(i), from, to),
    decreases i,
{
    if i > 0 {
        let t = s.skip(1);
        assert forall|j: int| 0 <= j < i - 1 implies t[j] != from by {
            assert(t[j] == s[j + 1]);
        }
        lemma_replace_first_prefix(t, from, to, i - 1);
        assert(t.skip(i - 1) =~= s.skip(i));
        assert(seq![s[0]] + t.take(i - 1) =~= s.take(i));
        assert(seq![s[0]] + (t.take(i - 1) + replace_first(s.skip(i), from, to)) =~= s.take(i)
            + replace_first(s.skip(i), from, to));
    } else {
        assert(s.skip(0) =~= s);
        assert(s.take(0) + replace_first(s, from, to) =~= replace_first(s, from, to));
    }
}

/// `str::replacen(from, to, 1)` for characters.
pub fn replace_first_str(s: &str, from: char, to: char) -> (r: String)
    ensures
        r@ == replace_first(s@, from, to),
{
    let v = chars_of(s);
    let mut r = String::new();
    let mut i: usize = 0;
    while i < v.len()
        invariant
            v@ == s@,
            i <= v.len(),
            r@ == v@.take(i as int),
            forall|j: int| 0 <= j < i ==> v@[j] != from,
        decreases v.len() - i,
    {
        if v[i] == from {
            push_char(&mut r, to);
            let rest = string_of(&v, i + 1, v.len());
            let out = concat(r.as_str(), rest.as_str());
            proof {
                lemma_replace_first_prefix(v@, from, to, i as int);
                assert(v@.skip(i as int).skip(1) =~= v@.subrange(i + 1, v.len() as int));
                assert(out@ =~= v@.take(i as int) + replace_first(v@.skip(i as int), from, to));
            }
            return out;
        }
        push_char(&mut r, v[i]);
        i = i + 1;
        assert(r@ =~= v@.take(i as int));
    }
    proof {
        lemma_replace_first_prefix(v@, from, to, i as int);
        assert(v@.skip(i as int) =~= Seq::<char>::empty());
        assert(v@.take(i as int) + Seq::<char>::empty() =~= v@.take(i as int));
    }
    r
}


/// What `i32::from_str` accepts and gives: an optional sign, then at least
/// one decimal digit, and a value that fits in 32 bits.
pub open spec fn parse_i32(s: Seq<char>) -> Option<i32> {
    if s.len() > 0 && s[0] == '-' {
        let d = s.skip(1);
        if d.len() > 0 && all_digits(d) && digits_value(d) <= 0x8000_0000 {
            Some((0 - digits_value(d)) as i32)
        } else {
            None
        }
    } else {
        match parse_u64(s) {
            Some(v) => if v <= i32::MAX {
                Some(v as i32)
            } else {
                None
            },
            None => None,
        }
    }
}

/// `i32::from_str`.
pub fn parse_i32_str(s: &str) -> (r: Option<i32>)
    ensures
        r == parse_i32(s@),
{
    let v = chars_of(s);
    if v.len() > 0 && v[0] == '-' {
        if v.len() == 1 || v[1] == '+' {
            assert(s@.skip(1).len() == 0 || !is_digit(s@.skip(1)[0]));
            return None;
        }
        let rest = string_of(&v, 1, v.len());
        proof {
            assert(rest@ =~= s@.skip(1));
        }
        match parse_u64_str(rest.as_str()) {
            Some(n) => {
                if n <= 0x8000_0000 {
                    let x: i64 = 0 - (n as i64);
                    Some(x as i32)
                } else {
                    None
                }
            },
            None => None,
        }
    } else {
        match parse_u64_str(s) {
            Some(n) => {
                if n <= 0x7fff_ffff {
                    Some(n as i32)
                } else {
                    None
                }
            },
            None => None,
        }
    }
}

} // verus!
