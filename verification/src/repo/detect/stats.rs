//! Code statistics per language: blank, comment and code lines, and how
//! they changed between two counts.
use vstd::prelude::*;

use crate::error::Error;
use crate::exec::git::tag::{date_parses, parse_date_ok};
use crate::repo::detect::Language;
use crate::text::{
    concat, contains_char, owned, parse_i32, parse_i32_str, split_char, split_char_str, starts_with,
    starts_with_str, strs, trim, trim_str, u64_to_string,
};

verus! {

/// The lines of one language in a repository.
#[derive(Debug, Clone, PartialEq, Eq)]
pub struct LanguageStats {
    pub name: String,
    pub files: usize,
    pub blank: usize,
    pub comment: usize,
    pub code: usize,
    pub lines: usize,
    /// The share of all lines, carried as the bit pattern of its floating-point value.
    pub percent: u64,
}

/// How a line counts.
#[derive(Debug, Clone, Copy, PartialEq, Eq, Structural)]
pub enum LineKind {
    Blank,
    Comment,
    Code,
}

/// The views of a language's comment starts.
pub open spec fn comment_starts(comments: Seq<&str>) -> Seq<Seq<char>> {
    comments.map_values(|c: &str| c@)
}

/// How `line` counts: blank once trimmed, a comment where the trimmed line
/// starts with one of `comments`, else code.
pub open spec fn line_kind(line: Seq<char>, comments: Seq<Seq<char>>) -> LineKind {
    let t = trim(line);
    if t.len() == 0 {
        LineKind::Blank
    } else if exists|k: int| 0 <= k < comments.len() && starts_with(t, #[trigger] comments[k]) {
        LineKind::Comment
    } else {
        LineKind::Code
    }
}

/// How many of `lines` count as `kind`.
pub open spec fn count_kind(lines: Seq<Seq<char>>, comments: Seq<Seq<char>>, kind: LineKind) -> nat
    decreases lines.len(),
{
    if lines.len() == 0 {
        0
    } else {
        count_kind(lines.drop_last(), comments, kind) + if line_kind(lines.last(), comments) == kind {
            1nat
        } else {
            0nat
        }
    }
}

proof fn lemma_count_total(lines: Seq<Seq<char>>, comments: Seq<Seq<char>>)
    ensures
        count_kind(lines, comments, LineKind::Blank) + count_kind(lines, comments, LineKind::Comment)
            + count_kind(lines, comments, LineKind::Code) == lines.len(),
    decreases lines.len(),
{
    if lines.len() > 0 {
        lemma_count_total(lines.drop_last(), comments);
    }
}

/// How `line` counts.
fn kind_of(line: &str, comments: &Vec<&str>) -> (r: LineKind)
    ensures
        r == line_kind(line@, comment_starts(comments@)),
{
    let t = trim_str(line);
    if t.as_str().is_empty() {
        return LineKind::Blank;
    }
    let mut i: usize = 0;
    while i < comments.len()
        invariant
            i <= comments.len(),
            t@ == trim(line@),
            t@.len() > 0,
            forall|k: int| 0 <= k < i ==> !starts_with(t@, #[trigger] comment_starts(comments@)[k]),
        decreases comments.len() - i,
    {
        if starts_with_str(t.as_str(), comments[i]) {
            assert(comment_starts(comments@)[i as int] == comments@[i as int]@);
            return LineKind::Comment;
        }
        assert(comment_starts(comments@)[i as int] == comments@[i as int]@);
        i = i + 1;
    }
    LineKind::Code
}

/// The views of a list of lines.
pub open spec fn line_views(lines: Seq<String>) -> Seq<Seq<char>> {
    lines.map_values(|l: String| l@)
}

/// The lines of a file of `language` added to `stats`: each line blank,
/// a comment or code.
pub fn count_lines(stats: &mut LanguageStats, lines: &Vec<String>, language: &Language)
    requires
        old(stats).blank + old(stats).comment + old(stats).code + lines.len() <= usize::MAX,
    ensures
        final(stats).blank == old(stats).blank + count_kind(line_views(lines@), comment_starts(language.comments@), LineKind::Blank),
        final(stats).comment == old(stats).comment + count_kind(line_views(lines@), comment_starts(language.comments@), LineKind::Comment),
        final(stats).code == old(stats).code + count_kind(line_views(lines@), comment_starts(language.comments@), LineKind::Code),
        final(stats).name == old(stats).name,
        final(stats).files == old(stats).files,
        final(stats).lines == old(stats).lines,
        final(stats).percent == old(stats).percent,
{
    let ghost cs = comment_starts(language.comments@);
    let ghost ls = line_views(lines@);
    let mut i: usize = 0;
    while i < lines.len()
        invariant
            i <= lines.len(),
            cs == comment_starts(language.comments@),
            ls == line_views(lines@),
            old(stats).blank + old(stats).comment + old(stats).code + lines.len() <= usize::MAX,
            stats.blank == old(stats).blank + count_kind(ls.take(i as int), cs, LineKind::Blank),
            stats.comment == old(stats).comment + count_kind(ls.take(i as int), cs, LineKind::Comment),
            stats.code == old(stats).code + count_kind(ls.take(i as int), cs, LineKind::Code),
            stats.name == old(stats).name,
            stats.files == old(stats).files,
            stats.lines == old(stats).lines,
            stats.percent == old(stats).percent,
        decreases lines.len() - i,
    {
        proof {
            assert(ls.take(i + 1).drop_last() =~= ls.take(i as int));
            assert(ls[i as int] == lines@[i as int]@);
            lemma_count_total(ls.take(i as int), cs);
        }
        match kind_of(lines[i].as_str(), &language.comments) {
            LineKind::Blank => stats.blank = stats.blank + 1,
            LineKind::Comment => stats.comment = stats.comment + 1,
            LineKind::Code => stats.code = stats.code + 1,
        }
        i = i + 1;
    }
    proof {
        assert(ls.take(lines.len() as int) =~= ls);
    }
}


/// The lines of each file, as views.
pub open spec fn files_views(files: Seq<Vec<String>>) -> Seq<Seq<Seq<char>>> {
    files.map_values(|f: Vec<String>| line_views(f@))
}

/// How many lines of all `files` count as `kind`.
pub open spec fn total_kind(files: Seq<Seq<Seq<char>>>, comments: Seq<Seq<char>>, kind: LineKind) -> nat
    decreases files.len(),
{
    if files.len() == 0 {
        0
    } else {
        total_kind(files.drop_last(), comments, kind) + count_kind(files.last(), comments, kind)
    }
}

/// How many lines all `files` have.
pub open spec fn total_lines(files: Seq<Seq<Seq<char>>>) -> nat
    decreases files.len(),
{
    if files.len() == 0 {
        0
    } else {
        total_lines(files.drop_last()) + files.last().len()
    }
}

proof fn lemma_total_lines_prefix(files: Seq<Seq<Seq<char>>>, k: int)
    requires
        0 <= k <= files.len(),
    ensures
        total_lines(files.take(k)) <= total_lines(files),
    decreases files.len() - k,
{
    if k < files.len() {
        lemma_total_lines_prefix(files, k + 1);
        assert(files.take(k + 1).drop_last() =~= files.take(k));
    } else {
        assert(files.take(k) =~= files);
    }
}

impl LanguageStats {
    /// The statistics of `language` over its files, each given by its lines:
    /// none where no line was counted.
    pub fn of_files(language: &Language, files: &Vec<Vec<String>>) -> (r: Option<LanguageStats>)
        requires
            total_lines(files_views(files@)) <= usize::MAX,
        ensures
            ({
                let fs = files_views(files@);
                let cs = comment_starts(language.comments@);
                match r {
                    Some(st) => {
                        &&& st.name@ == language.name@
                        &&& st.files == files.len()
                        &&& st.blank == total_kind(fs, cs, LineKind::Blank)
                        &&& st.comment == total_kind(fs, cs, LineKind::Comment)
                        &&& st.code == total_kind(fs, cs, LineKind::Code)
                        &&& st.lines == 0
                        &&& st.percent == 0
                        &&& st.blank + st.comment + st.code == total_lines(fs)
                        &&& st.blank + st.comment + st.code > 0
                    },
                    None => total_kind(fs, cs, LineKind::Blank) == 0 && total_kind(fs, cs, LineKind::Comment) == 0
                        && total_kind(fs, cs, LineKind::Code) == 0 && total_lines(fs) == 0,
                }
            }),
    {
        let ghost fs = files_views(files@);
        let ghost cs = comment_starts(language.comments@);
        let mut st = LanguageStats {
            name: crate::text::owned(language.name),
            files: files.len(),
            blank: 0,
            comment: 0,
            code: 0,
            lines: 0,
            percent: 0,
        };
        let mut i: usize = 0;
        while i < files.len()
            invariant
                i <= files.len(),
                fs == files_views(files@),
                cs == comment_starts(language.comments@),
                total_lines(fs) <= usize::MAX,
                st.name@ == language.name@,
                st.files == files.len(),
                st.lines == 0,
                st.percent == 0,
                st.blank == total_kind(fs.take(i as int), cs, LineKind::Blank),
                st.comment == total_kind(fs.take(i as int), cs, LineKind::Comment),
                st.code == total_kind(fs.take(i as int), cs, LineKind::Code),
                st.blank + st.comment + st.code == total_lines(fs.take(i as int)),
            decreases files.len() - i,
        {
            proof {
                assert(fs.take(i + 1).drop_last() =~= fs.take(i as int));
                assert(fs[i as int] == line_views(files@[i as int]@));
                lemma_total_lines_prefix(fs, i + 1);
                lemma_count_total(fs[i as int], cs);
            }
            count_lines(&mut st, &files[i], language);
            i = i + 1;
        }
        proof {
            assert(fs.take(files.len() as int) =~= fs);
        }
        if st.blank == 0 && st.comment == 0 && st.code == 0 {
            None
        } else {
            Some(st)
        }
    }
}


/// How the lines of one language changed between two counts.
#[derive(Debug, Clone, PartialEq, Eq)]
pub struct LanguageStatsChange {
    pub name: String,
    pub files: i64,
    pub blank: i64,
    pub comment: i64,
    pub code: i64,
    pub lines: i64,
    /// How many blank, comment and code lines came or went.
    pub lines_abs: u64,
}

/// What a change is, as plain values.
pub struct ChangeRecord {
    pub name: Seq<char>,
    pub files: int,
    pub blank: int,
    pub comment: int,
    pub code: int,
    pub lines: int,
    pub lines_abs: int,
}

impl View for LanguageStatsChange {
    type V = ChangeRecord;

    open spec fn view(&self) -> ChangeRecord {
        ChangeRecord {
            name: self.name@,
            files: self.files as int,
            blank: self.blank as int,
            comment: self.comment as int,
            code: self.code as int,
            lines: self.lines as int,
            lines_abs: self.lines_abs as int,
        }
    }
}

pub open spec fn change_views(v: Seq<LanguageStatsChange>) -> Seq<ChangeRecord> {
    v.map_values(|c: LanguageStatsChange| c@)
}

pub open spec fn abs(x: int) -> int {
    if x < 0 {
        -x
    } else {
        x
    }
}

/// A language that is new: all its lines came.
pub open spec fn added(s: LanguageStats) -> ChangeRecord {
    ChangeRecord {
        name: s.name@,
        files: s.files as int,
        blank: s.blank as int,
        comment: s.comment as int,
        code: s.code as int,
        lines: s.lines as int,
        lines_abs: s.lines as int,
    }
}

/// A language that is gone: all its lines went.
pub open spec fn dropped(s: LanguageStats) -> ChangeRecord {
    ChangeRecord {
        name: s.name@,
        files: -(s.files as int),
        blank: -(s.blank as int),
        comment: -(s.comment as int),
        code: -(s.code as int),
        lines: -(s.lines as int),
        lines_abs: s.lines as int,
    }
}

/// A language counted both times: the differences.
pub open spec fn changed(s: LanguageStats, o: LanguageStats) -> ChangeRecord {
    ChangeRecord {
        name: s.name@,
        files: s.files - o.files,
        blank: s.blank - o.blank,
        comment: s.comment - o.comment,
        code: s.code - o.code,
        lines: s.lines - o.lines,
        lines_abs: abs(s.blank - o.blank) + abs(s.comment - o.comment) + abs(s.code - o.code),
    }
}

pub open spec fn unchanged(s: LanguageStats, o: LanguageStats) -> bool {
    &&& s.files == o.files
    &&& s.blank == o.blank
    &&& s.comment == o.comment
    &&& s.code == o.code
    &&& s.lines == o.lines
}

/// No later entry of `old` has the name of entry `i`.
pub open spec fn is_last(old: Seq<LanguageStats>, i: int) -> bool {
    forall|j: int| i < j < old.len() ==> old[j].name@ != old[i].name@
}

/// The entries among the first `k` of `old` whose name does not come again.
pub open spec fn keep_last(old: Seq<LanguageStats>, k: int) -> Seq<LanguageStats>
    decreases k,
{
    if k <= 0 {
        Seq::empty()
    } else {
        let d = keep_last(old, k - 1);
        if is_last(old, k - 1) {
            d.push(old[k - 1])
        } else {
            d
        }
    }
}

pub open spec fn has_name(m: Seq<LanguageStats>, n: Seq<char>) -> bool {
    exists|k: int| 0 <= k < m.len() && #[trigger] m[k].name@ == n
}

pub open spec fn is_first_with(m: Seq<LanguageStats>, n: Seq<char>, k: int) -> bool {
    &&& 0 <= k < m.len()
    &&& m[k].name@ == n
    &&& forall|j: int| 0 <= j < k ==> m[j].name@ != n
}

pub open spec fn first_with(m: Seq<LanguageStats>, n: Seq<char>) -> int {
    choose|k: int| is_first_with(m, n, k)
}

/// The changes of the languages of `cur` against the earlier count `m`, and
/// the names of `m` that were met.
pub open spec fn current_changes(m: Seq<LanguageStats>, cur: Seq<LanguageStats>) -> (Seq<ChangeRecord>, Seq<Seq<char>>)
    decreases cur.len(),
{
    if cur.len() == 0 {
        (Seq::empty(), Seq::empty())
    } else {
        let p = current_changes(m, cur.drop_last());
        let s = cur.last();
        if has_name(m, s.name@) && !p.1.contains(s.name@) {
            let o = m[first_with(m, s.name@)];
            (if unchanged(s, o) {
                p.0
            } else {
                p.0.push(changed(s, o))
            }, p.1.push(s.name@))
        } else {
            (p.0.push(added(s)), p.1)
        }
    }
}

/// The languages of `m` that were not met: gone.
pub open spec fn dropped_changes(m: Seq<LanguageStats>, met: Seq<Seq<char>>) -> Seq<ChangeRecord>
    decreases m.len(),
{
    if m.len() == 0 {
        Seq::empty()
    } else {
        let d = dropped_changes(m.drop_last(), met);
        if met.contains(m.last().name@) {
            d
        } else {
            d.push(dropped(m.last()))
        }
    }
}

/// Every change between the counts `old` and `cur`: each language of `cur`
/// that is new or changed, then each language of `old` that is gone. Of two
/// entries of `old` with one name the later counts.
pub open spec fn all_changes(old: Seq<LanguageStats>, cur: Seq<LanguageStats>) -> Seq<ChangeRecord> {
    let m = keep_last(old, old.len() as int);
    let p = current_changes(m, cur);
    p.0 + dropped_changes(m, p.1)
}

/// How many lines came or went in all `cs`.
pub open spec fn lines_total(cs: Seq<ChangeRecord>) -> int
    decreases cs.len(),
{
    if cs.len() == 0 {
        0
    } else {
        lines_total(cs.drop_last()) + cs.last().lines_abs
    }
}

/// Most lines changed first.
pub open spec fn sorted_by_lines(cs: Seq<ChangeRecord>) -> bool {
    forall|i: int, j: int| 0 <= i < j < cs.len() ==> #[trigger] cs[i].lines_abs >= #[trigger] cs[j].lines_abs
}

/// The largest count that the signed differences hold: a third of `i64::MAX`.
pub const COUNT_BOUND: u64 = 3074457345618258602;

pub open spec fn within_bounds(s: LanguageStats) -> bool {
    &&& s.files <= COUNT_BOUND
    &&& s.blank <= COUNT_BOUND
    &&& s.comment <= COUNT_BOUND
    &&& s.code <= COUNT_BOUND
    &&& s.lines <= COUNT_BOUND
}


proof fn lemma_first_with(m: Seq<LanguageStats>, n: Seq<char>, k: int)
    requires
        is_first_with(m, n, k),
    ensures
        first_with(m, n) == k,
{
    let c = first_with(m, n);
    assert(is_first_with(m, n, c));
    if c < k {
        assert(m[c].name@ != n);
    }
    if k < c {
        assert(m[k].name@ != n);
    }
}

/// The positions in `old` of the entries whose name does not come again, in order.
fn last_entries(old: &Vec<LanguageStats>) -> (keys: Vec<usize>)
    ensures
        keys.len() == keep_last(old@, old.len() as int).len(),
        forall|t: int|
            0 <= t < keys.len() ==> (#[trigger] keys@[t]) < old.len() && old@[keys@[t] as int] == keep_last(
                old@,
                old.len() as int,
            )[t],
{
    let mut keys: Vec<usize> = Vec::new();
    let mut i: usize = 0;
    while i < old.len()
        invariant
            i <= old.len(),
            keys.len() == keep_last(old@, i as int).len(),
            forall|t: int|
                0 <= t < keys.len() ==> (#[trigger] keys@[t]) < old.len() && old@[keys@[t] as int] == keep_last(
                    old@,
                    i as int,
                )[t],
        decreases old.len() - i,
    {
        let mut j: usize = i + 1;
        let mut last = true;
        while j < old.len()
            invariant
                i < old.len(),
                i + 1 <= j <= old.len(),
                last == forall|q: int| i < q < j ==> old@[q].name@ != old@[i as int].name@,
            decreases old.len() - j,
        {
            if crate::text::eq_str(old[j].name.as_str(), old[i].name.as_str()) {
                last = false;
            }
            j = j + 1;
        }
        if last {
            keys.push(i);
        }
        i = i + 1;
    }
    keys
}

/// Where among the entries `keys` of `old` the first with the name `n` stands.
fn find_first(old: &Vec<LanguageStats>, keys: &Vec<usize>, n: &str, Ghost(m): Ghost<Seq<LanguageStats>>) -> (r: Option<usize>)
    requires
        keys.len() == m.len(),
        forall|t: int| 0 <= t < keys.len() ==> (#[trigger] keys@[t]) < old.len() && old@[keys@[t] as int] == m[t],
    ensures
        match r {
            Some(k) => is_first_with(m, n@, k as int),
            None => !has_name(m, n@),
        },
{
    let mut t: usize = 0;
    while t < keys.len()
        invariant
            t <= keys.len(),
            keys.len() == m.len(),
            forall|q: int| 0 <= q < keys.len() ==> (#[trigger] keys@[q]) < old.len() && old@[keys@[q] as int] == m[q],
            forall|q: int| 0 <= q < t ==> m[q].name@ != n@,
        decreases keys.len() - t,
    {
        let x = keys[t];
        assert(old@[keys@[t as int] as int] == m[t as int]);
        if crate::text::eq_str(old[x].name.as_str(), n) {
            return Some(t);
        }
        t = t + 1;
    }
    None
}

fn added_change(s: &LanguageStats) -> (c: LanguageStatsChange)
    requires
        within_bounds(*s),
    ensures
        c@ == added(*s),
{
    LanguageStatsChange {
        name: crate::text::owned(s.name.as_str()),
        files: s.files as i64,
        blank: s.blank as i64,
        comment: s.comment as i64,
        code: s.code as i64,
        lines: s.lines as i64,
        lines_abs: s.lines as u64,
    }
}

fn dropped_change(s: &LanguageStats) -> (c: LanguageStatsChange)
    requires
        within_bounds(*s),
    ensures
        c@ == dropped(*s),
{
    LanguageStatsChange {
        name: crate::text::owned(s.name.as_str()),
        files: -(s.files as i64),
        blank: -(s.blank as i64),
        comment: -(s.comment as i64),
        code: -(s.code as i64),
        lines: -(s.lines as i64),
        lines_abs: s.lines as u64,
    }
}

fn abs_i64(x: i64) -> (r: i64)
    requires
        x > i64::MIN,
    ensures
        r == abs(x as int),
{
    if x < 0 {
        -x
    } else {
        x
    }
}

/// The change of `s` against `o`; none where nothing changed.
fn changed_change(s: &LanguageStats, o: &LanguageStats) -> (r: Option<LanguageStatsChange>)
    requires
        within_bounds(*s),
        within_bounds(*o),
    ensures
        match r {
            Some(c) => !unchanged(*s, *o) && c@ == changed(*s, *o),
            None => unchanged(*s, *o),
        },
{
    let files = s.files as i64 - o.files as i64;
    let blank = s.blank as i64 - o.blank as i64;
    let comment = s.comment as i64 - o.comment as i64;
    let code = s.code as i64 - o.code as i64;
    let lines = s.lines as i64 - o.lines as i64;
    if files == 0 && blank == 0 && comment == 0 && code == 0 && lines == 0 {
        return None;
    }
    let lines_abs = abs_i64(blank) + abs_i64(comment) + abs_i64(code);
    Some(
        LanguageStatsChange {
            name: crate::text::owned(s.name.as_str()),
            files,
            blank,
            comment,
            code,
            lines,
            lines_abs: lines_abs as u64,
        },
    )
}


proof fn lemma_lines_total_prefix(cs: Seq<ChangeRecord>, k: int)
    requires
        0 <= k <= cs.len(),
        forall|i: int| 0 <= i < cs.len() ==> (#[trigger] cs[i]).lines_abs >= 0,
    ensures
        lines_total(cs.take(k)) <= lines_total(cs),
        lines_total(cs.take(k)) >= 0,
    decreases cs.len() - k,
{
    if k < cs.len() {
        lemma_lines_total_prefix(cs, k + 1);
        assert(cs.take(k + 1).drop_last() =~= cs.take(k));
    } else {
        assert(cs.take(k) =~= cs);
    }
    lemma_lines_total_nonneg(cs.take(k));
}

proof fn lemma_lines_total_nonneg(cs: Seq<ChangeRecord>)
    requires
        forall|i: int| 0 <= i < cs.len() ==> (#[trigger] cs[i]).lines_abs >= 0,
    ensures
        lines_total(cs) >= 0,
    decreases cs.len(),
{
    if cs.len() > 0 {
        assert forall|i: int| 0 <= i < cs.drop_last().len() implies (#[trigger] cs.drop_last()[i]).lines_abs >= 0 by {
            assert(cs.drop_last()[i] == cs[i]);
        }
        lemma_lines_total_nonneg(cs.drop_last());
    }
}

/// Where `x` goes in `v`, which has most lines changed first: after every
/// change with at least as many lines.
fn insert_position(v: &Vec<LanguageStatsChange>, x: u64) -> (k: usize)
    requires
        sorted_by_lines(change_views(v@)),
    ensures
        k <= v.len(),
        forall|i: int| 0 <= i < k ==> (#[trigger] v@[i]).lines_abs >= x,
        k < v.len() ==> v@[k as int].lines_abs < x,
{
    let mut k: usize = 0;
    while k < v.len()
        invariant
            k <= v.len(),
            forall|i: int| 0 <= i < k ==> (#[trigger] v@[i]).lines_abs >= x,
        decreases v.len() - k,
    {
        if v[k].lines_abs < x {
            return k;
        }
        k = k + 1;
    }
    k
}

/// The changes of `v`, most lines changed first.
fn sort_by_lines(v: Vec<LanguageStatsChange>) -> (r: Vec<LanguageStatsChange>)
    ensures
        sorted_by_lines(change_views(r@)),
        change_views(r@).to_multiset() == change_views(v@).to_multiset(),
{
    let mut out: Vec<LanguageStatsChange> = Vec::new();
    let mut rest = v;
    let ghost all = change_views(rest@);
    proof {
        assert(change_views(out@) =~= Seq::<ChangeRecord>::empty());
        assert(all.take(0) =~= Seq::<ChangeRecord>::empty());
    }
    let n = rest.len();
    let mut i: usize = 0;
    while i < n
        invariant
            i <= n,
            n == rest.len(),
            all == change_views(rest@),
            sorted_by_lines(change_views(out@)),
            change_views(out@).to_multiset() == all.take(i as int).to_multiset(),
        decreases n - i,
    {
        let c = rest[i].clone_change();
        let k = insert_position(&out, c.lines_abs);
        let ghost before = change_views(out@);
        let ghost cv = c@;
        proof {
            let gs = before.insert(k as int, cv);
            assert forall|a: int, b: int| 0 <= a < b < gs.len() implies #[trigger] gs[a].lines_abs >= #[trigger] gs[b].lines_abs by {
                if b < k {
                    assert(gs[a] == before[a] && gs[b] == before[b]);
                } else if b == k {
                    assert(gs[a] == before[a] && out@[a].lines_abs >= c.lines_abs);
                } else if a < k {
                    assert(gs[a] == before[a] && gs[b] == before[b - 1]);
                } else if a == k {
                    assert(gs[b] == before[b - 1]);
                    assert(before[k as int].lines_abs < cv.lines_abs);
                    assert(before[k as int].lines_abs >= before[b - 1].lines_abs);
                } else {
                    assert(gs[a] == before[a - 1] && gs[b] == before[b - 1]);
                }
            }
            vstd::seq_lib::to_multiset_insert(before, k as int, cv);
            assert(all.take(i + 1) =~= all.take(i as int).push(cv));
            assert(all[i as int] == cv);
            vstd::seq_lib::to_multiset_build(all.take(i as int), cv);
        }
        out.insert(k, c);
        proof {
            assert(change_views(out@) =~= before.insert(k as int, cv));
        }
        i = i + 1;
    }
    proof {
        assert(all.take(n as int) =~= all);
    }
    out
}

impl LanguageStatsChange {
    /// A copy of the change.
    pub fn clone_change(&self) -> (r: LanguageStatsChange)
        ensures
            r@ == self@,
    {
        LanguageStatsChange {
            name: crate::text::owned(self.name.as_str()),
            files: self.files,
            blank: self.blank,
            comment: self.comment,
            code: self.code,
            lines: self.lines,
            lines_abs: self.lines_abs,
        }
    }
}


impl LanguageStatsChange {
    /// The changes from the count `old` to the count `current` (see
    /// `all_changes`), most lines changed first, with how many lines came or
    /// went in all. The order of changes of as many lines is left open.
    pub fn compare(old: &Vec<LanguageStats>, current: &Vec<LanguageStats>) -> (r: (Vec<LanguageStatsChange>, u64))
        requires
            forall|i: int| 0 <= i < old.len() ==> within_bounds(#[trigger] old@[i]),
            forall|i: int| 0 <= i < current.len() ==> within_bounds(#[trigger] current@[i]),
            lines_total(all_changes(old@, current@)) <= u64::MAX,
        ensures
            change_views(r.0@).to_multiset() == all_changes(old@, current@).to_multiset(),
            sorted_by_lines(change_views(r.0@)),
            r.1 == lines_total(all_changes(old@, current@)),
    {
        let keys = last_entries(old);
        let ghost m = keep_last(old@, old.len() as int);
        let mut out: Vec<LanguageStatsChange> = Vec::new();
        let mut met: Vec<String> = Vec::new();
        let mut i: usize = 0;
        proof {
            assert(current@.take(0) =~= Seq::<LanguageStats>::empty());
            assert(change_views(out@) =~= Seq::<ChangeRecord>::empty());
            assert(strs(met@) =~= Seq::<Seq<char>>::empty());
        }
        while i < current.len()
            invariant
                i <= current.len(),
                m == keep_last(old@, old.len() as int),
                keys.len() == m.len(),
                forall|t: int| 0 <= t < keys.len() ==> (#[trigger] keys@[t]) < old.len() && old@[keys@[t] as int] == m[t],
                forall|q: int| 0 <= q < old.len() ==> within_bounds(#[trigger] old@[q]),
                forall|q: int| 0 <= q < current.len() ==> within_bounds(#[trigger] current@[q]),
                change_views(out@) == current_changes(m, current@.take(i as int)).0,
                strs(met@) == current_changes(m, current@.take(i as int)).1,
            decreases current.len() - i,
        {
            let s = &current[i];
            proof {
                assert(current@.take(i + 1).drop_last() =~= current@.take(i as int));
                assert(current@.take(i + 1).last() == current@[i as int]);
            }
            let found = find_first(old, &keys, s.name.as_str(), Ghost(m));
            let seen = crate::git::contains_string(&met, s.name.as_str());
            let mut matched = false;
            if let Some(k) = found {
                if !seen {
                    matched = true;
                    proof {
                        lemma_first_with(m, s.name@, k as int);
                        assert(m[k as int].name@ == s.name@);
                    }
                    let o = &old[keys[k]];
                    proof {
                        assert(old@[keys@[k as int] as int] == m[k as int]);
                    }
                    if let Some(c) = changed_change(s, o) {
                        proof {
                            assert(change_views(out@.push(c)) =~= change_views(out@).push(c@));
                        }
                        out.push(c);
                    }
                    let x = crate::text::owned(s.name.as_str());
                    proof {
                        crate::text::lemma_strs_push(met@, x);
                    }
                    met.push(x);
                }
            }
            if !matched {
                let c = added_change(s);
                proof {
                    assert(change_views(out@.push(c)) =~= change_views(out@).push(c@));
                }
                out.push(c);
            }
            i = i + 1;
        }
        proof {
            assert(current@.take(current.len() as int) =~= current@);
        }
        let ghost p = current_changes(m, current@);
        let mut t: usize = 0;
        proof {
            assert(m.take(0) =~= Seq::<LanguageStats>::empty());
            assert(p.0 + dropped_changes(m.take(0), p.1) =~= p.0);
        }
        while t < keys.len()
            invariant
                t <= keys.len(),
                p == current_changes(m, current@),
                keys.len() == m.len(),
                forall|q: int| 0 <= q < keys.len() ==> (#[trigger] keys@[q]) < old.len() && old@[keys@[q] as int] == m[q],
                forall|q: int| 0 <= q < old.len() ==> within_bounds(#[trigger] old@[q]),
                strs(met@) == p.1,
                change_views(out@) == p.0 + dropped_changes(m.take(t as int), p.1),
            decreases keys.len() - t,
        {
            let o = &old[keys[t]];
            proof {
                assert(old@[keys@[t as int] as int] == m[t as int]);
                assert(m.take(t + 1).drop_last() =~= m.take(t as int));
                assert(m.take(t + 1).last() == m[t as int]);
            }
            if !crate::git::contains_string(&met, o.name.as_str()) {
                let c = dropped_change(o);
                proof {
                    assert(change_views(out@.push(c)) =~= change_views(out@).push(c@));
                }
                out.push(c);
            }
            t = t + 1;
        }
        proof {
            assert(m.take(keys.len() as int) =~= m);
        }
        let ghost cs = change_views(out@);
        let mut total: u64 = 0;
        let mut j: usize = 0;
        proof {
            assert(cs.take(0) =~= Seq::<ChangeRecord>::empty());
        }
        while j < out.len()
            invariant
                j <= out.len(),
                cs == change_views(out@),
                lines_total(cs) <= u64::MAX,
                total == lines_total(cs.take(j as int)),
            decreases out.len() - j,
        {
            proof {
                assert forall|q: int| 0 <= q < cs.len() implies (#[trigger] cs[q]).lines_abs >= 0 by {
                    assert(cs[q].lines_abs == out@[q].lines_abs as int);
                }
                lemma_lines_total_prefix(cs, j + 1);
                assert(cs.take(j + 1).drop_last() =~= cs.take(j as int));
                assert(cs[j as int].lines_abs == out@[j as int].lines_abs as int);
            }
            total = total + out[j].lines_abs;
            j = j + 1;
        }
        proof {
            assert(cs.take(out.len() as int) =~= cs);
        }
        (sort_by_lines(out), total)
    }
}


/// What a stats name `date` or `date_index` stands for: the date and the
/// index, `-1` for none; or why it stands for nothing.
pub open spec fn stats_name_result(name: Seq<char>, r: Result<(String, i32), Error>) -> bool {
    if name.contains('_') {
        let fields = split_char(name, '_');
        if fields.len() != 2 {
            r matches Err(Error::InvalidStatsName(n)) && n@ == name
        } else if parse_i32(fields[1]) is None {
            r matches Err(Error::InvalidStatsIndex(n)) && n@ == name
        } else if !date_parses(fields[0], "%Y-%m-%d"@) {
            r matches Err(Error::InvalidStatsDate(n)) && n@ == name
        } else {
            r matches Ok(p) && p.0@ == fields[0] && p.1 == parse_i32(fields[1])->0
        }
    } else if !date_parses(name, "%Y-%m-%d"@) {
        r matches Err(Error::InvalidStatsDate(n)) && n@ == name
    } else {
        r matches Ok(p) && p.0@ == name && p.1 == -1
    }
}

/// Splits a stats name into its date and its index (`-1` where it has none).
pub fn parse_stats_name(name: &str) -> (r: Result<(String, i32), Error>)
    ensures
        stats_name_result(name@, r),
{
    let (date, index) = if contains_char(name, '_') {
        let fields = split_char_str(name, '_');
        if fields.len() != 2 {
            return Err(Error::InvalidStatsName(owned(name)));
        }
        proof {
            assert(strs(fields@)[1] == fields@[1]@);
            assert(strs(fields@)[0] == fields@[0]@);
        }
        let index = match parse_i32_str(fields[1].as_str()) {
            Some(i) => i,
            None => return Err(Error::InvalidStatsIndex(owned(name))),
        };
        (owned(fields[0].as_str()), index)
    } else {
        (owned(name), -1i32)
    };
    if !parse_date_ok(date.as_str(), "%Y-%m-%d") {
        return Err(Error::InvalidStatsDate(owned(name)));
    }
    Ok((date, index))
}

/// The name of entry `index` of the stats of `date`: `date_index`.
pub fn stats_name(date: &str, index: u64) -> (r: String)
    ensures
        r@ == date@ + "_"@ + crate::text::dec(index as nat),
{
    let r = concat(date, "_");
    let i = u64_to_string(index);
    concat(r.as_str(), i.as_str())
}

/// Which of `count` entries a stats name's index picks: the last for `-1`
/// (or any negative index).
pub fn stats_index(index: i32, count: usize) -> (r: Result<usize, Error>)
    ensures
        count == 0 ==> r == Err::<usize, Error>(Error::StatsNotFound),
        count > 0 && index < 0 ==> r == Ok::<usize, Error>((count - 1) as usize),
        count > 0 && index >= 0 && index < count ==> r == Ok::<usize, Error>(index as usize),
        count > 0 && index >= 0 && index >= count ==> r == Err::<usize, Error>(
            Error::StatsIndexOutOfBound(index as u64),
        ),
{
    if count == 0 {
        return Err(Error::StatsNotFound);
    }
    let idx: usize = if index < 0 {
        count - 1
    } else {
        index as usize
    };
    if idx >= count {
        return Err(Error::StatsIndexOutOfBound(idx as u64));
    }
    Ok(idx)
}


/// Which entry removing by a stats name's index takes out of `count`
/// entries: none for a negative index, which removes the whole date.
pub fn entry_to_remove(index: i32, count: usize) -> (r: Result<Option<usize>, Error>)
    ensures
        index < 0 ==> r == Ok::<Option<usize>, Error>(None),
        index >= 0 && index < count ==> r == Ok::<Option<usize>, Error>(Some(index as usize)),
        index >= 0 && index >= count ==> r == Err::<Option<usize>, Error>(Error::StatsIndexOutOfBound(index as u64)),
{
    if index < 0 {
        return Ok(None);
    }
    let idx = index as usize;
    if idx >= count {
        return Err(Error::StatsIndexOutOfBound(idx as u64));
    }
    Ok(Some(idx))
}


/// No two entries of `s` share a name.
pub open spec fn distinct_names(s: Seq<LanguageStats>) -> bool {
    forall|i: int, j: int| 0 <= i < j < s.len() ==> #[trigger] s[i].name@ != #[trigger] s[j].name@
}

pub open spec fn stats_names(s: Seq<LanguageStats>) -> Seq<Seq<char>> {
    s.map_values(|x: LanguageStats| x.name@)
}

proof fn lemma_keep_last_distinct(s: Seq<LanguageStats>, k: int)
    requires
        distinct_names(s),
        0 <= k <= s.len(),
    ensures
        keep_last(s, k) == s.take(k),
    decreases k,
{
    if k > 0 {
        lemma_keep_last_distinct(s, k - 1);
        assert(is_last(s, k - 1));
        assert(s.take(k) =~= s.take(k - 1).push(s[k - 1]));
    } else {
        assert(s.take(0) =~= Seq::<LanguageStats>::empty());
    }
}

proof fn lemma_same_changes(s: Seq<LanguageStats>, k: int)
    requires
        distinct_names(s),
        0 <= k <= s.len(),
    ensures
        current_changes(s, s.take(k)).0.len() == 0,
        current_changes(s, s.take(k)).1 == stats_names(s.take(k)),
    decreases k,
{
    if k > 0 {
        lemma_same_changes(s, k - 1);
        let t = s.take(k);
        assert(t.drop_last() =~= s.take(k - 1));
        assert(t.last() == s[k - 1]);
        let n = s[k - 1].name@;
        assert(is_first_with(s, n, k - 1));
        lemma_first_with(s, n, k - 1);
        assert(s[k - 1].name@ == n);
        assert(has_name(s, n));
        let met = stats_names(s.take(k - 1));
        if met.contains(n) {
            let q = choose|q: int| 0 <= q < met.len() && met[q] == n;
            assert(met[q] == s[q].name@);
        }
        assert(stats_names(t) =~= met.push(n));
    } else {
        assert(stats_names(s.take(0)) =~= Seq::<Seq<char>>::empty());
    }
}

proof fn lemma_none_dropped(m: Seq<LanguageStats>, met: Seq<Seq<char>>)
    requires
        forall|i: int| 0 <= i < m.len() ==> met.contains(#[trigger] m[i].name@),
    ensures
        dropped_changes(m, met).len() == 0,
    decreases m.len(),
{
    if m.len() > 0 {
        assert forall|i: int| 0 <= i < m.drop_last().len() implies met.contains(#[trigger] m.drop_last()[i].name@) by {
            assert(m.drop_last()[i] == m[i]);
        }
        lemma_none_dropped(m.drop_last(), met);
        assert(met.contains(m[m.len() - 1].name@));
    }
}

/// A count compared with itself shows no change, where no two of its
/// languages share a name.
pub proof fn law_compare_same(s: Seq<LanguageStats>)
    requires
        distinct_names(s),
    ensures
        all_changes(s, s).len() == 0,
{
    lemma_keep_last_distinct(s, s.len() as int);
    assert(s.take(s.len() as int) =~= s);
    lemma_same_changes(s, s.len() as int);
    let met = stats_names(s);
    assert forall|i: int| 0 <= i < s.len() implies met.contains(#[trigger] s[i].name@) by {
        assert(met[i] == s[i].name@);
    }
    lemma_none_dropped(s, met);
}

} // verus!
