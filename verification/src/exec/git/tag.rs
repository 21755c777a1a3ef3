//! Tags of a repository and the rules that derive a new tag from the latest one.
use std::fmt::Write;

use vstd::prelude::*;

use crate::error::Error;
use crate::exec::git::{git_cmd_spec, GitCmd};
use crate::exec::{check_spec, strs_of, trimmed_stdout, Cmd, CmdResult};
use crate::text::{
    concat, dec, eq_str, join, join_strs, lemma_strs_push, output_lines, owned, push_dec,
    split_char, split_char_str, starts_with, strs,
};

verus! {

/// A tag with the commit it points to.
#[derive(Debug, Clone, PartialEq, Eq)]
pub struct Tag {
    pub name: String,
    pub commit_id: String,
    pub commit_message: String,
}

/// A page of tags to show.
pub struct TagList {
    pub tags: Vec<Tag>,
    pub total: u32,
}

/// The fields of a tag: name, commit id, commit message.
pub type TagFields = (Seq<char>, Seq<char>, Seq<char>);

impl View for Tag {
    type V = TagFields;

    open spec fn view(&self) -> TagFields {
        (self.name@, self.commit_id@, self.commit_message@)
    }
}

pub open spec fn tag_views(ts: Seq<Tag>) -> Seq<TagFields> {
    ts.map_values(|t: Tag| t@)
}

/// The tag a line `<name> <commit> <subject>` describes; lines with fewer than
/// three space-separated fields are skipped.
pub open spec fn tag_of(line: Seq<char>) -> Option<TagFields> {
    let f = split_char(line, ' ');
    if f.len() < 3 {
        None
    } else {
        Some((f[0], f[1], join(f.subrange(2, f.len() as int), " "@)))
    }
}

pub open spec fn keep_tags(ls: Seq<Option<TagFields>>) -> Seq<TagFields>
    decreases ls.len(),
{
    if ls.len() == 0 {
        Seq::empty()
    } else {
        let r = keep_tags(ls.drop_last());
        match ls.last() {
            Some(t) => r.push(t),
            None => r,
        }
    }
}

/// The tags that the lines of `git for-each-ref` describe.
pub open spec fn tags_of(lines: Seq<Seq<char>>) -> Seq<TagFields> {
    keep_tags(lines.map_values(|l: Seq<char>| tag_of(l)))
}

/// The first tag of the list with the given name.
pub open spec fn find_tag(ts: Seq<TagFields>, name: Seq<char>) -> Option<TagFields>
    decreases ts.len(),
{
    if ts.len() == 0 {
        None
    } else if ts[0].0 == name {
        Some(ts[0])
    } else {
        find_tag(ts.subrange(1, ts.len() as int), name)
    }
}

/// How a new tag is derived from the latest one.
#[derive(Debug, Clone, Copy, PartialEq, Eq, Structural)]
pub enum UpdateTagRule {
    Patch,
    Minor,
    Major,
    Date,
    DateDash,
    DateDot,
}

/// The rule a name selects.
pub open spec fn rule_of(s: Seq<char>) -> Option<UpdateTagRule> {
    if s == "patch"@ {
        Some(UpdateTagRule::Patch)
    } else if s == "minor"@ {
        Some(UpdateTagRule::Minor)
    } else if s == "major"@ {
        Some(UpdateTagRule::Major)
    } else if s == "date"@ {
        Some(UpdateTagRule::Date)
    } else if s == "date-dash"@ {
        Some(UpdateTagRule::DateDash)
    } else if s == "date-dot"@ {
        Some(UpdateTagRule::DateDot)
    } else {
        None
    }
}

/// The major, minor and patch numbers and the build metadata of a semantic
/// version, as `semver::Version::parse` reads it (`None` when it rejects it).
pub uninterp spec fn semver_parse(s: Seq<char>) -> Option<(u64, u64, u64, Seq<char>)>;

/// Whether `chrono::NaiveDate::parse_from_str` accepts `tag` in `format`.
pub uninterp spec fn date_parses(tag: Seq<char>, format: Seq<char>) -> bool;

/// `semver::Version::parse`, with the parts that a bumped version keeps.
#[verifier::external_body]
fn parse_semver(s: &str) -> (r: Option<(u64, u64, u64, String)>)
    ensures
        match (r, semver_parse(s@)) {
            (None, None) => true,
            (Some(v), Some(w)) => v.0 == w.0 && v.1 == w.1 && v.2 == w.2 && v.3@ == w.3,
            _ => false,
        },
{
    match semver::Version::parse(s) {
        Ok(v) => Some((v.major, v.minor, v.patch, v.build.as_str().to_string())),
        Err(_) => None,
    }
}

/// `chrono::NaiveDate::parse_from_str(tag, format).is_ok()`.
#[verifier::external_body]
pub(crate) fn parse_date_ok(tag: &str, format: &str) -> (r: bool)
    ensures
        r == date_parses(tag@, format@),
{
    chrono::NaiveDate::parse_from_str(tag, format).is_ok()
}

/// A year as chrono's `%Y` writes it: at least four digits, with a leading
/// sign where it is before 1 BCE or after 9999 CE.
pub open spec fn year_text(y: Seq<char>) -> bool {
    ||| y.len() >= 4 && crate::text::all_digits(y)
    ||| y.len() >= 5 && (y[0] == '+' || y[0] == '-') && crate::text::all_digits(y.skip(1))
}

/// A date as `%Y{sep}%m{sep}%d` writes it: the year, then the month
/// (01 to 12) and the day (01 to 31), each as two digits.
pub open spec fn date_text(s: Seq<char>, sep: char) -> bool {
    &&& s.len() >= 10
    &&& year_text(s.take(s.len() - 6))
    &&& s[s.len() - 6] == sep
    &&& s[s.len() - 3] == sep
    &&& crate::text::all_digits(s.subrange(s.len() - 5, s.len() - 3))
    &&& crate::text::all_digits(s.subrange(s.len() - 2, s.len() as int))
    &&& 1 <= crate::text::digits_value(s.subrange(s.len() - 5, s.len() - 3)) <= 12
    &&& 1 <= crate::text::digits_value(s.subrange(s.len() - 2, s.len() as int)) <= 31
}

/// Two ASCII digits whose value lies in `lo..=hi`.
pub open spec fn two_digits_in(s: Seq<char>, lo: int, hi: int) -> bool {
    s.len() == 2 && crate::text::all_digits(s) && lo <= crate::text::digits_value(s) <= hi
}

/// A format made of literal text and the date items that tag rules hold:
/// every `%` is followed by one of `Y`, `y`, `m`, `M`, `d`, `D`.
pub open spec fn simple_date_format(f: Seq<char>) -> bool
    decreases f.len(),
{
    if f.len() == 0 {
        true
    } else if f[0] != '%' {
        simple_date_format(f.skip(1))
    } else {
        f.len() >= 2 && crate::tag_rule::is_date_letter(f[1]) && simple_date_format(f.skip(2))
    }
}

/// `s` has the shape that chrono writes for the format `f`: each literal
/// character as it is, `%Y` a year (see [`year_text`]), `%y` the year's last
/// two digits, `%m` a month `01` to `12`, `%d` a day `01` to `31`, `%M` a
/// minute `00` to `59`, and `%D` as `%m/%d/%y`.
pub open spec fn date_rendered(f: Seq<char>, s: Seq<char>) -> bool
    decreases f.len(),
{
    if f.len() == 0 {
        s.len() == 0
    } else if f[0] != '%' {
        s.len() > 0 && s[0] == f[0] && date_rendered(f.skip(1), s.skip(1))
    } else if f.len() < 2 {
        false
    } else if f[1] == 'Y' {
        exists|k: int| 4 <= k <= s.len() && #[trigger] year_text(s.take(k)) && date_rendered(f.skip(2), s.skip(k))
    } else if f[1] == 'D' {
        &&& s.len() >= 8
        &&& two_digits_in(s.take(2), 1, 12)
        &&& s[2] == '/'
        &&& two_digits_in(s.subrange(3, 5), 1, 31)
        &&& s[5] == '/'
        &&& two_digits_in(s.subrange(6, 8), 0, 99)
        &&& date_rendered(f.skip(2), s.skip(8))
    } else {
        let (lo, hi) = if f[1] == 'y' {
            (0int, 99int)
        } else if f[1] == 'm' {
            (1int, 12int)
        } else if f[1] == 'd' {
            (1int, 31int)
        } else {
            (0int, 59int)
        };
        &&& crate::tag_rule::is_date_letter(f[1])
        &&& s.len() >= 2
        &&& two_digits_in(s.take(2), lo, hi)
        &&& date_rendered(f.skip(2), s.skip(2))
    }
}

/// The local time now rendered in `format` (`chrono::Local::now().format(..)`
/// written out); `None` when chrono cannot render the format. Which date and
/// time it renders depends on the clock and the time zone, so that is left
/// unsaid. A format of literal text and the items `%Y`, `%y`, `%m`, `%d`,
/// `%M` and `%D` always renders, each literal character as it is and each
/// item in the shape that chrono writes for it; `%Y-%m-%d` and `%Y.%m.%d`
/// in particular give a [`date_text`].
#[verifier::external_body]
pub(crate) fn local_now_format(format: &str) -> (r: Option<String>)
    ensures
        simple_date_format(format@) ==> r is Some && date_rendered(format@, r.unwrap()@),
        format@ == "%Y-%m-%d"@ ==> r is Some && date_text(r.unwrap()@, '-'),
        format@ == "%Y.%m.%d"@ ==> r is Some && date_text(r.unwrap()@, '.'),
{
    let mut s = String::new();
    match write!(s, "{}", chrono::Local::now().format(format)) {
        Ok(()) => Some(s),
        Err(_) => None,
    }
}

/// Today's local date in one of the two date formats of the tag rules:
/// year, month and day, joined by `-` or by `.` as the format says.
fn today(format: &str) -> (r: String)
    requires
        format@ == "%Y-%m-%d"@ || format@ == "%Y.%m.%d"@,
    ensures
        format@ == "%Y-%m-%d"@ ==> date_text(r@, '-'),
        format@ == "%Y.%m.%d"@ ==> date_text(r@, '.'),
{
    match local_now_format(format) {
        Some(s) => s,
        None => {
            assert(false);
            String::new()
        },
    }
}

/// A version with the part that the rule names bumped and the lower parts
/// reset; `None` when the bumped number does not fit.
pub open spec fn bump(rule: UpdateTagRule, v: (u64, u64, u64)) -> Option<(u64, u64, u64)> {
    match rule {
        UpdateTagRule::Patch => if v.2 < u64::MAX { Some((v.0, v.1, (v.2 + 1) as u64)) } else { None },
        UpdateTagRule::Minor => if v.1 < u64::MAX { Some((v.0, (v.1 + 1) as u64, 0)) } else { None },
        UpdateTagRule::Major => if v.0 < u64::MAX { Some(((v.0 + 1) as u64, 0, 0)) } else { None },
        _ => None,
    }
}

/// `M.m.p` followed by `+build` when there is build metadata.
pub open spec fn version_text(v: (u64, u64, u64), build: Seq<char>) -> Seq<char> {
    dec(v.0 as nat) + "."@ + dec(v.1 as nat) + "."@ + dec(v.2 as nat) + if build.len() > 0 {
        "+"@ + build
    } else {
        Seq::empty()
    }
}

/// The part of a tag that is read as a version: without a leading `v`.
pub open spec fn version_part(tag: Seq<char>) -> Seq<char> {
    if starts_with(tag, "v"@) { tag.subrange(1, tag.len() as int) } else { tag }
}

/// What a version rule makes of a tag: `None` when the version part is not a
/// semantic version, `Some(None)` when the bumped number does not fit, else the
/// new tag, which keeps a leading `v` and drops the pre-release.
pub open spec fn apply_version(rule: UpdateTagRule, tag: Seq<char>) -> Option<Option<Seq<char>>> {
    match semver_parse(version_part(tag)) {
        None => None,
        Some(p) => match bump(rule, (p.0, p.1, p.2)) {
            None => Some(None),
            Some(b) => Some(Some(if starts_with(tag, "v"@) { "v"@ + version_text(b, p.3) } else { version_text(b, p.3) })),
        },
    }
}

impl Tag {
    /// The command that lists tags, newest first.
    pub fn list_cmd(cmd: &GitCmd) -> (c: Cmd)
        ensures
            git_cmd_spec(*cmd, seq!["for-each-ref"@, "--sort=-creatordate"@, "refs/tags/"@,
                "--format=%(refname:short) %(objectname:short) %(subject)"@], "List tags"@, c),
    {
        let a: &[&str] = &["for-each-ref", "--sort=-creatordate", "refs/tags/",
            "--format=%(refname:short) %(objectname:short) %(subject)"];
        assert(strs_of(a@) =~= seq!["for-each-ref"@, "--sort=-creatordate"@, "refs/tags/"@,
            "--format=%(refname:short) %(objectname:short) %(subject)"@]);
        cmd.cmd(a, "List tags")
    }

    /// The tag that a line of the listing describes.
    pub fn parse_line(line: &str) -> (r: Option<Tag>)
        ensures
            match tag_of(line@) {
                Some(t) => r matches Some(x) && x@ == t,
                None => r is None,
            },
    {
        let fields = split_char_str(line, ' ');
        if fields.len() < 3 {
            return None;
        }
        let mut rest: Vec<String> = Vec::new();
        let mut i: usize = 2;
        while i < fields.len()
            invariant
                2 <= i <= fields.len(),
                strs(rest@) == strs(fields@).subrange(2, i as int),
            decreases fields.len() - i,
        {
            let ghost prev = rest@;
            let f = fields[i].clone();
            rest.push(f);
            proof {
                lemma_strs_push(prev, f);
                assert(strs(fields@).subrange(2, i + 1) =~= strs(fields@).subrange(2, i as int).push(fields@[i as int]@));
            }
            i += 1;
        }
        Some(Tag {
            name: fields[0].clone(),
            commit_id: fields[1].clone(),
            commit_message: join_strs(&rest, " "),
        })
    }

    /// The tags that `git for-each-ref` reported.
    pub fn list(result: &CmdResult) -> (r: Result<Vec<Tag>, Error>)
        ensures
            check_spec(*result) is Err ==> r == Err::<Vec<Tag>, Error>(check_spec(*result)->Err_0),
            check_spec(*result) is Ok ==> (r matches Ok(v) && tag_views(v@) == tags_of(output_lines(trimmed_stdout(*result)))),
    {
        let lines = result.lines()?;
        let ghost ls = strs(lines@).map_values(|l: Seq<char>| tag_of(l));
        let mut tags: Vec<Tag> = Vec::new();
        let mut i: usize = 0;
        assert(ls.take(0) =~= Seq::<Option<TagFields>>::empty());
        assert(tag_views(tags@) =~= Seq::<TagFields>::empty());
        while i < lines.len()
            invariant
                ls == strs(lines@).map_values(|l: Seq<char>| tag_of(l)),
                i <= lines.len(),
                tag_views(tags@) == keep_tags(ls.take(i as int)),
            decreases lines.len() - i,
        {
            assert(ls.take(i + 1) =~= ls.take(i as int).push(tag_of(lines@[i as int]@)));
            assert(ls.take(i + 1).drop_last() =~= ls.take(i as int));
            let ghost prev = tags@;
            match Tag::parse_line(lines[i].as_str()) {
                Some(t) => {
                    tags.push(t);
                    assert(tag_views(tags@) =~= tag_views(prev).push(t@));
                },
                None => {},
            }
            i += 1;
        }
        assert(ls.take(lines.len() as int) =~= ls);
        Ok(tags)
    }

    /// The tag named `name` among those that `git for-each-ref` reported.
    pub fn get(result: &CmdResult, name: &str) -> (r: Result<Tag, Error>)
        ensures
            check_spec(*result) is Err ==> r == Err::<Tag, Error>(check_spec(*result)->Err_0),
            check_spec(*result) is Ok ==> match find_tag(tags_of(output_lines(trimmed_stdout(*result))), name@) {
                Some(t) => r matches Ok(x) && x@ == t,
                None => r matches Err(Error::TagNotFound(n)) && n@ == name@,
            },
    {
        let tags = Tag::list(result)?;
        let ghost tv = tag_views(tags@);
        let mut i: usize = 0;
        assert(tv.subrange(0, tv.len() as int) =~= tv);
        while i < tags.len()
            invariant
                tv == tag_views(tags@),
                check_spec(*result) is Ok,
                tv == tags_of(output_lines(trimmed_stdout(*result))),
                i <= tags.len(),
                find_tag(tv.subrange(i as int, tv.len() as int), name@) == find_tag(tv, name@),
            decreases tags.len() - i,
        {
            let ghost rest = tv.subrange(i as int, tv.len() as int);
            assert(rest[0] == tags@[i as int]@);
            if eq_str(tags[i].name.as_str(), name) {
                return Ok(Tag {
                    name: tags[i].name.clone(),
                    commit_id: tags[i].commit_id.clone(),
                    commit_message: tags[i].commit_message.clone(),
                });
            }
            assert(rest.subrange(1, rest.len() as int) =~= tv.subrange(i + 1, tv.len() as int));
            i += 1;
        }
        Err(Error::TagNotFound(owned(name)))
    }

    /// The command that names the latest tag.
    pub fn describe_cmd(cmd: &GitCmd) -> (c: Cmd)
        ensures
            git_cmd_spec(*cmd, seq!["describe"@, "--tags"@, "--abbrev=0"@], "Get latest tag"@, c),
    {
        let a: &[&str] = &["describe", "--tags", "--abbrev=0"];
        assert(strs_of(a@) =~= seq!["describe"@, "--tags"@, "--abbrev=0"@]);
        cmd.cmd(a, "Get latest tag")
    }

    /// The latest tag: the one that `git describe` named, looked up among those
    /// that `git for-each-ref` reported.
    pub fn get_latest(describe: &CmdResult, list: &CmdResult) -> (r: Result<Tag, Error>)
        ensures
            check_spec(*describe) is Err ==> r == Err::<Tag, Error>(check_spec(*describe)->Err_0),
            check_spec(*describe) is Ok && trimmed_stdout(*describe).len() == 0 ==> r == Err::<Tag, Error>(Error::NoLatestTag),
            check_spec(*describe) is Ok && trimmed_stdout(*describe).len() > 0 && check_spec(*list) is Err ==> r == Err::<Tag, Error>(check_spec(*list)->Err_0),
            check_spec(*describe) is Ok && trimmed_stdout(*describe).len() > 0 && check_spec(*list) is Ok ==>
                match find_tag(tags_of(output_lines(trimmed_stdout(*list))), trimmed_stdout(*describe)) {
                    Some(t) => r matches Ok(x) && x@ == t,
                    None => r matches Err(Error::TagNotFound(n)) && n@ == trimmed_stdout(*describe),
                },
    {
        let name = describe.output()?;
        if name.as_str().is_empty() {
            return Err(Error::NoLatestTag);
        }
        Tag::get(list, name.as_str())
    }
}

impl UpdateTagRule {
    /// The rule a name selects.
    pub fn from_str(s: &str) -> (r: Option<UpdateTagRule>)
        ensures
            r == rule_of(s@),
    {
        if eq_str(s, "patch") {
            Some(UpdateTagRule::Patch)
        } else if eq_str(s, "minor") {
            Some(UpdateTagRule::Minor)
        } else if eq_str(s, "major") {
            Some(UpdateTagRule::Major)
        } else if eq_str(s, "date") {
            Some(UpdateTagRule::Date)
        } else if eq_str(s, "date-dash") {
            Some(UpdateTagRule::DateDash)
        } else if eq_str(s, "date-dot") {
            Some(UpdateTagRule::DateDot)
        } else {
            None
        }
    }

    /// The next tag after `tag`. Version rules bump the semantic version (see
    /// [`apply_version`]); date rules give today's date, `date` in the format
    /// (`YYYY-MM-DD` or `YYYY.MM.DD`) that `tag` already has.
    pub fn apply(&self, tag: &str) -> (r: Result<String, Error>)
        ensures
            (*self == UpdateTagRule::Patch || *self == UpdateTagRule::Minor || *self == UpdateTagRule::Major) ==>
                match apply_version(*self, tag@) {
                    None => r matches Err(Error::InvalidSemver(t)) && t@ == version_part(tag@),
                    Some(None) => r == Err::<String, Error>(Error::VersionOverflow),
                    Some(Some(t)) => r matches Ok(x) && x@ == t,
                },
            *self == UpdateTagRule::Date ==> (r is Ok <==> (date_parses(tag@, "%Y-%m-%d"@) || date_parses(tag@, "%Y.%m.%d"@))),
            *self == UpdateTagRule::Date ==> (r matches Err(e) ==> (e matches Error::InvalidDateTag(t) && t@ == tag@)),
            *self == UpdateTagRule::Date && date_parses(tag@, "%Y-%m-%d"@) ==> (r matches Ok(t) && date_text(t@, '-')),
            *self == UpdateTagRule::Date && !date_parses(tag@, "%Y-%m-%d"@) && date_parses(tag@, "%Y.%m.%d"@) ==> (r matches Ok(
                t,
            ) && date_text(t@, '.')),
            *self == UpdateTagRule::DateDash ==> (r matches Ok(t) && date_text(t@, '-')),
            *self == UpdateTagRule::DateDot ==> (r matches Ok(t) && date_text(t@, '.')),
    {
        match self {
            UpdateTagRule::Date => {
                let format = if parse_date_ok(tag, "%Y-%m-%d") {
                    "%Y-%m-%d"
                } else if parse_date_ok(tag, "%Y.%m.%d") {
                    "%Y.%m.%d"
                } else {
                    return Err(Error::InvalidDateTag(owned(tag)));
                };
                Ok(today(format))
            },
            UpdateTagRule::DateDash => Ok(today("%Y-%m-%d")),
            UpdateTagRule::DateDot => Ok(today("%Y.%m.%d")),
            _ => {
                proof {
                    reveal_strlit("v");
                }
                let has_v = crate::text::starts_with_str(tag, "v");
                let v = crate::text::chars_of(tag);
                let t = if has_v {
                    crate::text::string_of(&v, 1, v.len())
                } else {
                    crate::text::string_of(&v, 0, v.len())
                };
                assert(t@ == (if has_v { tag@.subrange(1, tag@.len() as int) } else { tag@ }));
                let (major, minor, patch, build) = match parse_semver(t.as_str()) {
                    Some(p) => p,
                    None => return Err(Error::InvalidSemver(t)),
                };
                let bumped = match self {
                    UpdateTagRule::Patch => if patch < u64::MAX { Some((major, minor, patch + 1)) } else { None },
                    UpdateTagRule::Minor => if minor < u64::MAX { Some((major, minor + 1, 0u64)) } else { None },
                    _ => if major < u64::MAX { Some((major + 1, 0u64, 0u64)) } else { None },
                };
                let (a, b, c) = match bumped {
                    Some(x) => x,
                    None => return Err(Error::VersionOverflow),
                };
                let mut s = if has_v { owned("v") } else { String::new() };
                let ghost s0 = s@;
                push_dec(&mut s, a);
                s.append(".");
                push_dec(&mut s, b);
                s.append(".");
                push_dec(&mut s, c);
                if !build.as_str().is_empty() {
                    s.append("+");
                    s.append(build.as_str());
                }
                assert(s@ =~= s0 + version_text((a, b, c), build@));
                Ok(s)
            },
        }
    }
}

} // verus!
