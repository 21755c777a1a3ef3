//! Which repositories a hook applies to.
use vstd::prelude::*;

use crate::db::Repository;
use crate::error::Error;
use crate::scan::ignore::{ignore_build_ok, ignore_line_ok, ignore_match, Ignore};
use crate::text::{
    chars_of, contains_char, eq_str, owned, split_whitespace, string_of, strs, trim, trim_str,
    words,
};

verus! {

/// A pattern over remote, owner and name; an exclusion when it starts with `!`.
#[derive(Debug, Clone, Default, PartialEq, Eq)]
pub struct Filter {
    pub remote: Option<String>,
    pub owner: Option<String>,
    pub name: Option<String>,
    pub exclude: bool,
}

/// What a filter says of a repository.
#[derive(Debug, Clone, Copy, PartialEq, Eq, Structural)]
pub enum FilterResult {
    /// Taken in.
    Accept,
    /// Not taken in by this filter.
    NotMatched,
    /// Ruled out.
    Exclude,
}

/// The fields of a pattern: what follows an optional leading `!`, split at
/// whitespace.
pub open spec fn filter_fields(s: Seq<char>) -> Seq<Seq<char>> {
    let t = trim(s);
    if t.len() > 0 && t[0] == '!' {
        words(trim(t.skip(1)))
    } else {
        words(t)
    }
}

/// Whether the pattern starts with `!` once trimmed.
pub open spec fn filter_excludes(s: Seq<char>) -> bool {
    let t = trim(s);
    t.len() > 0 && t[0] == '!'
}

/// An optional string field holds the text `x`.
pub open spec fn field_is(f: Option<String>, x: Seq<char>) -> bool {
    f matches Some(v) && v@ == x
}

/// `r` is what `Filter::parse` gives for `s`.
pub open spec fn filter_spec(s: Seq<char>, r: Result<Filter, Error>) -> bool {
    let fs = filter_fields(s);
    if fs.len() == 0 {
        r matches Err(Error::EmptyFilter)
    } else if fs.len() > 3 {
        r matches Err(Error::TooManyFilterFields)
    } else {
        r matches Ok(f) && f.exclude == filter_excludes(s) && field_is(f.remote, fs[0])
            && (if fs.len() >= 2 { field_is(f.owner, fs[1]) } else { f.owner is None })
            && (if fs.len() >= 3 { field_is(f.name, fs[2]) } else { f.name is None })
    }
}

/// Whether a pattern holds for a field: `*` for anything, a glob when it holds
/// `*` (matched as a gitignore pattern; a pattern that does not build matches
/// nothing), else the exact text. No pattern holds for everything.
pub open spec fn pattern_holds(pattern: Option<String>, field: Seq<char>) -> bool {
    match pattern {
        None => true,
        Some(p) => if p@ == seq!['*'] {
            true
        } else if p@.contains('*') {
            ignore_line_ok(p@) && ignore_build_ok(Seq::empty(), seq![p@])
                && ignore_match(Seq::empty(), seq![p@], field, false)
        } else {
            p@ == field
        },
    }
}

/// What a filter says of a field.
pub open spec fn field_result(exclude: bool, pattern: Option<String>, field: Seq<char>) -> FilterResult {
    if pattern_holds(pattern, field) {
        if exclude { FilterResult::Exclude } else { FilterResult::Accept }
    } else if exclude {
        FilterResult::Accept
    } else {
        FilterResult::NotMatched
    }
}

/// What a filter says of a repository: the first of remote, owner and name on
/// which it does not say `Ok`, else `Ok`.
pub open spec fn filter_result(f: Filter, repo: Repository) -> FilterResult {
    let a = field_result(f.exclude, f.remote, repo.remote@);
    let b = field_result(f.exclude, f.owner, repo.owner@);
    if a != FilterResult::Accept {
        a
    } else if b != FilterResult::Accept {
        b
    } else {
        field_result(f.exclude, f.name, repo.name@)
    }
}

impl Filter {
    /// `[!] remote [owner [name]]`.
    pub fn parse(s: &str) -> (r: Result<Filter, Error>)
        ensures
            filter_spec(s@, r),
    {
        let t = trim_str(s);
        let v = chars_of(t.as_str());
        let mut exclude = false;
        let rest = if v.len() > 0 && v[0] == '!' {
            exclude = true;
            let u = string_of(&v, 1, v.len());
            assert(u@ =~= t@.skip(1));
            trim_str(u.as_str())
        } else {
            t
        };
        let fields = split_whitespace(rest.as_str());
        assert(strs(fields@) == filter_fields(s@));
        proof {
            if fields.len() >= 1 { assert(strs(fields@)[0] == fields@[0]@); }
            if fields.len() >= 2 { assert(strs(fields@)[1] == fields@[1]@); }
            if fields.len() >= 3 { assert(strs(fields@)[2] == fields@[2]@); }
        }
        if fields.len() == 0 {
            Err(Error::EmptyFilter)
        } else if fields.len() == 1 {
            Ok(Filter { remote: Some(owned(fields[0].as_str())), owner: None, name: None, exclude })
        } else if fields.len() == 2 {
            Ok(Filter {
                remote: Some(owned(fields[0].as_str())),
                owner: Some(owned(fields[1].as_str())),
                name: None,
                exclude,
            })
        } else if fields.len() == 3 {
            Ok(Filter {
                remote: Some(owned(fields[0].as_str())),
                owner: Some(owned(fields[1].as_str())),
                name: Some(owned(fields[2].as_str())),
                exclude,
            })
        } else {
            Err(Error::TooManyFilterFields)
        }
    }

    /// What the filter says of `repo`.
    pub fn matched(&self, repo: &Repository) -> (r: FilterResult)
        ensures
            r == filter_result(*self, *repo),
    {
        let a = self.matched_field(&self.remote, repo.remote.as_str());
        if a != FilterResult::Accept {
            return a;
        }
        let b = self.matched_field(&self.owner, repo.owner.as_str());
        if b != FilterResult::Accept {
            return b;
        }
        self.matched_field(&self.name, repo.name.as_str())
    }

    fn matched_field(&self, pattern: &Option<String>, field: &str) -> (r: FilterResult)
        ensures
            r == field_result(self.exclude, *pattern, field@),
    {
        let matched = match pattern {
            None => true,
            Some(p) => {
                proof {
                    reveal_strlit("*");
                    assert("*"@ =~= seq!['*']);
                }
                if eq_str(p.as_str(), "*") {
                    true
                } else if contains_char(p.as_str(), '*') {
                    let lines = [p.as_str()];
                    assert(crate::exec::strs_of(lines@) =~= seq![p@]);
                    proof {
                        reveal_strlit("");
                        assert(""@ =~= Seq::<char>::empty());
                        let ls = seq![p@];
                        assert(ls.subrange(1, 1) =~= Seq::<Seq<char>>::empty());
                        assert(crate::scan::ignore::first_bad_line(ls.subrange(1, 1)) is None);
                    }
                    match Ignore::parse("", &lines) {
                        Ok(ig) => ig.matched(field, false),
                        Err(_) => false,
                    }
                } else {
                    eq_str(p.as_str(), field)
                }
            },
        };
        assert(matched == pattern_holds(*pattern, field@));
        if matched {
            if self.exclude { FilterResult::Exclude } else { FilterResult::Accept }
        } else if self.exclude {
            FilterResult::Accept
        } else {
            FilterResult::NotMatched
        }
    }
}

/// Whether the filters take `repo` in: none rules it out and one takes it in.
pub open spec fn filters_take(repo: Repository, filters: Seq<Filter>) -> bool {
    &&& forall|i: int| 0 <= i < filters.len() ==> filter_result(#[trigger] filters[i], repo) != FilterResult::Exclude
    &&& exists|i: int| 0 <= i < filters.len() && filter_result(#[trigger] filters[i], repo) == FilterResult::Accept
}

/// Whether the filters take `repo` in.
pub fn matched_filters(repo: &Repository, filters: &[Filter]) -> (r: bool)
    ensures
        r == filters_take(*repo, filters@),
{
    let mut matched = false;
    let mut i: usize = 0;
    while i < filters.len()
        invariant
            i <= filters.len(),
            forall|j: int| 0 <= j < i ==> filter_result(#[trigger] filters@[j], *repo) != FilterResult::Exclude,
            matched == exists|j: int| 0 <= j < i && filter_result(#[trigger] filters@[j], *repo) == FilterResult::Accept,
        decreases filters.len() - i,
    {
        let res = filters[i].matched(repo);
        if res == FilterResult::Exclude {
            return false;
        }
        if res == FilterResult::Accept {
            matched = true;
        }
        i += 1;
    }
    matched
}

/// A filter that rules a repository out wins over every filter that takes
/// it in.
pub proof fn law_exclusion_wins(repo: Repository, filters: Seq<Filter>, i: int)
    requires
        0 <= i < filters.len(),
        filter_result(filters[i], repo) == FilterResult::Exclude,
    ensures
        !filters_take(repo, filters),
{
}

} // verus!
