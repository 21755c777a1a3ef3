//! When a hook runs.
use vstd::prelude::*;

use crate::error::Error;
use crate::repo::ops::CreateResult;
use crate::text::{chars_of, eq_str, parse_u64, parse_u64_str, string_of, trim, trim_str};

verus! {

/// The condition under which a hook runs.
#[derive(Debug, Clone, PartialEq, Eq)]
pub enum Condition {
    /// The repository was just created empty.
    Created,
    /// The repository was just cloned.
    Cloned,
    /// The repository has uncommitted changes.
    Updated,
    /// At least this many seconds passed since the hook last ran.
    Interval(u64),
}

/// What the check of a condition reads from the repository and the records.
#[derive(Debug, Clone, Copy, PartialEq, Eq)]
pub struct ConditionFacts {
    /// Uncommitted changes in the repository.
    pub uncommitted: u64,
    /// When the hook last ran on the repository, in seconds, if ever.
    pub last_run: Option<u64>,
    /// The time now, in seconds.
    pub now: u64,
}

/// Seconds in one of the units `s`, `m`, `h`, `d`.
pub open spec fn unit_seconds(u: char) -> Option<nat> {
    if u == 's' {
        Some(1)
    } else if u == 'm' {
        Some(60)
    } else if u == 'h' {
        Some(3600)
    } else if u == 'd' {
        Some(86400)
    } else {
        None
    }
}

/// The number part of a trimmed duration: all but its last character.
pub open spec fn duration_number(t: Seq<char>) -> Seq<char> {
    t.drop_last()
}

/// `r` is what `parse_duration` gives for `s`: the seconds, or the error
/// for the input.
pub open spec fn duration_spec(s: Seq<char>, r: Result<u64, Error>) -> bool {
    let t = trim(s);
    if s.len() == 0 {
        r matches Err(Error::EmptyDuration)
    } else if t.len() < 2 {
        r matches Err(Error::InvalidDuration(x)) && x@ == t
    } else {
        match parse_u64(duration_number(t)) {
            None => r matches Err(Error::InvalidDurationNumber(x)) && x@ == duration_number(t),
            Some(n) => match unit_seconds(t.last()) {
                Some(k) => r matches Ok(x) && x == n * k,
                None => r matches Err(Error::UnsupportedTimeUnit(x)) && x@ == seq![t.last()],
            },
        }
    }
}

/// The inputs on which `parse_duration` can run: the trimmed text ends in an
/// ASCII character (the number is split off one byte before the end), and a
/// valid duration fits in 64 bits.
pub open spec fn duration_in_range(s: Seq<char>) -> bool {
    let t = trim(s);
    &&& (t.len() > 0 ==> (t.last() as u32) < 128)
    &&& (t.len() >= 2 ==> match (parse_u64(duration_number(t)), unit_seconds(t.last())) {
        (Some(n), Some(k)) => n * k <= u64::MAX,
        _ => true,
    })
}

/// A duration such as `20s`, `3m`, `10h` or `1d`, in seconds.
pub fn parse_duration(s: &str) -> (r: Result<u64, Error>)
    requires
        duration_in_range(s@),
    ensures
        duration_spec(s@, r),
{
    if s.is_empty() {
        return Err(Error::EmptyDuration);
    }
    let t = trim_str(s);
    let v = chars_of(t.as_str());
    if v.len() < 2 {
        return Err(Error::InvalidDuration(t));
    }
    let number = string_of(&v, 0, v.len() - 1);
    assert(number@ =~= duration_number(t@));
    let unit = v[v.len() - 1];
    assert(unit == trim(s@).last());
    assert(t@ == trim(s@));
    assert(!(s@.len() == 0) && !(trim(s@).len() < 2));
    let n = match parse_u64_str(number.as_str()) {
        Some(n) => n,
        None => return Err(Error::InvalidDurationNumber(number)),
    };
    assert(parse_u64(duration_number(trim(s@))) == Some(n));
    let ghost tt = trim(s@);
    assert(tt.len() >= 2 && unit == tt.last());
    assert(parse_u64(duration_number(tt)) == Some(n));
    if unit == 's' {
        assert(unit_seconds(tt.last()) == Some(1nat));
        let r = Ok(n);
        assert(r matches Ok(x) && x == n * 1);
        r
    } else if unit == 'm' {
        assert(unit_seconds(tt.last()) == Some(60nat));
        let r = Ok(n * 60);
        assert(r matches Ok(x) && x == n * 60);
        r
    } else if unit == 'h' {
        assert(unit_seconds(tt.last()) == Some(3600nat));
        let r = Ok(n * 3600);
        assert(r matches Ok(x) && x == n * 3600);
        r
    } else if unit == 'd' {
        assert(unit_seconds(tt.last()) == Some(86400nat));
        let r = Ok(n * 86400);
        assert(r matches Ok(x) && x == n * 86400);
        r
    } else {
        assert(unit_seconds(tt.last()) is None);
        let u = string_of(&v, v.len() - 1, v.len());
        assert(u@ =~= seq![t@.last()]);
        Err(Error::UnsupportedTimeUnit(u))
    }
}

/// `r` is what `Condition::parse` gives for `s`.
pub open spec fn condition_spec(s: Seq<char>, r: Result<Condition, Error>) -> bool {
    if s == "created"@ {
        r == Ok::<Condition, Error>(Condition::Created)
    } else if s == "cloned"@ {
        r == Ok::<Condition, Error>(Condition::Cloned)
    } else if s == "updated"@ {
        r == Ok::<Condition, Error>(Condition::Updated)
    } else {
        match r {
            Ok(Condition::Interval(d)) => duration_spec(s, Ok(d)),
            Ok(_) => false,
            Err(e) => duration_spec(s, Err(e)),
        }
    }
}

impl Condition {
    /// `created`, `cloned`, `updated`, or a duration for an interval.
    pub fn parse(s: &str) -> (r: Result<Condition, Error>)
        requires
            duration_in_range(s@),
        ensures
            condition_spec(s@, r),
    {
        if eq_str(s, "created") {
            Ok(Condition::Created)
        } else if eq_str(s, "cloned") {
            Ok(Condition::Cloned)
        } else if eq_str(s, "updated") {
            Ok(Condition::Updated)
        } else {
            match parse_duration(s) {
                Ok(d) => Ok(Condition::Interval(d)),
                Err(e) => Err(e),
            }
        }
    }

    /// Whether the hook runs, after a creation that ended with `create`.
    pub fn matched(&self, create: CreateResult, facts: ConditionFacts) -> (r: bool)
        ensures
            r == match *self {
                Condition::Created => create == CreateResult::Created,
                Condition::Cloned => create == CreateResult::Cloned,
                Condition::Updated => facts.uncommitted > 0,
                Condition::Interval(i) => match facts.last_run {
                    Some(t) => facts.now >= t + i,
                    None => true,
                },
            },
    {
        match self {
            Condition::Created => matches!(create, CreateResult::Created),
            Condition::Cloned => matches!(create, CreateResult::Cloned),
            Condition::Updated => facts.uncommitted > 0,
            Condition::Interval(i) => match facts.last_run {
                Some(t) => facts.now >= t && facts.now - t >= *i,
                None => true,
            },
        }
    }
}

} // verus!
