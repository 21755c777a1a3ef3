//! Gitignore-style patterns, matched by the `ignore` crate.
use vstd::prelude::*;

use crate::error::{debug_quoted, debug_str, Error};
use crate::text::strs;

verus! {

#[verifier::external_type_specification]
#[verifier::external_body]
pub struct ExGitignore(::ignore::gitignore::Gitignore);

#[verifier::external_type_specification]
#[verifier::external_body]
pub struct ExGitignoreBuilder(::ignore::gitignore::GitignoreBuilder);

/// The directory that a builder was made for.
pub uninterp spec fn builder_root(b: ::ignore::gitignore::GitignoreBuilder) -> Seq<char>;

/// The pattern lines that a builder accepted, in order.
pub uninterp spec fn builder_lines(b: ::ignore::gitignore::GitignoreBuilder) -> Seq<Seq<char>>;

/// The directory and the pattern lines that a matcher was built from.
pub uninterp spec fn gitignore_source(g: ::ignore::gitignore::Gitignore) -> (Seq<char>, Seq<Seq<char>>);

/// Whether `GitignoreBuilder::add_line` accepts a pattern line.
pub uninterp spec fn ignore_line_ok(line: Seq<char>) -> bool;

/// Whether `GitignoreBuilder::build` succeeds on these lines.
pub uninterp spec fn ignore_build_ok(root: Seq<char>, lines: Seq<Seq<char>>) -> bool;

/// Whether the matcher built from `lines` under `root` matches `path`
/// (`Gitignore::matched` gives something other than `Match::None`).
pub uninterp spec fn ignore_match(root: Seq<char>, lines: Seq<Seq<char>>, path: Seq<char>, is_dir: bool) -> bool;

/// `GitignoreBuilder::new`: a builder for `root` with no lines.
#[verifier::external_body]
fn builder_new(root: &str) -> (b: ::ignore::gitignore::GitignoreBuilder)
    ensures
        builder_root(b) == root@,
        builder_lines(b) == Seq::<Seq<char>>::empty(),
{
    ::ignore::gitignore::GitignoreBuilder::new(root)
}

/// `GitignoreBuilder::add_line`: the line is added when it is accepted; the
/// builder is left as it was otherwise.
#[verifier::external_body]
fn builder_add_line(b: &mut ::ignore::gitignore::GitignoreBuilder, line: &str) -> (r: bool)
    ensures
        r == ignore_line_ok(line@),
        builder_root(*final(b)) == builder_root(*old(b)),
        r ==> builder_lines(*final(b)) == builder_lines(*old(b)).push(line@),
        !r ==> builder_lines(*final(b)) == builder_lines(*old(b)),
{
    b.add_line(None, line).is_ok()
}

/// `GitignoreBuilder::build`.
#[verifier::external_body]
fn builder_build(b: &::ignore::gitignore::GitignoreBuilder) -> (r: Option<::ignore::gitignore::Gitignore>)
    ensures
        r is Some <==> ignore_build_ok(builder_root(*b), builder_lines(*b)),
        r matches Some(g) ==> gitignore_source(g) == (builder_root(*b), builder_lines(*b)),
{
    b.build().ok()
}

/// `Gitignore::matched`, as whether any pattern decided on the path.
#[verifier::external_body]
fn gitignore_matched(g: &::ignore::gitignore::Gitignore, path: &str, is_dir: bool) -> (r: bool)
    ensures
        r == ignore_match(gitignore_source(*g).0, gitignore_source(*g).1, path@, is_dir),
{
    !matches!(g.matched(path, is_dir), ::ignore::Match::None)
}

/// A set of ignore patterns; the default one ignores nothing.
#[derive(Debug, Clone)]
pub struct Ignore {
    pub ignore: Option<::ignore::gitignore::Gitignore>,
}

/// The first line that is not a valid pattern.
pub open spec fn first_bad_line(lines: Seq<Seq<char>>) -> Option<int>
    decreases lines.len(),
{
    if lines.len() == 0 {
        None
    } else if !ignore_line_ok(lines[0]) {
        Some(0)
    } else {
        match first_bad_line(lines.subrange(1, lines.len() as int)) {
            Some(i) => Some(i + 1),
            None => None,
        }
    }
}

impl Ignore {
    /// Nothing ignored.
    pub fn empty() -> (r: Ignore)
        ensures
            r.ignore is None,
    {
        Ignore { ignore: None }
    }

    /// The patterns `lines`, relative to `path`. Fails on the first invalid
    /// pattern, or when the matcher cannot be built.
    pub fn parse(path: &str, lines: &[&str]) -> (r: Result<Ignore, Error>)
        ensures
            match first_bad_line(crate::exec::strs_of(lines@)) {
                Some(i) => r matches Err(Error::InvalidIgnorePattern(p)) && p@ == lines@[i]@,
                None => if ignore_build_ok(path@, crate::exec::strs_of(lines@)) {
                    r matches Ok(ig) && ig.ignore matches Some(g) && gitignore_source(g) == (path@, crate::exec::strs_of(lines@))
                } else {
                    r matches Err(Error::Message(m)) && m@ == "failed to build ignore matcher for path "@ + debug_quoted(path@)
                },
            },
    {
        let ghost ls = crate::exec::strs_of(lines@);
        let mut b = builder_new(path);
        let mut i: usize = 0;
        assert(ls.subrange(0, ls.len() as int) =~= ls);
        while i < lines.len()
            invariant
                ls == crate::exec::strs_of(lines@),
                i <= lines.len(),
                builder_root(b) == path@,
                builder_lines(b) == ls.take(i as int),
                first_bad_line(ls) == match first_bad_line(ls.subrange(i as int, ls.len() as int)) {
                    Some(k) => Some(k + i),
                    None => None,
                },
            decreases lines.len() - i,
        {
            let ghost rest = ls.subrange(i as int, ls.len() as int);
            assert(rest[0] == lines@[i as int]@);
            if !builder_add_line(&mut b, lines[i]) {
                return Err(Error::InvalidIgnorePattern(crate::text::owned(lines[i])));
            }
            assert(ls.take(i + 1) =~= ls.take(i as int).push(lines@[i as int]@));
            assert(rest.subrange(1, rest.len() as int) =~= ls.subrange(i + 1, ls.len() as int));
            i += 1;
        }
        assert(ls.take(lines.len() as int) =~= ls);
        match builder_build(&b) {
            Some(g) => Ok(Ignore { ignore: Some(g) }),
            None => {
                let q = debug_str(path);
                Err(Error::Message(crate::text::concat("failed to build ignore matcher for path ", q.as_str())))
            },
        }
    }

    /// Whether `path` is ignored.
    pub fn matched(&self, path: &str, is_dir: bool) -> (r: bool)
        ensures
            r == match self.ignore {
                Some(g) => ignore_match(gitignore_source(g).0, gitignore_source(g).1, path@, is_dir),
                None => false,
            },
    {
        match &self.ignore {
            Some(g) => gitignore_matched(g, path, is_dir),
            None => false,
        }
    }
}

} // verus!
