//! Glob patterns that leave files out of a listing, matched by the `glob` crate.
use vstd::prelude::*;

use crate::error::Error;
use crate::text::{owned, strs};

verus! {

#[verifier::external_type_specification]
#[verifier::external_body]
pub struct ExPattern(::glob::Pattern);

/// Whether `Pattern::new` accepts the text.
pub uninterp spec fn glob_valid(text: Seq<char>) -> bool;

/// The text that a pattern was compiled from (what `Pattern::as_str` gives).
pub uninterp spec fn pattern_text(p: ::glob::Pattern) -> Seq<char>;

/// Whether the pattern compiled from `text` matches `path` (`Pattern::matches`).
pub uninterp spec fn glob_match(text: Seq<char>, path: Seq<char>) -> bool;

/// `glob::Pattern::new`: the compiled pattern where the text is a valid
/// glob, none otherwise.
#[verifier::external_body]
fn compile_glob(text: &str) -> (r: Option<::glob::Pattern>)
    ensures
        r is Some == glob_valid(text@),
        r matches Some(p) ==> pattern_text(p) == text@,
{
    ::glob::Pattern::new(text).ok()
}

/// `glob::Pattern::matches` with the default options.
#[verifier::external_body]
fn glob_matches(p: &::glob::Pattern, path: &str) -> (r: bool)
    ensures
        r == glob_match(pattern_text(*p), path@),
{
    p.matches(path)
}

/// The texts of a list of patterns.
pub open spec fn pattern_texts(ps: Seq<::glob::Pattern>) -> Seq<Seq<char>> {
    ps.map_values(|p: ::glob::Pattern| pattern_text(p))
}

/// The patterns of `texts`, each compiled; the first text that is no valid
/// glob is an error.
pub fn compile_globs(texts: &Vec<String>) -> (r: Result<Vec<::glob::Pattern>, Error>)
    ensures
        (forall|i: int| 0 <= i < texts.len() ==> glob_valid(#[trigger] texts@[i]@)) ==> (r matches Ok(ps)
            && pattern_texts(ps@) == strs(texts@)),
        r matches Err(e) ==> exists|i: int| 0 <= i < texts.len() && !glob_valid(#[trigger] texts@[i]@) && e
            == Error::InvalidGlob(texts@[i]) && forall|j: int| 0 <= j < i ==> glob_valid(#[trigger] texts@[j]@),
{
    let mut ps: Vec<::glob::Pattern> = Vec::new();
    let mut i: usize = 0;
    while i < texts.len()
        invariant
            i <= texts.len(),
            ps.len() == i,
            forall|j: int| 0 <= j < i ==> glob_valid(#[trigger] texts@[j]@),
            pattern_texts(ps@) == strs(texts@).take(i as int),
        decreases texts.len() - i,
    {
        match compile_glob(texts[i].as_str()) {
            Some(p) => {
                proof {
                    assert(pattern_texts(ps@.push(p)) =~= pattern_texts(ps@).push(pattern_text(p)));
                    assert(strs(texts@).take(i + 1) =~= strs(texts@).take(i as int).push(texts@[i as int]@));
                }
                ps.push(p);
            },
            None => {
                return Err(Error::InvalidGlob(texts[i].clone()));
            },
        }
        i = i + 1;
    }
    proof {
        assert(strs(texts@).take(texts.len() as int) =~= strs(texts@));
    }
    Ok(ps)
}

/// Some pattern of `texts` matches `path`.
pub open spec fn any_glob_match(texts: Seq<Seq<char>>, path: Seq<char>) -> bool {
    exists|k: int| 0 <= k < texts.len() && glob_match(#[trigger] texts[k], path)
}

/// The files of `files` that no pattern of `texts` matches, in order.
pub open spec fn files_kept(files: Seq<Seq<char>>, texts: Seq<Seq<char>>) -> Seq<Seq<char>>
    decreases files.len(),
{
    if files.len() == 0 {
        Seq::empty()
    } else {
        let r = files_kept(files.drop_last(), texts);
        if any_glob_match(texts, files.last()) {
            r
        } else {
            r.push(files.last())
        }
    }
}

fn matched_by_any(ignores: &Vec<::glob::Pattern>, path: &str) -> (r: bool)
    ensures
        r == any_glob_match(pattern_texts(ignores@), path@),
{
    let mut k: usize = 0;
    while k < ignores.len()
        invariant
            k <= ignores.len(),
            forall|q: int| 0 <= q < k ==> !glob_match(#[trigger] pattern_texts(ignores@)[q], path@),
        decreases ignores.len() - k,
    {
        if glob_matches(&ignores[k], path) {
            assert(glob_match(pattern_texts(ignores@)[k as int], path@));
            return true;
        }
        k = k + 1;
    }
    false
}

/// The files of a git listing that no pattern of `ignores` matches, in order.
pub fn filter_git_files(files: &Vec<String>, ignores: &Vec<::glob::Pattern>) -> (r: Vec<String>)
    ensures
        strs(r@) == files_kept(strs(files@), pattern_texts(ignores@)),
{
    let mut r: Vec<String> = Vec::new();
    let mut i: usize = 0;
    while i < files.len()
        invariant
            i <= files.len(),
            strs(r@) == files_kept(strs(files@).take(i as int), pattern_texts(ignores@)),
        decreases files.len() - i,
    {
        proof {
            assert(strs(files@).take(i + 1).drop_last() =~= strs(files@).take(i as int));
            assert(strs(files@).take(i + 1).last() == files@[i as int]@);
        }
        if !matched_by_any(ignores, files[i].as_str()) {
            let x = owned(files[i].as_str());
            proof {
                crate::text::lemma_strs_push(r@, x);
            }
            r.push(x);
        }
        i = i + 1;
    }
    proof {
        assert(strs(files@).take(files.len() as int) =~= strs(files@));
    }
    r
}

} // verus!
