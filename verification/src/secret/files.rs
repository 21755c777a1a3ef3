//! Which files of a repository are secret: the patterns that `.gitignore`
//! marks, and each file found with the path of its encrypted copy.
use vstd::prelude::*;

use crate::error::Error;
use crate::repo::keywords::{lemma_lex_irreflexive, lemma_lex_total, lemma_lex_transitive, lex_lt, str_lt};
use crate::scan::ignore::{first_bad_line, gitignore_source, ignore_build_ok, ignore_match, Ignore};
use crate::text::{concat, chars_of, ends_with, ends_with_str, eq_str, split_char, split_char_str, starts_with, starts_with_str, string_of, strs, trim, trim_str};

verus! {

broadcast use vstd::seq_lib::group_to_multiset_ensures;

/// The line that opens the secret patterns of a `.gitignore`.
pub open spec fn secrets_begin() -> Seq<char> {
    "# rox:secrets"@
}

/// The line that closes them.
pub open spec fn secrets_end() -> Seq<char> {
    "# rox:end"@
}

/// Whether the lines end inside the secret section.
pub open spec fn in_secret_section(ls: Seq<Seq<char>>) -> bool
    decreases ls.len(),
{
    if ls.len() == 0 {
        false
    } else {
        let t = trim(ls.last());
        if t == secrets_begin() {
            true
        } else if t == secrets_end() {
            false
        } else {
            in_secret_section(ls.drop_last())
        }
    }
}

/// The trimmed lines of the secret section that are neither empty nor comments.
pub open spec fn marked_patterns(ls: Seq<Seq<char>>) -> Seq<Seq<char>>
    decreases ls.len(),
{
    if ls.len() == 0 {
        Seq::empty()
    } else {
        let r = marked_patterns(ls.drop_last());
        let t = trim(ls.last());
        if t.len() == 0 || t == secrets_begin() || t == secrets_end() || starts_with(t, "#"@)
            || !in_secret_section(ls.drop_last()) {
            r
        } else {
            r.push(t)
        }
    }
}

/// The secret patterns of the text of a `.gitignore`.
pub open spec fn gitignore_patterns(text: Seq<char>) -> Seq<Seq<char>> {
    marked_patterns(split_char(text, '\n'))
}

/// The patterns that the text of a `.gitignore` marks as secret; none is an error.
pub fn secret_patterns(gitignore: &str) -> (r: Result<Vec<String>, Error>)
    ensures
        gitignore_patterns(gitignore@).len() == 0 ==> r == Err::<Vec<String>, Error>(Error::NoSecretPatterns),
        gitignore_patterns(gitignore@).len() > 0 ==> (r matches Ok(v) && strs(v@) == gitignore_patterns(gitignore@)),
{
    let lines = split_char_str(gitignore, '\n');
    let ghost ls = strs(lines@);
    let mut pats: Vec<String> = Vec::new();
    let mut marked = false;
    let mut i: usize = 0;
    assert(ls.take(0) =~= Seq::<Seq<char>>::empty());
    assert(strs(pats@) =~= Seq::<Seq<char>>::empty());
    while i < lines.len()
        invariant
            ls == strs(lines@),
            ls == split_char(gitignore@, '\n'),
            i <= lines.len(),
            marked == in_secret_section(ls.take(i as int)),
            strs(pats@) == marked_patterns(ls.take(i as int)),
        decreases lines.len() - i,
    {
        let ghost prev = strs(pats@);
        proof {
            reveal_strlit("# rox:secrets");
            reveal_strlit("# rox:end");
        }
        assert(ls.take(i + 1).drop_last() =~= ls.take(i as int));
        assert(ls.take(i + 1).last() == lines@[i as int]@);
        let t = trim_str(lines[i].as_str());
        if t.as_str().is_empty() {
        } else if eq_str(t.as_str(), "# rox:secrets") {
            marked = true;
        } else if eq_str(t.as_str(), "# rox:end") {
            marked = false;
        } else if starts_with_str(t.as_str(), "#") {
        } else if marked {
            pats.push(t);
            assert(strs(pats@) =~= prev.push(t@));
        }
        i += 1;
    }
    assert(ls.take(lines.len() as int) =~= ls);
    if pats.len() == 0 {
        return Err(Error::NoSecretPatterns);
    }
    Ok(pats)
}

/// The matcher of the secret patterns of a `.gitignore`, relative to
/// `base_dir`: no pattern, or patterns the matcher refuses, are errors.
pub fn read_rules(base_dir: &str, gitignore: &str) -> (r: Result<Ignore, Error>)
    ensures
        gitignore_patterns(gitignore@).len() == 0 ==> r == Err::<Ignore, Error>(Error::NoSecretPatterns),
        gitignore_patterns(gitignore@).len() > 0 ==> {
            let ps = gitignore_patterns(gitignore@);
            if first_bad_line(ps) is None && ignore_build_ok(base_dir@, ps) {
                r matches Ok(ig) && ig.ignore matches Some(g) && gitignore_source(g) == (base_dir@, ps)
            } else {
                r == Err::<Ignore, Error>(Error::InvalidSecretPatterns)
            }
        },
{
    let pats = match secret_patterns(gitignore) {
        Ok(p) => p,
        Err(e) => return Err(e),
    };
    let mut refs: Vec<&str> = Vec::new();
    let mut i: usize = 0;
    while i < pats.len()
        invariant
            i <= pats.len(),
            crate::exec::strs_of(refs@) == strs(pats@).take(i as int),
        decreases pats.len() - i,
    {
        let ghost prev = refs@;
        let p = pats[i].as_str();
        refs.push(p);
        assert(refs@ == prev.push(p));
        assert(p@ == strs(pats@)[i as int]);
        assert(crate::exec::strs_of(refs@) =~= crate::exec::strs_of(prev).push(p@));
        assert(crate::exec::strs_of(refs@) =~= strs(pats@).take(i + 1));
        i += 1;
    }
    assert(strs(pats@).take(pats.len() as int) =~= strs(pats@));
    match Ignore::parse(base_dir, refs.as_slice()) {
        Ok(ig) => Ok(ig),
        Err(_) => Err(Error::InvalidSecretPatterns),
    }
}

/// A file to encrypt or decrypt: its path below the repository, the plain
/// file and the encrypted one beside it.
#[derive(Debug, Clone, PartialEq, Eq)]
pub struct ScanFile {
    pub name: String,
    pub source_path: String,
    pub secret_path: String,
}

impl View for ScanFile {
    type V = (Seq<char>, Seq<char>, Seq<char>);

    open spec fn view(&self) -> (Seq<char>, Seq<char>, Seq<char>) {
        (self.name@, self.source_path@, self.secret_path@)
    }
}

/// Whether the last component of `path` has the extension `secret`: it ends
/// in `.secret` with something before the dot.
pub open spec fn has_secret_extension(path: Seq<char>) -> bool {
    path.len() > 7 && ends_with(path, ".secret"@) && path[path.len() - 8] != '/'
}

/// What a path below `base` starts with: `base` and a slash after it.
pub open spec fn dir_prefix(base: Seq<char>) -> Seq<char> {
    if base.len() == 0 || base.last() == '/' {
        base
    } else {
        base.push('/')
    }
}

/// `path` relative to `base`, where it lies below it.
pub open spec fn relative_path(base: Seq<char>, path: Seq<char>) -> Option<Seq<char>> {
    if starts_with(path, dir_prefix(base)) {
        Some(path.skip(dir_prefix(base).len() as int))
    } else {
        None
    }
}

/// The directory and pattern lines that rules were built from; none for
/// rules that match nothing.
pub open spec fn rules_source(rules: Ignore) -> Option<(Seq<char>, Seq<Seq<char>>)> {
    match rules.ignore {
        Some(g) => Some(gitignore_source(g)),
        None => None,
    }
}

/// Whether rules built from `src` match a file.
pub open spec fn rules_match(src: Option<(Seq<char>, Seq<Seq<char>>)>, path: Seq<char>) -> bool {
    match src {
        Some((root, lines)) => ignore_match(root, lines, path, false),
        None => false,
    }
}

/// The secret file that a path found below `base` stands for: an encrypted
/// file stands for the plain file without `.secret`, a plain file for itself;
/// the plain file must match the rules and lie below `base`.
pub open spec fn secret_file_of(base: Seq<char>, rules: Option<(Seq<char>, Seq<Seq<char>>)>, path: Seq<char>) -> Option<(Seq<char>, Seq<char>, Seq<char>)> {
    let source = if has_secret_extension(path) { path.take(path.len() - 7) } else { path };
    let secret = if has_secret_extension(path) { path } else { path + ".secret"@ };
    if !rules_match(rules, source) {
        None
    } else {
        match relative_path(base, source) {
            Some(name) => Some((name, source, secret)),
            None => None,
        }
    }
}

/// The secret files of all found paths, in the order found.
pub open spec fn secret_files_of(base: Seq<char>, rules: Option<(Seq<char>, Seq<Seq<char>>)>, paths: Seq<Seq<char>>) -> Seq<(Seq<char>, Seq<char>, Seq<char>)>
    decreases paths.len(),
{
    if paths.len() == 0 {
        Seq::empty()
    } else {
        let r = secret_files_of(base, rules, paths.drop_last());
        match secret_file_of(base, rules, paths.last()) {
            Some(f) => r.push(f),
            None => r,
        }
    }
}

/// Files in order of their names.
pub open spec fn sorted_by_name(fs: Seq<(Seq<char>, Seq<char>, Seq<char>)>) -> bool {
    forall|i: int, j: int| 0 <= i < j < fs.len() ==> !lex_lt(#[trigger] fs[j].0, #[trigger] fs[i].0)
}

/// The views of a list of files.
pub open spec fn file_views(v: Seq<ScanFile>) -> Seq<(Seq<char>, Seq<char>, Seq<char>)> {
    v.map_values(|f: ScanFile| f@)
}

/// The secret file that one found path stands for.
pub fn secret_file(base_dir: &str, rules: &Ignore, path: &str) -> (r: Option<ScanFile>)
    ensures
        match secret_file_of(base_dir@, rules_source(*rules), path@) {
            Some(f) => r matches Some(x) && x@ == f,
            None => r is None,
        },
{
    proof {
        reveal_strlit(".secret");
    }
    let v = chars_of(path);
    let is_secret = v.len() > 7 && ends_with_str(path, ".secret") && v[v.len() - 8] != '/';
    let (source, secret) = if is_secret {
        (string_of(&v, 0, v.len() - 7), string_of(&v, 0, v.len()))
    } else {
        (string_of(&v, 0, v.len()), concat(path, ".secret"))
    };
    assert(v@.subrange(0, v@.len() as int) =~= v@);
    assert(is_secret ==> source@ =~= path@.take(path@.len() - 7));
    if !rules.matched(source.as_str(), false) {
        return None;
    }
    let b = chars_of(base_dir);
    let prefix = if b.len() == 0 || b[b.len() - 1] == '/' {
        string_of(&b, 0, b.len())
    } else {
        concat(base_dir, "/")
    };
    proof {
        reveal_strlit("/");
        assert(b@.subrange(0, b@.len() as int) =~= b@);
        assert(prefix@ =~= dir_prefix(base_dir@));
    }
    match crate::text::strip_prefix_str(source.as_str(), prefix.as_str()) {
        Some(name) => {
            assert(name@ =~= source@.skip(prefix@.len() as int));
            Some(ScanFile { name, source_path: source, secret_path: secret })
        },
        None => None,
    }
}

/// Inserting a file where its name belongs keeps the files in order of names.
proof fn lemma_insert_sorted(fs: Seq<(Seq<char>, Seq<char>, Seq<char>)>, k: int, f: (Seq<char>, Seq<char>, Seq<char>))
    requires
        sorted_by_name(fs),
        0 <= k <= fs.len(),
        forall|a: int| 0 <= a < k ==> !lex_lt(f.0, #[trigger] fs[a].0),
        k < fs.len() ==> lex_lt(f.0, fs[k].0),
    ensures
        sorted_by_name(fs.insert(k, f)),
{
    let gs = fs.insert(k, f);
    assert forall|a: int, b: int| 0 <= a < b < gs.len() implies !lex_lt(#[trigger] gs[b].0, #[trigger] gs[a].0) by {
        if b < k {
            assert(gs[a] == fs[a] && gs[b] == fs[b]);
        } else if b == k {
            assert(gs[a] == fs[a] && gs[b] == f);
        } else if a < k {
            assert(gs[a] == fs[a] && gs[b] == fs[b - 1]);
        } else if a == k {
            assert(gs[a] == f && gs[b] == fs[b - 1]);
            if lex_lt(fs[b - 1].0, f.0) {
                lemma_lex_transitive(fs[b - 1].0, f.0, fs[k].0);
                if b - 1 == k {
                    lemma_lex_irreflexive(fs[k].0);
                } else {
                    assert(!lex_lt(fs[b - 1].0, fs[k].0));
                }
            }
        } else {
            assert(gs[a] == fs[a - 1] && gs[b] == fs[b - 1]);
        }
    }
}

/// The position at which `name` goes into files sorted by name: after every
/// file whose name does not come after it.
fn insert_position(files: &Vec<ScanFile>, name: &str) -> (k: usize)
    requires
        sorted_by_name(file_views(files@)),
    ensures
        k <= files@.len(),
        forall|i: int| 0 <= i < k ==> !lex_lt(name@, #[trigger] files@[i].name@),
        k < files@.len() ==> lex_lt(name@, files@[k as int].name@),
{
    let mut k: usize = 0;
    while k < files.len()
        invariant
            k <= files@.len(),
            forall|i: int| 0 <= i < k ==> !lex_lt(name@, #[trigger] files@[i].name@),
        decreases files.len() - k,
    {
        if str_lt(name, files[k].name.as_str()) {
            return k;
        }
        k += 1;
    }
    k
}

/// The secret files that the found paths stand for, in order of their names
/// (the order of files with one name is left open).
pub fn secret_files(base_dir: &str, rules: &Ignore, paths: &Vec<String>) -> (r: Vec<ScanFile>)
    ensures
        sorted_by_name(file_views(r@)),
        file_views(r@).to_multiset() == secret_files_of(base_dir@, rules_source(*rules), strs(paths@)).to_multiset(),
{
    let ghost ps = strs(paths@);
    let mut out: Vec<ScanFile> = Vec::new();
    let mut i: usize = 0;
    assert(ps.take(0) =~= Seq::<Seq<char>>::empty());
    assert(file_views(out@) =~= Seq::<(Seq<char>, Seq<char>, Seq<char>)>::empty());
    while i < paths.len()
        invariant
            ps == strs(paths@),
            i <= paths.len(),
            sorted_by_name(file_views(out@)),
            file_views(out@).to_multiset() == secret_files_of(base_dir@, rules_source(*rules), ps.take(i as int)).to_multiset(),
        decreases paths.len() - i,
    {
        assert(ps.take(i + 1).drop_last() =~= ps.take(i as int));
        assert(ps.take(i + 1).last() == paths@[i as int]@);
        let ghost before = file_views(out@);
        match secret_file(base_dir, rules, paths[i].as_str()) {
            Some(f) => {
                let k = insert_position(&out, f.name.as_str());
                let ghost fv = f@;
                let ghost old_out = out@;
                out.insert(k, f);
                proof {
                    assert(file_views(out@) =~= before.insert(k as int, fv));
                    vstd::seq_lib::to_multiset_insert(before, k as int, fv);
                    vstd::seq_lib::to_multiset_build(secret_files_of(base_dir@, rules_source(*rules), ps.take(i as int)), fv);
                    assert forall|a: int| 0 <= a < k implies !lex_lt(fv.0, #[trigger] before[a].0) by {
                        assert(before[a].0 == out@[a].name@) by { assert(out@[a] == old_out[a]); }
                    }
                    lemma_insert_sorted(before, k as int, fv);
                }
            },
            None => {},
        }
        i += 1;
    }
    assert(ps.take(paths.len() as int) =~= ps);
    out
}

/// The secret files of a repository: the `.gitignore` text gives the rules,
/// the paths found below `base_dir` (the `.git` directory left out) give the
/// files, which come in order of their names.
pub fn scan_secret_files(base_dir: &str, gitignore: &str, paths: &Vec<String>) -> (r: Result<Vec<ScanFile>, Error>)
    ensures
        gitignore_patterns(gitignore@).len() == 0 ==> r == Err::<Vec<ScanFile>, Error>(Error::NoSecretPatterns),
        gitignore_patterns(gitignore@).len() > 0 ==> {
            let ps = gitignore_patterns(gitignore@);
            if first_bad_line(ps) is None && ignore_build_ok(base_dir@, ps) {
                r matches Ok(v) && sorted_by_name(file_views(v@))
                    && file_views(v@).to_multiset() == secret_files_of(base_dir@, Some((base_dir@, ps)), strs(paths@)).to_multiset()
            } else {
                r == Err::<Vec<ScanFile>, Error>(Error::InvalidSecretPatterns)
            }
        },
{
    let rules = match read_rules(base_dir, gitignore) {
        Ok(r) => r,
        Err(e) => return Err(e),
    };
    let files = secret_files(base_dir, &rules, paths);
    Ok(files)
}

} // verus!
