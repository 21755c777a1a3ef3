//! Labels that a repository gets from what it holds: a language label for
//! the extensions of its tracked files, and a build-module label for a marker
//! file or directory at its root next to a language that the module builds.
use vstd::prelude::*;

use crate::exec::strs_of;
use crate::repo::keywords::{lemma_lex_irreflexive, lemma_lex_total, lemma_lex_transitive, lex_lt, str_lt};
use crate::text::{chars_of, join, join_strs, owned, string_of, strs};

pub mod stats;

verus! {

/// A programming language: its name, its label, the extensions of its files
/// and how its comments start.
#[derive(Debug, Clone)]
pub struct Language {
    pub name: &'static str,
    pub label: &'static str,
    pub extensions: Vec<&'static str>,
    pub comments: Vec<&'static str>,
}

/// A build module: its label, the labels one of which it needs, and the
/// files and directories at the root of a repository that mark it.
#[derive(Debug, Clone)]
pub struct Module {
    pub label: &'static str,
    pub require: Vec<&'static str>,
    pub files: Vec<&'static str>,
    pub dirs: Vec<&'static str>,
}

impl Language {
    /// The name, label, extensions and comment starts as text.
    pub open spec fn text(self) -> (Seq<char>, Seq<char>, Seq<Seq<char>>, Seq<Seq<char>>) {
        (self.name@, self.label@, strs_of(self.extensions@), strs_of(self.comments@))
    }

    /// The fields as they were written.
    pub open spec fn raw(self) -> (&'static str, &'static str, Seq<&'static str>, Seq<&'static str>) {
        (self.name, self.label, self.extensions@, self.comments@)
    }
}

impl Module {
    /// The label, required labels, marker files and marker directories as text.
    pub open spec fn text(self) -> (Seq<char>, Seq<Seq<char>>, Seq<Seq<char>>, Seq<Seq<char>>) {
        (self.label@, strs_of(self.require@), strs_of(self.files@), strs_of(self.dirs@))
    }

    /// The fields as they were written.
    pub open spec fn raw(self) -> (&'static str, Seq<&'static str>, Seq<&'static str>, Seq<&'static str>) {
        (self.label, self.require@, self.files@, self.dirs@)
    }
}

/// The languages that are recognized.
pub open spec fn language_table() -> Seq<(&'static str, &'static str, Seq<&'static str>, Seq<&'static str>)> {
    seq![
        ("C", "c", seq!["c", "h"], seq!["//", "/*"]),
        ("C++", "cpp", seq!["cpp", "cc", "C", "hpp"], seq!["//", "/*"]),
        ("C#", "csharp", seq!["cs"], seq!["//"]),
        ("Rust", "rust", seq!["rs"], seq!["//"]),
        ("Go", "go", seq!["go"], seq!["//"]),
        ("Java", "java", seq!["java"], seq!["//"]),
        ("JavaScript", "js", seq!["js"], seq!["//"]),
        ("TypeScript", "ts", seq!["ts"], seq!["//"]),
        ("Lua", "lua", seq!["lua"], seq!["--"]),
        ("Python", "python", seq!["py"], seq!["#"]),
        ("HTML", "html", seq!["html"], seq!["<!--"]),
        ("CSS", "css", seq!["css"], seq!["/*"]),
        ("PHP", "php", seq!["php"], seq!["//", "#", "/*"]),
        ("R", "r", seq!["R"], seq!["#"]),
        ("Ruby", "ruby", seq!["rb"], seq!["#"]),
        ("Perl", "perl", seq!["pl"], seq!["="]),
        ("Kotlin", "kotlin", seq!["kt"], seq!["//"]),
        ("Scala", "scala", seq!["scala"], seq!["//"]),
    ]
}

/// The build modules that are recognized next to the languages.
pub open spec fn language_module_table() -> Seq<(&'static str, Seq<&'static str>, Seq<&'static str>, Seq<&'static str>)> {
    seq![
        ("cargo", seq!["rust"], seq!["Cargo.toml"], seq![]),
        ("composer", seq!["php"], seq!["composer.json"], seq![]),
        ("cmake", seq!["c", "cpp"], seq!["CMakeLists.txt"], seq![]),
        ("gomod", seq!["go"], seq!["go.mod", "go.work"], seq![]),
        ("maven", seq!["java"], seq!["pom.xml"], seq![]),
        ("gradle", seq!["java", "kotlin"], seq!["settings.gradle", "build.gradle"], seq![]),
        ("nodejs", seq!["js", "ts", "web"], seq!["package.json"], seq![]),
        ("gem", seq!["ruby"], seq!["Gemfile"], seq![]),
    ]
}

/// The labels that extensions give.
pub open spec fn extension_table() -> Seq<(&'static str, Seq<&'static str>)> {
    seq![
        ("c", seq!["c", "h"]),
        ("cpp", seq!["cpp", "cc", "C", "hpp"]),
        ("csharp", seq!["cs"]),
        ("golang", seq!["go"]),
        ("java", seq!["java"]),
        ("js", seq!["js"]),
        ("kotlin", seq!["kt", "kts"]),
        ("lua", seq!["lua"]),
        ("perl", seq!["pl"]),
        ("php", seq!["php"]),
        ("python", seq!["py"]),
        ("r", seq!["R"]),
        ("ruby", seq!["rb"]),
        ("rust", seq!["rs"]),
        ("scala", seq!["scala"]),
        ("ts", seq!["ts"]),
        ("web", seq!["html", "css"]),
    ]
}

/// The build modules that are recognized next to the extension labels.
pub open spec fn module_table() -> Seq<(&'static str, Seq<&'static str>, Seq<&'static str>, Seq<&'static str>)> {
    seq![
        ("cargo", seq!["rust"], seq!["Cargo.toml"], seq![]),
        ("composer", seq!["php"], seq!["composer.json"], seq![]),
        ("cmake", seq!["c", "cpp"], seq!["CMakeLists.txt"], seq![]),
        ("gomod", seq!["golang"], seq!["go.mod", "go.work"], seq![]),
        ("govendor", seq!["golang"], seq![], seq!["vendor"]),
        ("maven", seq!["java"], seq!["pom.xml"], seq![]),
        ("gradle", seq!["java", "kotlin"], seq!["settings.gradle", "build.gradle"], seq![]),
        ("nodejs", seq!["js", "ts", "web"], seq!["package.json"], seq![]),
        ("gem", seq!["ruby"], seq!["Gemfile"], seq![]),
    ]
}

fn language(name: &'static str, label: &'static str, extensions: Vec<&'static str>, comments: Vec<&'static str>) -> (r: Language)
    ensures
        r.raw() == (name, label, extensions@, comments@),
{
    Language { name, label, extensions, comments }
}

fn module(label: &'static str, require: Vec<&'static str>, files: Vec<&'static str>, dirs: Vec<&'static str>) -> (r: Module)
    ensures
        r.raw() == (label, require@, files@, dirs@),
{
    Module { label, require, files, dirs }
}

/// The languages that are recognized, in the order in which a file's
/// extension is looked up.
pub fn builtin_languages() -> (r: Vec<Language>)
    ensures
        r@.map_values(|l: Language| l.raw()) == language_table(),
{
    let r = vec![
        language("C", "c", vec!["c", "h"], vec!["//", "/*"]),
        language("C++", "cpp", vec!["cpp", "cc", "C", "hpp"], vec!["//", "/*"]),
        language("C#", "csharp", vec!["cs"], vec!["//"]),
        language("Rust", "rust", vec!["rs"], vec!["//"]),
        language("Go", "go", vec!["go"], vec!["//"]),
        language("Java", "java", vec!["java"], vec!["//"]),
        language("JavaScript", "js", vec!["js"], vec!["//"]),
        language("TypeScript", "ts", vec!["ts"], vec!["//"]),
        language("Lua", "lua", vec!["lua"], vec!["--"]),
        language("Python", "python", vec!["py"], vec!["#"]),
        language("HTML", "html", vec!["html"], vec!["<!--"]),
        language("CSS", "css", vec!["css"], vec!["/*"]),
        language("PHP", "php", vec!["php"], vec!["//", "#", "/*"]),
        language("R", "r", vec!["R"], vec!["#"]),
        language("Ruby", "ruby", vec!["rb"], vec!["#"]),
        language("Perl", "perl", vec!["pl"], vec!["="]),
        language("Kotlin", "kotlin", vec!["kt"], vec!["//"]),
        language("Scala", "scala", vec!["scala"], vec!["//"]),
    ];
    assert(r@.map_values(|l: Language| l.raw()) =~= language_table()) by {
        assert(r@[0].raw() == language_table()[0]);
        assert(r@[1].raw() == language_table()[1]);
        assert(r@[2].raw() == language_table()[2]);
        assert(r@[3].raw() == language_table()[3]);
        assert(r@[4].raw() == language_table()[4]);
        assert(r@[5].raw() == language_table()[5]);
        assert(r@[6].raw() == language_table()[6]);
        assert(r@[7].raw() == language_table()[7]);
        assert(r@[8].raw() == language_table()[8]);
        assert(r@[9].raw() == language_table()[9]);
        assert(r@[10].raw() == language_table()[10]);
        assert(r@[11].raw() == language_table()[11]);
        assert(r@[12].raw() == language_table()[12]);
        assert(r@[13].raw() == language_table()[13]);
        assert(r@[14].raw() == language_table()[14]);
        assert(r@[15].raw() == language_table()[15]);
        assert(r@[16].raw() == language_table()[16]);
        assert(r@[17].raw() == language_table()[17]);
    }
    r
}


/// The build modules that are recognized next to the languages.
pub fn builtin_modules() -> (r: Vec<Module>)
    ensures
        r@.map_values(|m: Module| m.raw()) == language_module_table(),
{
    let r = vec![
        module("cargo", vec!["rust"], vec!["Cargo.toml"], vec![]),
        module("composer", vec!["php"], vec!["composer.json"], vec![]),
        module("cmake", vec!["c", "cpp"], vec!["CMakeLists.txt"], vec![]),
        module("gomod", vec!["go"], vec!["go.mod", "go.work"], vec![]),
        module("maven", vec!["java"], vec!["pom.xml"], vec![]),
        module("gradle", vec!["java", "kotlin"], vec!["settings.gradle", "build.gradle"], vec![]),
        module("nodejs", vec!["js", "ts", "web"], vec!["package.json"], vec![]),
        module("gem", vec!["ruby"], vec!["Gemfile"], vec![]),
    ];
    assert(r@.map_values(|m: Module| m.raw()) =~= language_module_table()) by {
        assert(r@[0].raw() == language_module_table()[0]);
        assert(r@[1].raw() == language_module_table()[1]);
        assert(r@[2].raw() == language_module_table()[2]);
        assert(r@[3].raw() == language_module_table()[3]);
        assert(r@[4].raw() == language_module_table()[4]);
        assert(r@[5].raw() == language_module_table()[5]);
        assert(r@[6].raw() == language_module_table()[6]);
        assert(r@[7].raw() == language_module_table()[7]);
    }
    r
}

/// The labels that extensions give, in the order in which they are tried.
pub fn build_extensions() -> (r: Vec<(&'static str, Vec<&'static str>)>)
    ensures
        r@.map_values(|e: (&'static str, Vec<&'static str>)| (e.0, e.1@)) == extension_table(),
{
    let r = vec![
        ("c", vec!["c", "h"]),
        ("cpp", vec!["cpp", "cc", "C", "hpp"]),
        ("csharp", vec!["cs"]),
        ("golang", vec!["go"]),
        ("java", vec!["java"]),
        ("js", vec!["js"]),
        ("kotlin", vec!["kt", "kts"]),
        ("lua", vec!["lua"]),
        ("perl", vec!["pl"]),
        ("php", vec!["php"]),
        ("python", vec!["py"]),
        ("r", vec!["R"]),
        ("ruby", vec!["rb"]),
        ("rust", vec!["rs"]),
        ("scala", vec!["scala"]),
        ("ts", vec!["ts"]),
        ("web", vec!["html", "css"]),
    ];
    assert(r@.map_values(|e: (&'static str, Vec<&'static str>)| (e.0, e.1@)) =~= extension_table()) by {
        assert((r@[0].0, r@[0].1@) == extension_table()[0]);
        assert((r@[1].0, r@[1].1@) == extension_table()[1]);
        assert((r@[2].0, r@[2].1@) == extension_table()[2]);
        assert((r@[3].0, r@[3].1@) == extension_table()[3]);
        assert((r@[4].0, r@[4].1@) == extension_table()[4]);
        assert((r@[5].0, r@[5].1@) == extension_table()[5]);
        assert((r@[6].0, r@[6].1@) == extension_table()[6]);
        assert((r@[7].0, r@[7].1@) == extension_table()[7]);
        assert((r@[8].0, r@[8].1@) == extension_table()[8]);
        assert((r@[9].0, r@[9].1@) == extension_table()[9]);
        assert((r@[10].0, r@[10].1@) == extension_table()[10]);
        assert((r@[11].0, r@[11].1@) == extension_table()[11]);
        assert((r@[12].0, r@[12].1@) == extension_table()[12]);
        assert((r@[13].0, r@[13].1@) == extension_table()[13]);
        assert((r@[14].0, r@[14].1@) == extension_table()[14]);
        assert((r@[15].0, r@[15].1@) == extension_table()[15]);
        assert((r@[16].0, r@[16].1@) == extension_table()[16]);
    }
    r
}

/// The build modules that are recognized next to the extension labels.
pub fn build_modules() -> (r: Vec<Module>)
    ensures
        r@.map_values(|m: Module| m.raw()) == module_table(),
{
    let r = vec![
        module("cargo", vec!["rust"], vec!["Cargo.toml"], vec![]),
        module("composer", vec!["php"], vec!["composer.json"], vec![]),
        module("cmake", vec!["c", "cpp"], vec!["CMakeLists.txt"], vec![]),
        module("gomod", vec!["golang"], vec!["go.mod", "go.work"], vec![]),
        module("govendor", vec!["golang"], vec![], vec!["vendor"]),
        module("maven", vec!["java"], vec!["pom.xml"], vec![]),
        module("gradle", vec!["java", "kotlin"], vec!["settings.gradle", "build.gradle"], vec![]),
        module("nodejs", vec!["js", "ts", "web"], vec!["package.json"], vec![]),
        module("gem", vec!["ruby"], vec!["Gemfile"], vec![]),
    ];
    assert(r@.map_values(|m: Module| m.raw()) =~= module_table()) by {
        assert(r@[0].raw() == module_table()[0]);
        assert(r@[1].raw() == module_table()[1]);
        assert(r@[2].raw() == module_table()[2]);
        assert(r@[3].raw() == module_table()[3]);
        assert(r@[4].raw() == module_table()[4]);
        assert(r@[5].raw() == module_table()[5]);
        assert(r@[6].raw() == module_table()[6]);
        assert(r@[7].raw() == module_table()[7]);
        assert(r@[8].raw() == module_table()[8]);
    }
    r
}

/// Where the last `c` of `s` stands; -1 when there is none.
pub open spec fn last_index_of(s: Seq<char>, c: char) -> int
    decreases s.len(),
{
    if s.len() == 0 {
        -1
    } else if s.last() == c {
        s.len() - 1
    } else {
        last_index_of(s.drop_last(), c)
    }
}

/// The extension of a path, as `Path::extension` gives it: what follows the
/// last dot of the last component, when that dot does not start it.
pub open spec fn file_extension(path: Seq<char>) -> Option<Seq<char>> {
    let name = path.skip(last_index_of(path, '/') + 1);
    let d = last_index_of(name, '.');
    if name == ".."@ || d <= 0 {
        None
    } else {
        Some(name.skip(d + 1))
    }
}

/// The text of a list of labels, as a set.
pub open spec fn label_set(v: Seq<String>) -> Set<Seq<char>> {
    Set::new(|x: Seq<char>| strs(v).contains(x))
}

/// Some of `xs` is in `s`.
pub open spec fn any_in(xs: Seq<Seq<char>>, s: Set<Seq<char>>) -> bool {
    exists|i: int| 0 <= i < xs.len() && s.contains(#[trigger] xs[i])
}

/// The label of the first language whose extensions hold `ext`.
pub open spec fn language_label_of(langs: Seq<Language>, ext: Seq<char>) -> Option<Seq<char>>
    decreases langs.len(),
{
    if langs.len() == 0 {
        None
    } else if langs[0].text().2.contains(ext) {
        Some(langs[0].text().1)
    } else {
        language_label_of(langs.skip(1), ext)
    }
}

/// The labels that the languages of the files give.
pub open spec fn file_language_labels(langs: Seq<Language>, files: Seq<Seq<char>>) -> Set<Seq<char>>
    decreases files.len(),
{
    if files.len() == 0 {
        Set::empty()
    } else {
        let s = file_language_labels(langs, files.drop_last());
        match file_extension(files.last()) {
            Some(e) => match language_label_of(langs, e) {
                Some(l) => s.insert(l),
                None => s,
            },
            None => s,
        }
    }
}

/// The extensions of the files.
pub open spec fn file_extensions(files: Seq<Seq<char>>) -> Set<Seq<char>>
    decreases files.len(),
{
    if files.len() == 0 {
        Set::empty()
    } else {
        let s = file_extensions(files.drop_last());
        match file_extension(files.last()) {
            Some(e) => s.insert(e),
            None => s,
        }
    }
}

/// The labels of the extension table whose extensions occur, added to `labels`.
pub open spec fn with_extension_labels(table: Seq<(&'static str, Vec<&'static str>)>, exts: Set<Seq<char>>, labels: Set<Seq<char>>) -> Set<Seq<char>>
    decreases table.len(),
{
    if table.len() == 0 {
        labels
    } else {
        let l = with_extension_labels(table.drop_last(), exts, labels);
        if any_in(strs_of(table.last().1@), exts) {
            l.insert(table.last().0@)
        } else {
            l
        }
    }
}

/// A module is found when one of the labels it needs is there and one of
/// its marker files or directories is at the root.
pub open spec fn module_found(m: Module, labels: Set<Seq<char>>, root_files: Set<Seq<char>>, root_dirs: Set<Seq<char>>) -> bool {
    any_in(m.text().1, labels) && (any_in(m.text().2, root_files) || any_in(m.text().3, root_dirs))
}

/// The labels of the modules found, added one module after the other.
pub open spec fn with_modules(mods: Seq<Module>, labels: Set<Seq<char>>, root_files: Set<Seq<char>>, root_dirs: Set<Seq<char>>) -> Set<Seq<char>>
    decreases mods.len(),
{
    if mods.len() == 0 {
        labels
    } else {
        let l = with_modules(mods.drop_last(), labels, root_files, root_dirs);
        if module_found(mods.last(), l, root_files, root_dirs) {
            l.insert(mods.last().text().0)
        } else {
            l
        }
    }
}

proof fn lemma_last_index_bounds(s: Seq<char>, c: char)
    ensures
        -1 <= last_index_of(s, c) < s.len(),
    decreases s.len(),
{
    if s.len() > 0 {
        lemma_last_index_bounds(s.drop_last(), c);
    }
}

/// Where the last `c` of `v` stands.
fn last_index(v: &Vec<char>, c: char) -> (r: Option<usize>)
    ensures
        match r {
            Some(k) => k as int == last_index_of(v@, c) && k < v@.len(),
            None => last_index_of(v@, c) == -1,
        },
{
    proof {
        lemma_last_index_bounds(v@, c);
    }
    let mut i = v.len();
    assert(v@.take(i as int) =~= v@);
    while i > 0
        invariant
            i <= v@.len(),
            last_index_of(v@, c) == last_index_of(v@.take(i as int), c),
        decreases i,
    {
        assert(v@.take(i as int).last() == v@[i - 1]);
        if v[i - 1] == c {
            return Some(i - 1);
        }
        assert(v@.take(i as int).drop_last() =~= v@.take(i - 1));
        i -= 1;
    }
    None
}

/// The extension of a path, as `Path::extension` gives it.
pub fn extension_of(path: &str) -> (r: Option<String>)
    ensures
        match file_extension(path@) {
            Some(e) => r matches Some(x) && x@ == e,
            None => r is None,
        },
{
    proof {
        reveal_strlit("..");
    }
    let v = chars_of(path);
    let start = match last_index(&v, '/') {
        Some(k) => k + 1,
        None => 0,
    };
    let name = string_of(&v, start, v.len());
    let w = chars_of(name.as_str());
    assert(w@ =~= path@.skip(last_index_of(path@, '/') + 1));
    let dotdot = w.len() == 2 && w[0] == '.' && w[1] == '.';
    assert(dotdot <==> w@ == ".."@) by {
        if w@ == ".."@ {
            assert(w@[0] == ".."@[0] && w@[1] == ".."@[1]);
        }
        if dotdot {
            assert(w@ =~= ".."@);
        }
    }
    if dotdot {
        return None;
    }
    match last_index(&w, '.') {
        Some(d) => {
            if d == 0 {
                None
            } else {
                Some(string_of(&w, d + 1, w.len()))
            }
        },
        None => None,
    }
}

/// Whether `s` is among the texts of `v`.
fn strs_contain(v: &Vec<&'static str>, s: &str) -> (r: bool)
    ensures
        r == strs_of(v@).contains(s@),
{
    let mut i: usize = 0;
    while i < v.len()
        invariant
            i <= v@.len(),
            forall|k: int| 0 <= k < i ==> strs_of(v@)[k] != s@,
        decreases v.len() - i,
    {
        if crate::text::eq_str(v[i], s) {
            assert(strs_of(v@)[i as int] == s@);
            return true;
        }
        i += 1;
    }
    false
}

/// Whether `s` is among the labels of `v`.
fn labels_contain(v: &Vec<String>, s: &str) -> (r: bool)
    ensures
        r == label_set(v@).contains(s@),
{
    let mut i: usize = 0;
    while i < v.len()
        invariant
            i <= v@.len(),
            forall|k: int| 0 <= k < i ==> strs(v@)[k] != s@,
        decreases v.len() - i,
    {
        if crate::text::eq_str(v[i].as_str(), s) {
            assert(strs(v@)[i as int] == s@);
            return true;
        }
        i += 1;
    }
    false
}

/// Adds a label that is not there yet.
fn add_label(v: &mut Vec<String>, s: &str)
    ensures
        label_set(final(v)@) == label_set(old(v)@).insert(s@),
        strs(old(v)@).no_duplicates() ==> strs(final(v)@).no_duplicates(),
{
    if !labels_contain(v, s) {
        let ghost prev = v@;
        v.push(owned(s));
        assert(strs(v@) =~= strs(prev).push(s@));
        assert forall|x: Seq<char>| label_set(v@).contains(x) <==> label_set(prev).insert(s@).contains(x) by {
            if strs(prev).contains(x) {
                let j = choose|j: int| 0 <= j < strs(prev).len() && strs(prev)[j] == x;
                assert(strs(v@)[j] == x);
            }
            if x == s@ {
                assert(strs(v@)[strs(prev).len() as int] == x);
            }
        }
        assert(label_set(v@) =~= label_set(prev).insert(s@));
    } else {
        assert(label_set(v@) =~= label_set(v@).insert(s@));
    }
}

/// Whether one of `xs` is among the labels of `v`.
fn any_label(xs: &Vec<&'static str>, v: &Vec<String>) -> (r: bool)
    ensures
        r == any_in(strs_of(xs@), label_set(v@)),
{
    let mut i: usize = 0;
    while i < xs.len()
        invariant
            i <= xs@.len(),
            forall|k: int| 0 <= k < i ==> !label_set(v@).contains(#[trigger] strs_of(xs@)[k]),
        decreases xs.len() - i,
    {
        if labels_contain(v, xs[i]) {
            assert(label_set(v@).contains(strs_of(xs@)[i as int]));
            return true;
        }
        i += 1;
    }
    false
}

/// The label of the first language whose extensions hold `ext`.
fn language_label(langs: &Vec<Language>, ext: &str) -> (r: Option<&'static str>)
    ensures
        match language_label_of(langs@, ext@) {
            Some(l) => r matches Some(x) && x@ == l,
            None => r is None,
        },
{
    let mut i: usize = 0;
    assert(langs@.skip(0) =~= langs@);
    while i < langs.len()
        invariant
            i <= langs@.len(),
            language_label_of(langs@, ext@) == language_label_of(langs@.skip(i as int), ext@),
        decreases langs.len() - i,
    {
        let ghost rest = langs@.skip(i as int);
        assert(rest[0] == langs@[i as int]);
        if strs_contain(&langs[i].extensions, ext) {
            return Some(langs[i].label);
        }
        assert(rest.skip(1) =~= langs@.skip(i + 1));
        i += 1;
    }
    None
}

/// Adds the label of each module found, one module after the other.
fn add_modules(mods: &Vec<Module>, labels: &mut Vec<String>, root_files: &Vec<String>, root_dirs: &Vec<String>)
    ensures
        label_set(final(labels)@) == with_modules(mods@, label_set(old(labels)@), label_set(root_files@), label_set(root_dirs@)),
        strs(old(labels)@).no_duplicates() ==> strs(final(labels)@).no_duplicates(),
{
    let ghost start = label_set(labels@);
    let ghost nodup = strs(labels@).no_duplicates();
    let mut i: usize = 0;
    assert(mods@.take(0) =~= Seq::<Module>::empty());
    while i < mods.len()
        invariant
            i <= mods@.len(),
            label_set(labels@) == with_modules(mods@.take(i as int), start, label_set(root_files@), label_set(root_dirs@)),
            nodup ==> strs(labels@).no_duplicates(),
        decreases mods.len() - i,
    {
        assert(mods@.take(i + 1).drop_last() =~= mods@.take(i as int));
        assert(mods@.take(i + 1).last() == mods@[i as int]);
        let m = &mods[i];
        let found = any_label(&m.require, labels) && (any_label(&m.files, root_files) || any_label(&m.dirs, root_dirs));
        if found {
            add_label(labels, m.label);
        }
        i += 1;
    }
    assert(mods@.take(mods@.len() as int) =~= mods@);
}


/// The texts of a list, as a set.
pub open spec fn text_set(v: Seq<&'static str>) -> Set<Seq<char>> {
    Set::new(|x: Seq<char>| strs_of(v).contains(x))
}

/// The labels of a set that are none of `builtin`: those that a user gave.
pub open spec fn user_labels(labels: Set<Seq<char>>, builtin: Set<Seq<char>>) -> Set<Seq<char>> {
    Set::new(|x: Seq<char>| labels.contains(x) && !builtin.contains(x))
}

/// Where a label goes when labels are listed: those a user gave first,
/// then language labels, then module labels.
pub open spec fn label_kind(l: Seq<char>, langs: Set<Seq<char>>, mods: Set<Seq<char>>) -> nat {
    if langs.contains(l) {
        1
    } else if mods.contains(l) {
        2
    } else {
        0
    }
}

/// Whether label `a` is listed before label `b`: by kind, then by text.
pub open spec fn label_before(a: Seq<char>, b: Seq<char>, langs: Set<Seq<char>>, mods: Set<Seq<char>>) -> bool {
    label_kind(a, langs, mods) < label_kind(b, langs, mods)
        || (label_kind(a, langs, mods) == label_kind(b, langs, mods) && lex_lt(a, b))
}

/// Labels in the order in which they are listed.
pub open spec fn labels_in_order(s: Seq<Seq<char>>, langs: Set<Seq<char>>, mods: Set<Seq<char>>) -> bool {
    forall|i: int, j: int| 0 <= i < j < s.len() ==> !label_before(#[trigger] s[j], #[trigger] s[i], langs, mods)
}

proof fn lemma_label_before_transitive(a: Seq<char>, b: Seq<char>, c: Seq<char>, langs: Set<Seq<char>>, mods: Set<Seq<char>>)
    requires
        label_before(a, b, langs, mods),
        label_before(b, c, langs, mods),
    ensures
        label_before(a, c, langs, mods),
{
    if label_kind(a, langs, mods) == label_kind(b, langs, mods) && label_kind(b, langs, mods) == label_kind(c, langs, mods) {
        lemma_lex_transitive(a, b, c);
    }
}

/// Inserting a label where it belongs keeps the labels in order.
proof fn lemma_insert_in_order(s: Seq<Seq<char>>, k: int, x: Seq<char>, langs: Set<Seq<char>>, mods: Set<Seq<char>>)
    requires
        labels_in_order(s, langs, mods),
        0 <= k <= s.len(),
        forall|a: int| 0 <= a < k ==> !label_before(x, #[trigger] s[a], langs, mods),
        k < s.len() ==> label_before(x, s[k], langs, mods),
    ensures
        labels_in_order(s.insert(k, x), langs, mods),
{
    let t = s.insert(k, x);
    assert forall|a: int, b: int| 0 <= a < b < t.len() implies !label_before(#[trigger] t[b], #[trigger] t[a], langs, mods) by {
        if b < k {
            assert(t[a] == s[a] && t[b] == s[b]);
        } else if b == k {
            assert(t[a] == s[a] && t[b] == x);
        } else if a < k {
            assert(t[a] == s[a] && t[b] == s[b - 1]);
        } else if a == k {
            assert(t[a] == x && t[b] == s[b - 1]);
            if label_before(s[b - 1], x, langs, mods) {
                lemma_label_before_transitive(s[b - 1], x, s[k], langs, mods);
                if b - 1 == k {
                    lemma_lex_irreflexive(s[k]);
                } else {
                    assert(!label_before(s[b - 1], s[k], langs, mods));
                }
            }
        } else {
            assert(t[a] == s[a - 1] && t[b] == s[b - 1]);
        }
    }
}

/// Whether label `a` is listed before label `b`.
fn label_before_of(a: &str, b: &str, langs: &Vec<&'static str>, mods: &Vec<&'static str>) -> (r: bool)
    ensures
        r == label_before(a@, b@, text_set(langs@), text_set(mods@)),
{
    let ka: u8 = if strs_contain(langs, a) { 1 } else if strs_contain(mods, a) { 2 } else { 0 };
    let kb: u8 = if strs_contain(langs, b) { 1 } else if strs_contain(mods, b) { 2 } else { 0 };
    assert(ka == label_kind(a@, text_set(langs@), text_set(mods@)));
    assert(kb == label_kind(b@, text_set(langs@), text_set(mods@)));
    ka < kb || (ka == kb && str_lt(a, b))
}

/// The labels in the order in which they are listed: those a user gave,
/// then language labels, then module labels, each group by text.
pub fn order_labels(labels: &Vec<String>, langs: &Vec<&'static str>, mods: &Vec<&'static str>) -> (r: Vec<String>)
    ensures
        labels_in_order(strs(r@), text_set(langs@), text_set(mods@)),
        strs(r@).to_multiset() == strs(labels@).to_multiset(),
{
    let ghost ls = text_set(langs@);
    let ghost ms = text_set(mods@);
    let mut out: Vec<String> = Vec::new();
    let mut i: usize = 0;
    assert(strs(labels@).take(0) =~= Seq::<Seq<char>>::empty());
    assert(strs(out@) =~= Seq::<Seq<char>>::empty());
    while i < labels.len()
        invariant
            ls == text_set(langs@),
            ms == text_set(mods@),
            i <= labels@.len(),
            labels_in_order(strs(out@), ls, ms),
            strs(out@).to_multiset() == strs(labels@).take(i as int).to_multiset(),
        decreases labels.len() - i,
    {
        let x = labels[i].as_str();
        let mut k: usize = 0;
        while k < out.len()
            invariant
                k <= out@.len(),
                forall|a: int| 0 <= a < k ==> !label_before(x@, #[trigger] strs(out@)[a], ls, ms),
                ls == text_set(langs@),
                ms == text_set(mods@),
            ensures
                k <= out@.len(),
                forall|a: int| 0 <= a < k ==> !label_before(x@, #[trigger] strs(out@)[a], ls, ms),
                k < out@.len() ==> label_before(x@, strs(out@)[k as int], ls, ms),
            decreases out.len() - k,
        {
            if label_before_of(x, out[k].as_str(), langs, mods) {
                break;
            }
            k += 1;
        }
        let ghost before = strs(out@);
        proof {
            lemma_insert_in_order(before, k as int, x@, ls, ms);
            vstd::seq_lib::to_multiset_insert(before, k as int, x@);
            assert(strs(labels@).take(i + 1) =~= strs(labels@).take(i as int).push(x@));
            vstd::seq_lib::to_multiset_build(strs(labels@).take(i as int), x@);
        }
        out.insert(k, owned(x));
        assert(strs(out@) =~= before.insert(k as int, x@));
        i += 1;
    }
    assert(strs(labels@).take(labels@.len() as int) =~= strs(labels@));
    out
}

/// The labels of `labels` that are not among `builtin_a` or `builtin_b`.
fn keep_user_labels(labels: &Vec<String>, builtin_a: &Vec<&'static str>, builtin_b: &Vec<&'static str>) -> (r: Vec<String>)
    ensures
        label_set(r@) == user_labels(label_set(labels@), text_set(builtin_a@).union(text_set(builtin_b@))),
        strs(r@).no_duplicates(),
{
    let ghost b = text_set(builtin_a@).union(text_set(builtin_b@));
    let mut out: Vec<String> = Vec::new();
    let mut i: usize = 0;
    assert(label_set(out@) =~= user_labels(label_set(labels@.take(0)), b));
    while i < labels.len()
        invariant
            b == text_set(builtin_a@).union(text_set(builtin_b@)),
            i <= labels@.len(),
            label_set(out@) == user_labels(label_set(labels@.take(i as int)), b),
            strs(out@).no_duplicates(),
        decreases labels.len() - i,
    {
        let x = labels[i].as_str();
        let ghost prev = label_set(labels@.take(i as int));
        assert(strs(labels@.take(i + 1)) =~= strs(labels@.take(i as int)).push(x@));
        assert(label_set(labels@.take(i + 1)) =~= prev.insert(x@)) by {
            assert forall|y: Seq<char>| label_set(labels@.take(i + 1)).contains(y) <==> prev.insert(x@).contains(y) by {
                let t = strs(labels@.take(i + 1));
                if strs(labels@.take(i as int)).contains(y) {
                    let j = choose|j: int| 0 <= j < strs(labels@.take(i as int)).len() && strs(labels@.take(i as int))[j] == y;
                    assert(t[j] == y);
                }
                if y == x@ {
                    assert(t[i as int] == y);
                }
                if t.contains(y) {
                    let j = choose|j: int| 0 <= j < t.len() && t[j] == y;
                    if j < i {
                        assert(strs(labels@.take(i as int))[j] == y);
                    }
                }
            }
        }
        if !strs_contain(builtin_a, x) && !strs_contain(builtin_b, x) {
            add_label(&mut out, x);
            assert(label_set(out@) =~= user_labels(prev.insert(x@), b));
        } else {
            assert(label_set(out@) =~= user_labels(prev.insert(x@), b));
        }
        i += 1;
    }
    assert(labels@.take(labels@.len() as int) =~= labels@);
    out
}

/// The labels of a list of languages.
fn language_labels_of(langs: &Vec<Language>) -> (r: Vec<&'static str>)
    ensures
        r@ == langs@.map_values(|l: Language| l.label),
{
    let mut r: Vec<&'static str> = Vec::new();
    let mut i: usize = 0;
    while i < langs.len()
        invariant
            i <= langs@.len(),
            r@ == langs@.take(i as int).map_values(|l: Language| l.label),
        decreases langs.len() - i,
    {
        r.push(langs[i].label);
        assert(langs@.take(i + 1).map_values(|l: Language| l.label) =~= langs@.take(i as int).map_values(|l: Language| l.label).push(langs@[i as int].label));
        i += 1;
    }
    assert(langs@.take(langs@.len() as int) =~= langs@);
    r
}

/// The labels of a list of modules.
fn module_labels_of(mods: &Vec<Module>) -> (r: Vec<&'static str>)
    ensures
        r@ == mods@.map_values(|m: Module| m.label),
{
    let mut r: Vec<&'static str> = Vec::new();
    let mut i: usize = 0;
    while i < mods.len()
        invariant
            i <= mods@.len(),
            r@ == mods@.take(i as int).map_values(|m: Module| m.label),
        decreases mods.len() - i,
    {
        r.push(mods[i].label);
        assert(mods@.take(i + 1).map_values(|m: Module| m.label) =~= mods@.take(i as int).map_values(|m: Module| m.label).push(mods@[i as int].label));
        i += 1;
    }
    assert(mods@.take(mods@.len() as int) =~= mods@);
    r
}


/// Adds the label of the language of each file.
fn add_language_labels(langs: &Vec<Language>, files: &Vec<String>, labels: &mut Vec<String>)
    ensures
        label_set(final(labels)@) == label_set(old(labels)@).union(file_language_labels(langs@, strs(files@))),
        strs(old(labels)@).no_duplicates() ==> strs(final(labels)@).no_duplicates(),
{
    let ghost start = label_set(labels@);
    let ghost nodup = strs(labels@).no_duplicates();
    let mut i: usize = 0;
    assert(label_set(labels@) =~= start.union(file_language_labels(langs@, strs(files@).take(0))));
    while i < files.len()
        invariant
            i <= files@.len(),
            label_set(labels@) == start.union(file_language_labels(langs@, strs(files@).take(i as int))),
            nodup ==> strs(labels@).no_duplicates(),
        decreases files.len() - i,
    {
        let ghost prev = file_language_labels(langs@, strs(files@).take(i as int));
        assert(strs(files@).take(i + 1).drop_last() =~= strs(files@).take(i as int));
        assert(strs(files@).take(i + 1).last() == files@[i as int]@);
        match extension_of(files[i].as_str()) {
            Some(e) => match language_label(langs, e.as_str()) {
                Some(l) => {
                    add_label(labels, l);
                    assert(label_set(labels@) =~= start.union(prev.insert(l@)));
                },
                None => {},
            },
            None => {},
        }
        i += 1;
    }
    assert(strs(files@).take(files@.len() as int) =~= strs(files@));
}

/// The extensions of the files, each once.
fn extensions_of_files(files: &Vec<String>) -> (r: Vec<String>)
    ensures
        label_set(r@) == file_extensions(strs(files@)),
{
    let mut r: Vec<String> = Vec::new();
    let mut i: usize = 0;
    assert(label_set(r@) =~= file_extensions(strs(files@).take(0)));
    while i < files.len()
        invariant
            i <= files@.len(),
            label_set(r@) == file_extensions(strs(files@).take(i as int)),
        decreases files.len() - i,
    {
        assert(strs(files@).take(i + 1).drop_last() =~= strs(files@).take(i as int));
        assert(strs(files@).take(i + 1).last() == files@[i as int]@);
        match extension_of(files[i].as_str()) {
            Some(e) => add_label(&mut r, e.as_str()),
            None => {},
        }
        i += 1;
    }
    assert(strs(files@).take(files@.len() as int) =~= strs(files@));
    r
}

/// Adds the label of each entry of the extension table one of whose
/// extensions is among `exts`.
fn add_extension_labels(table: &Vec<(&'static str, Vec<&'static str>)>, exts: &Vec<String>, labels: &mut Vec<String>)
    ensures
        label_set(final(labels)@) == with_extension_labels(table@, label_set(exts@), label_set(old(labels)@)),
        strs(old(labels)@).no_duplicates() ==> strs(final(labels)@).no_duplicates(),
{
    let ghost start = label_set(labels@);
    let ghost nodup = strs(labels@).no_duplicates();
    let mut i: usize = 0;
    assert(table@.take(0) =~= Seq::<(&'static str, Vec<&'static str>)>::empty());
    while i < table.len()
        invariant
            i <= table@.len(),
            label_set(labels@) == with_extension_labels(table@.take(i as int), label_set(exts@), start),
            nodup ==> strs(labels@).no_duplicates(),
        decreases table.len() - i,
    {
        assert(table@.take(i + 1).drop_last() =~= table@.take(i as int));
        assert(table@.take(i + 1).last() == table@[i as int]);
        if any_label(&table[i].1, exts) {
            add_label(labels, table[i].0);
        }
        i += 1;
    }
    assert(table@.take(table@.len() as int) =~= table@);
}

/// Detects labels from the languages of a repository's files and the build
/// modules marked at its root.
pub struct DetectLabels {
    pub languages: Vec<Language>,
    pub language_labels: Vec<&'static str>,
    pub modules: Vec<Module>,
    pub module_labels: Vec<&'static str>,
}

impl DetectLabels {
    /// The labels that detection decides on: those of the languages and of
    /// the modules.
    pub open spec fn builtin(&self) -> Set<Seq<char>> {
        text_set(self.language_labels@).union(text_set(self.module_labels@))
    }

    /// Detection with the built-in languages and modules.
    pub fn new() -> (r: DetectLabels)
        ensures
            r.languages@.map_values(|l: Language| l.raw()) == language_table(),
            r.modules@.map_values(|m: Module| m.raw()) == language_module_table(),
            r.language_labels@ == r.languages@.map_values(|l: Language| l.label),
            r.module_labels@ == r.modules@.map_values(|m: Module| m.label),
    {
        let languages = builtin_languages();
        let modules = builtin_modules();
        let language_labels = language_labels_of(&languages);
        let module_labels = module_labels_of(&modules);
        DetectLabels { languages, language_labels, modules, module_labels }
    }

    /// The labels without those that detection decides on.
    pub fn clear(&self, labels: Option<Vec<String>>) -> (r: Option<Vec<String>>)
        ensures
            match labels {
                Some(v) => r matches Some(w) && label_set(w@) == user_labels(label_set(v@), self.builtin())
                    && strs(w@).no_duplicates(),
                None => r is None,
            },
    {
        match labels {
            Some(v) => Some(keep_user_labels(&v, &self.language_labels, &self.module_labels)),
            None => None,
        }
    }

    /// The labels of a repository detected anew: those a user gave are
    /// kept, the language of each tracked file adds its label, then each
    /// module found at the root adds its own. A repository without labels
    /// keeps none.
    pub fn update(&self, labels: Option<Vec<String>>, files: &Vec<String>, root_files: &Vec<String>, root_dirs: &Vec<String>) -> (r: Option<Vec<String>>)
        ensures
            match labels {
                Some(v) => r matches Some(w) && strs(w@).no_duplicates() && label_set(w@) == with_modules(self.modules@,
                    user_labels(label_set(v@), self.builtin()).union(file_language_labels(self.languages@, strs(files@))),
                    label_set(root_files@), label_set(root_dirs@)),
                None => r is None,
            },
    {
        match labels {
            Some(v) => {
                let mut w = keep_user_labels(&v, &self.language_labels, &self.module_labels);
                add_language_labels(&self.languages, files, &mut w);
                add_modules(&self.modules, &mut w, root_files, root_dirs);
                Some(w)
            },
            None => None,
        }
    }

    /// The labels in the order in which they are listed: those a user gave,
    /// then language labels, then module labels, each group by text.
    pub fn sort(&self, labels: Option<&Vec<String>>) -> (r: Option<Vec<String>>)
        ensures
            match labels {
                Some(v) => r matches Some(w)
                    && labels_in_order(strs(w@), text_set(self.language_labels@), text_set(self.module_labels@))
                    && strs(w@).to_multiset() == strs(v@).to_multiset(),
                None => r is None,
            },
    {
        match labels {
            Some(v) => Some(order_labels(v, &self.language_labels, &self.module_labels)),
            None => None,
        }
    }

    /// The sorted labels joined with commas.
    pub fn format(&self, labels: Option<&Vec<String>>) -> (r: Option<String>)
        ensures
            match labels {
                Some(v) => r matches Some(s) && exists|w: Seq<Seq<char>>|
                    labels_in_order(w, text_set(self.language_labels@), text_set(self.module_labels@))
                    && w.to_multiset() == strs(v@).to_multiset() && s@ == #[trigger] join(w, ","@),
                None => r is None,
            },
    {
        match self.sort(labels) {
            Some(w) => {
                let s = join_strs(&w, ",");
                assert(s@ == join(strs(w@), ","@));
                Some(s)
            },
            None => None,
        }
    }
}

/// Detects labels from the extensions of a repository's files and the build
/// modules marked at its root.
pub struct Detect {
    pub label_extensions: Vec<(&'static str, Vec<&'static str>)>,
    pub extension_labels: Vec<&'static str>,
    pub modules: Vec<Module>,
    pub module_labels: Vec<&'static str>,
}

impl Detect {
    /// The labels that detection decides on: those of the extension table
    /// and of the modules.
    pub open spec fn builtin(&self) -> Set<Seq<char>> {
        text_set(self.extension_labels@).union(text_set(self.module_labels@))
    }

    /// Detection with the built-in extension table and modules.
    pub fn new() -> (r: Detect)
        ensures
            r.label_extensions@.map_values(|e: (&'static str, Vec<&'static str>)| (e.0, e.1@)) == extension_table(),
            r.modules@.map_values(|m: Module| m.raw()) == module_table(),
            r.extension_labels@ == r.label_extensions@.map_values(|e: (&'static str, Vec<&'static str>)| e.0),
            r.module_labels@ == r.modules@.map_values(|m: Module| m.label),
    {
        let label_extensions = build_extensions();
        let modules = build_modules();
        let mut extension_labels: Vec<&'static str> = Vec::new();
        let mut i: usize = 0;
        while i < label_extensions.len()
            invariant
                i <= label_extensions@.len(),
                extension_labels@ == label_extensions@.take(i as int).map_values(|e: (&'static str, Vec<&'static str>)| e.0),
            decreases label_extensions.len() - i,
        {
            extension_labels.push(label_extensions[i].0);
            assert(label_extensions@.take(i + 1).map_values(|e: (&'static str, Vec<&'static str>)| e.0)
                =~= label_extensions@.take(i as int).map_values(|e: (&'static str, Vec<&'static str>)| e.0).push(label_extensions@[i as int].0));
            i += 1;
        }
        assert(label_extensions@.take(label_extensions@.len() as int) =~= label_extensions@);
        let module_labels = module_labels_of(&modules);
        Detect { label_extensions, extension_labels, modules, module_labels }
    }

    /// The labels of a repository detected anew: those a user gave are
    /// kept, each entry of the extension table whose extensions occur among
    /// the tracked files adds its label, then each module found at the root
    /// adds its own. A repository without labels keeps none.
    pub fn update_labels(&self, labels: Option<Vec<String>>, files: &Vec<String>, root_files: &Vec<String>, root_dirs: &Vec<String>) -> (r: Option<Vec<String>>)
        ensures
            match labels {
                Some(v) => r matches Some(w) && strs(w@).no_duplicates() && label_set(w@) == with_modules(self.modules@,
                    with_extension_labels(self.label_extensions@, file_extensions(strs(files@)),
                        user_labels(label_set(v@), self.builtin())),
                    label_set(root_files@), label_set(root_dirs@)),
                None => r is None,
            },
    {
        match labels {
            Some(v) => {
                let mut w = keep_user_labels(&v, &self.extension_labels, &self.module_labels);
                let exts = extensions_of_files(files);
                add_extension_labels(&self.label_extensions, &exts, &mut w);
                add_modules(&self.modules, &mut w, root_files, root_dirs);
                Some(w)
            },
            None => None,
        }
    }

    /// The labels in the order in which they are listed: those a user gave,
    /// then extension labels, then module labels, each group by text.
    pub fn sort_labels(&self, labels: Option<&Vec<String>>) -> (r: Option<Vec<String>>)
        ensures
            match labels {
                Some(v) => r matches Some(w)
                    && labels_in_order(strs(w@), text_set(self.extension_labels@), text_set(self.module_labels@))
                    && strs(w@).to_multiset() == strs(v@).to_multiset(),
                None => r is None,
            },
    {
        match labels {
            Some(v) => Some(order_labels(v, &self.extension_labels, &self.module_labels)),
            None => None,
        }
    }

    /// The sorted labels joined with commas.
    pub fn format_labels(&self, labels: Option<&Vec<String>>) -> (r: Option<String>)
        ensures
            match labels {
                Some(v) => r matches Some(s) && exists|w: Seq<Seq<char>>|
                    labels_in_order(w, text_set(self.extension_labels@), text_set(self.module_labels@))
                    && w.to_multiset() == strs(v@).to_multiset() && s@ == #[trigger] join(w, ","@),
                None => r is None,
            },
    {
        match self.sort_labels(labels) {
            Some(w) => {
                let s = join_strs(&w, ",");
                assert(s@ == join(strs(w@), ","@));
                Some(s)
            },
            None => None,
        }
    }
}


/// The files of one language.
#[derive(Debug)]
pub struct LanguageGroup {
    pub language: Language,
    pub files: Vec<String>,
}

/// The position of the first language whose extensions hold `ext`.
pub open spec fn language_index_of(langs: Seq<Language>, ext: Seq<char>) -> Option<int>
    decreases langs.len(),
{
    if langs.len() == 0 {
        None
    } else if langs[0].text().2.contains(ext) {
        Some(0)
    } else {
        match language_index_of(langs.skip(1), ext) {
            Some(i) => Some(i + 1),
            None => None,
        }
    }
}

/// The position of the language of a file, by its extension.
pub open spec fn file_language(langs: Seq<Language>, file: Seq<char>) -> Option<int> {
    match file_extension(file) {
        Some(e) => language_index_of(langs, e),
        None => None,
    }
}

/// The files whose language has the label `label`, in order.
pub open spec fn files_of_label(langs: Seq<Language>, files: Seq<Seq<char>>, label: Seq<char>) -> Seq<Seq<char>>
    decreases files.len(),
{
    if files.len() == 0 {
        Seq::empty()
    } else {
        let r = files_of_label(langs, files.drop_last(), label);
        match file_language(langs, files.last()) {
            Some(i) => if langs[i].label@ == label { r.push(files.last()) } else { r },
            None => r,
        }
    }
}

/// Groups of files as the languages of the files give them: one group per
/// label, in order of labels, holding the files of that label in order and
/// the language that the first of them was found with.
pub open spec fn groups_of(langs: Seq<Language>, files: Seq<Seq<char>>, groups: Seq<LanguageGroup>) -> bool {
    &&& forall|a: int, b: int| 0 <= a < b < groups.len() ==> lex_lt(#[trigger] groups[a].language.label@, #[trigger] groups[b].language.label@)
    &&& forall|a: int| 0 <= a < groups.len() ==> {
        let g = #[trigger] groups[a];
        &&& strs(g.files@) == files_of_label(langs, files, g.language.label@)
        &&& g.files@.len() > 0
        &&& file_language(langs, g.files@[0]@) matches Some(i) && 0 <= i < langs.len() && g.language.raw() == langs[i].raw()
    }
    &&& forall|l: Seq<char>| #[trigger] files_of_label(langs, files, l).len() > 0 ==>
        exists|a: int| 0 <= a < groups.len() && (#[trigger] groups[a]).language.label@ == l
}

/// The position of the first language whose extensions hold `ext`.
fn language_index(langs: &Vec<Language>, ext: &str) -> (r: Option<usize>)
    ensures
        match language_index_of(langs@, ext@) {
            Some(i) => r matches Some(k) && k as int == i && i < langs@.len(),
            None => r is None,
        },
{
    let mut i: usize = 0;
    assert(langs@.skip(0) =~= langs@);
    while i < langs.len()
        invariant
            i <= langs@.len(),
            language_index_of(langs@, ext@) == match language_index_of(langs@.skip(i as int), ext@) {
                Some(j) => Some(j + i),
                None => None,
            },
        decreases langs.len() - i,
    {
        let ghost rest = langs@.skip(i as int);
        assert(rest[0] == langs@[i as int]);
        if strs_contain(&langs[i].extensions, ext) {
            return Some(i);
        }
        assert(rest.skip(1) =~= langs@.skip(i + 1));
        i += 1;
    }
    None
}

/// A copy of a list of texts.
fn copy_strs(v: &Vec<&'static str>) -> (r: Vec<&'static str>)
    ensures
        r@ == v@,
{
    let mut r: Vec<&'static str> = Vec::new();
    let mut i: usize = 0;
    while i < v.len()
        invariant
            i <= v@.len(),
            r@ == v@.take(i as int),
        decreases v.len() - i,
    {
        r.push(v[i]);
        assert(r@ =~= v@.take(i + 1));
        i += 1;
    }
    assert(v@.take(v@.len() as int) =~= v@);
    r
}

/// A copy of a language.
fn copy_language(l: &Language) -> (r: Language)
    ensures
        r.raw() == l.raw(),
{
    Language { name: l.name, label: l.label, extensions: copy_strs(&l.extensions), comments: copy_strs(&l.comments) }
}

/// The files grouped by language: each file goes to the first language
/// whose extensions hold its extension (files with none are left out), one
/// group per label, in order of labels.
pub fn detect_languages(files: &Vec<String>, languages: &Vec<Language>) -> (r: Vec<LanguageGroup>)
    ensures
        groups_of(languages@, strs(files@), r@),
{
    let ghost fs = strs(files@);
    let mut groups: Vec<LanguageGroup> = Vec::new();
    let mut n: usize = 0;
    assert forall|l: Seq<char>| #[trigger] files_of_label(languages@, fs.take(0), l).len() > 0 implies false by {
        assert(fs.take(0).len() == 0);
    }
    while n < files.len()
        invariant
            fs == strs(files@),
            n <= files@.len(),
            groups_of(languages@, fs.take(n as int), groups@),
        decreases files.len() - n,
    {
        let ghost pre = fs.take(n as int);
        let ghost post = fs.take(n + 1);
        let ghost f = files@[n as int]@;
        assert(post.drop_last() =~= pre);
        assert(post.last() == f);
        let idx = match extension_of(files[n].as_str()) {
            Some(e) => language_index(languages, e.as_str()),
            None => None,
        };
        match idx {
            None => {
                assert(file_language(languages@, f) is None);
                assert forall|l: Seq<char>| files_of_label(languages@, post, l) == files_of_label(languages@, pre, l) by {}
            },
            Some(i) => {
                let label = languages[i].label;
                assert(file_language(languages@, f) == Some(i as int));
                proof {
                    assert forall|l: Seq<char>| #[trigger] files_of_label(languages@, post, l) == if l == label@ {
                        files_of_label(languages@, pre, l).push(f)
                    } else {
                        files_of_label(languages@, pre, l)
                    } by {}
                }
                let mut k: usize = 0;
                while k < groups.len()
                    invariant
                        k <= groups@.len(),
                        forall|a: int| 0 <= a < k ==> lex_lt(#[trigger] groups@[a].language.label@, label@),
                    ensures
                        k <= groups@.len(),
                        forall|a: int| 0 <= a < k ==> lex_lt(#[trigger] groups@[a].language.label@, label@),
                        k < groups@.len() ==> !lex_lt(groups@[k as int].language.label@, label@),
                    decreases groups.len() - k,
                {
                    if !str_lt(groups[k].language.label, label) {
                        break;
                    }
                    k += 1;
                }
                let ghost before = groups@;
                if k < groups.len() && crate::text::eq_str(groups[k].language.label, label) {
                    let mut g = groups.remove(k);
                    g.files.push(owned(files[n].as_str()));
                    proof {
                        assert(strs(g.files@) =~= strs(before[k as int].files@).push(f));
                        assert(g.files@[0] == before[k as int].files@[0]);
                    }
                    groups.insert(k, g);
                    proof {
                        assert forall|a: int| 0 <= a < groups@.len() implies (#[trigger] groups@[a]).language.label@ == before[a].language.label@
                            && (a != k ==> groups@[a] == before[a]) by {
                            if a != k {
                                assert(groups@[a] == before[a]);
                            }
                        }
                        let gs = groups@;
                        assert forall|a: int| 0 <= a < gs.len() implies {
                            let g = #[trigger] gs[a];
                            &&& strs(g.files@) == files_of_label(languages@, post, g.language.label@)
                            &&& g.files@.len() > 0
                            &&& file_language(languages@, g.files@[0]@) matches Some(j) && 0 <= j < languages@.len() && g.language.raw() == languages@[j].raw()
                        } by {
                            if a != k {
                                assert(gs[a] == before[a]);
                                if before[a].language.label@ == label@ {
                                    lemma_lex_irreflexive(label@);
                                    if a < k {
                                    } else {
                                        assert(before[k as int].language.label@ == label@);
                                    }
                                }
                            }
                        }
                        assert forall|l: Seq<char>| #[trigger] files_of_label(languages@, post, l).len() > 0 implies
                            exists|a: int| 0 <= a < gs.len() && (#[trigger] gs[a]).language.label@ == l by {
                            if l == label@ {
                                assert(gs[k as int].language.label@ == l);
                            } else {
                                assert(files_of_label(languages@, pre, l).len() > 0);
                                let a = choose|a: int| 0 <= a < before.len() && (#[trigger] before[a]).language.label@ == l;
                                assert(gs[a].language.label@ == l);
                            }
                        }
                    }
                } else {
                    let mut fv: Vec<String> = Vec::new();
                    fv.push(owned(files[n].as_str()));
                    let g = LanguageGroup { language: copy_language(&languages[i]), files: fv };
                    proof {
                        if k < before.len() {
                            lemma_lex_total(before[k as int].language.label@, label@);
                        }
                        assert(files_of_label(languages@, pre, label@).len() == 0) by {
                            if files_of_label(languages@, pre, label@).len() > 0 {
                                let a = choose|a: int| 0 <= a < before.len() && (#[trigger] before[a]).language.label@ == label@;
                                if a < k {
                                    lemma_lex_irreflexive(label@);
                                } else if a > k {
                                    assert(lex_lt(before[k as int].language.label@, before[a].language.label@));
                                    lemma_lex_transitive(label@, before[k as int].language.label@, label@);
                                    lemma_lex_irreflexive(label@);
                                }
                            }
                        }
                        assert(strs(g.files@) =~= seq![f]);
                        assert(seq![f] =~= Seq::<Seq<char>>::empty().push(f));
                    }
                    groups.insert(k, g);
                    proof {
                        let gs = groups@;
                        assert(gs == before.insert(k as int, g));
                        assert forall|a: int, b: int| 0 <= a < b < gs.len() implies lex_lt(#[trigger] gs[a].language.label@, #[trigger] gs[b].language.label@) by {
                            if b < k {
                                assert(gs[a] == before[a] && gs[b] == before[b]);
                            } else if b == k {
                                assert(gs[a] == before[a]);
                            } else if a < k {
                                assert(gs[a] == before[a] && gs[b] == before[b - 1]);
                            } else if a == k {
                                assert(gs[b] == before[b - 1]);
                                if b - 1 > k {
                                    lemma_lex_transitive(label@, before[k as int].language.label@, before[b - 1].language.label@);
                                }
                            } else {
                                assert(gs[a] == before[a - 1] && gs[b] == before[b - 1]);
                            }
                        }
                        assert forall|a: int| 0 <= a < gs.len() implies {
                            let g = #[trigger] gs[a];
                            &&& strs(g.files@) == files_of_label(languages@, post, g.language.label@)
                            &&& g.files@.len() > 0
                            &&& file_language(languages@, g.files@[0]@) matches Some(j) && 0 <= j < languages@.len() && g.language.raw() == languages@[j].raw()
                        } by {
                            if a != k {
                                let b = if a < k { a } else { a - 1 };
                                assert(gs[a] == before[b]);
                                if before[b].language.label@ == label@ {
                                    assert(files_of_label(languages@, pre, label@).len() > 0);
                                }
                            } else {
                                assert(gs[a] == g);
                                assert(g.files@[0]@ == f);
                            }
                        }
                        assert forall|l: Seq<char>| #[trigger] files_of_label(languages@, post, l).len() > 0 implies
                            exists|a: int| 0 <= a < gs.len() && (#[trigger] gs[a]).language.label@ == l by {
                            if l == label@ {
                                assert(gs[k as int].language.label@ == l);
                            } else {
                                assert(files_of_label(languages@, pre, l).len() > 0);
                                let a = choose|a: int| 0 <= a < before.len() && (#[trigger] before[a]).language.label@ == l;
                                if a < k {
                                    assert(gs[a] == before[a]);
                                } else {
                                    assert(gs[a + 1] == before[a]);
                                }
                            }
                        }
                    }
                }
            },
        }
        n += 1;
    }
    assert(fs.take(files@.len() as int) =~= fs);
    groups
}

proof fn lemma_label_at(langs: Seq<Language>, ext: Seq<char>, i: int)
    requires
        0 <= i < langs.len(),
        forall|j: int| 0 <= j < i ==> !(#[trigger] langs[j].text().2.contains(ext)),
        langs[i].text().2.contains(ext),
    ensures
        language_label_of(langs, ext) == Some(langs[i].text().1),
    decreases i,
{
    if i > 0 {
        let t = langs.skip(1);
        assert forall|j: int| 0 <= j < i - 1 implies !(#[trigger] t[j].text().2.contains(ext)) by {
            assert(t[j] == langs[j + 1]);
        }
        assert(t[i - 1] == langs[i]);
        assert(!langs[0].text().2.contains(ext));
        lemma_label_at(t, ext, i - 1);
    }
}

/// The languages that the built-in table recognizes, by the first
/// extension of each: a file ending in `.py` is Python (label `python`),
/// `.rs` Rust, `.go` Go, and so on for every built-in language.
#[verifier::spinoff_prover]
#[verifier::rlimit(50)]
pub proof fn law_builtin_language_labels(langs: Seq<Language>)
    requires
        langs.map_values(|l: Language| l.raw()) == language_table(),
    ensures
        language_label_of(langs, seq!['c']) == Some(seq!['c']),
        language_label_of(langs, seq!['c', 'p', 'p']) == Some(seq!['c', 'p', 'p']),
        language_label_of(langs, seq!['c', 's']) == Some(seq!['c', 's', 'h', 'a', 'r', 'p']),
        language_label_of(langs, seq!['r', 's']) == Some(seq!['r', 'u', 's', 't']),
        language_label_of(langs, seq!['g', 'o']) == Some(seq!['g', 'o']),
        language_label_of(langs, seq!['j', 'a', 'v', 'a']) == Some(seq!['j', 'a', 'v', 'a']),
        language_label_of(langs, seq!['j', 's']) == Some(seq!['j', 's']),
        language_label_of(langs, seq!['t', 's']) == Some(seq!['t', 's']),
        language_label_of(langs, seq!['l', 'u', 'a']) == Some(seq!['l', 'u', 'a']),
        language_label_of(langs, seq!['p', 'y']) == Some(seq!['p', 'y', 't', 'h', 'o', 'n']),
        language_label_of(langs, seq!['h', 't', 'm', 'l']) == Some(seq!['h', 't', 'm', 'l']),
        language_label_of(langs, seq!['c', 's', 's']) == Some(seq!['c', 's', 's']),
        language_label_of(langs, seq!['p', 'h', 'p']) == Some(seq!['p', 'h', 'p']),
        language_label_of(langs, seq!['R']) == Some(seq!['r']),
        language_label_of(langs, seq!['r', 'b']) == Some(seq!['r', 'u', 'b', 'y']),
        language_label_of(langs, seq!['p', 'l']) == Some(seq!['p', 'e', 'r', 'l']),
        language_label_of(langs, seq!['k', 't']) == Some(seq!['k', 'o', 't', 'l', 'i', 'n']),
        language_label_of(langs, seq!['s', 'c', 'a', 'l', 'a']) == Some(seq!['s', 'c', 'a', 'l', 'a']),
{
    assert(language_table().len() == 18);
    assert(langs.map_values(|l: Language| l.raw()).len() == langs.len());
    assert(langs.len() == 18);
    reveal_strlit("C");
    reveal_strlit("R");
    reveal_strlit("c");
    reveal_strlit("cc");
    reveal_strlit("cpp");
    reveal_strlit("cs");
    reveal_strlit("csharp");
    reveal_strlit("css");
    reveal_strlit("go");
    reveal_strlit("h");
    reveal_strlit("hpp");
    reveal_strlit("html");
    reveal_strlit("java");
    reveal_strlit("js");
    reveal_strlit("kotlin");
    reveal_strlit("kt");
    reveal_strlit("lua");
    reveal_strlit("perl");
    reveal_strlit("php");
    reveal_strlit("pl");
    reveal_strlit("py");
    reveal_strlit("python");
    reveal_strlit("r");
    reveal_strlit("rb");
    reveal_strlit("rs");
    reveal_strlit("ruby");
    reveal_strlit("rust");
    reveal_strlit("scala");
    reveal_strlit("ts");
    assert("C"@ =~= seq!['C']);
    assert("R"@ =~= seq!['R']);
    assert("c"@ =~= seq!['c']);
    assert("cc"@ =~= seq!['c', 'c']);
    assert("cpp"@ =~= seq!['c', 'p', 'p']);
    assert("cs"@ =~= seq!['c', 's']);
    assert("csharp"@ =~= seq!['c', 's', 'h', 'a', 'r', 'p']);
    assert("css"@ =~= seq!['c', 's', 's']);
    assert("go"@ =~= seq!['g', 'o']);
    assert("h"@ =~= seq!['h']);
    assert("hpp"@ =~= seq!['h', 'p', 'p']);
    assert("html"@ =~= seq!['h', 't', 'm', 'l']);
    assert("java"@ =~= seq!['j', 'a', 'v', 'a']);
    assert("js"@ =~= seq!['j', 's']);
    assert("kotlin"@ =~= seq!['k', 'o', 't', 'l', 'i', 'n']);
    assert("kt"@ =~= seq!['k', 't']);
    assert("lua"@ =~= seq!['l', 'u', 'a']);
    assert("perl"@ =~= seq!['p', 'e', 'r', 'l']);
    assert("php"@ =~= seq!['p', 'h', 'p']);
    assert("pl"@ =~= seq!['p', 'l']);
    assert("py"@ =~= seq!['p', 'y']);
    assert("python"@ =~= seq!['p', 'y', 't', 'h', 'o', 'n']);
    assert("r"@ =~= seq!['r']);
    assert("rb"@ =~= seq!['r', 'b']);
    assert("rs"@ =~= seq!['r', 's']);
    assert("ruby"@ =~= seq!['r', 'u', 'b', 'y']);
    assert("rust"@ =~= seq!['r', 'u', 's', 't']);
    assert("scala"@ =~= seq!['s', 'c', 'a', 'l', 'a']);
    assert("ts"@ =~= seq!['t', 's']);
    assert(langs[0].raw() == language_table()[0]);
    assert(langs[0].text().2 =~= seq!["c"@, "h"@]);
    assert(langs[0].text().1 == "c"@);
    assert(langs[1].raw() == language_table()[1]);
    assert(langs[1].text().2 =~= seq!["cpp"@, "cc"@, "C"@, "hpp"@]);
    assert(langs[1].text().1 == "cpp"@);
    assert(langs[2].raw() == language_table()[2]);
    assert(langs[2].text().2 =~= seq!["cs"@]);
    assert(langs[2].text().1 == "csharp"@);
    assert(langs[3].raw() == language_table()[3]);
    assert(langs[3].text().2 =~= seq!["rs"@]);
    assert(langs[3].text().1 == "rust"@);
    assert(langs[4].raw() == language_table()[4]);
    assert(langs[4].text().2 =~= seq!["go"@]);
    assert(langs[4].text().1 == "go"@);
    assert(langs[5].raw() == language_table()[5]);
    assert(langs[5].text().2 =~= seq!["java"@]);
    assert(langs[5].text().1 == "java"@);
    assert(langs[6].raw() == language_table()[6]);
    assert(langs[6].text().2 =~= seq!["js"@]);
    assert(langs[6].text().1 == "js"@);
    assert(langs[7].raw() == language_table()[7]);
    assert(langs[7].text().2 =~= seq!["ts"@]);
    assert(langs[7].text().1 == "ts"@);
    assert(langs[8].raw() == language_table()[8]);
    assert(langs[8].text().2 =~= seq!["lua"@]);
    assert(langs[8].text().1 == "lua"@);
    assert(langs[9].raw() == language_table()[9]);
    assert(langs[9].text().2 =~= seq!["py"@]);
    assert(langs[9].text().1 == "python"@);
    assert(langs[10].raw() == language_table()[10]);
    assert(langs[10].text().2 =~= seq!["html"@]);
    assert(langs[10].text().1 == "html"@);
    assert(langs[11].raw() == language_table()[11]);
    assert(langs[11].text().2 =~= seq!["css"@]);
    assert(langs[11].text().1 == "css"@);
    assert(langs[12].raw() == language_table()[12]);
    assert(langs[12].text().2 =~= seq!["php"@]);
    assert(langs[12].text().1 == "php"@);
    assert(langs[13].raw() == language_table()[13]);
    assert(langs[13].text().2 =~= seq!["R"@]);
    assert(langs[13].text().1 == "r"@);
    assert(langs[14].raw() == language_table()[14]);
    assert(langs[14].text().2 =~= seq!["rb"@]);
    assert(langs[14].text().1 == "ruby"@);
    assert(langs[15].raw() == language_table()[15]);
    assert(langs[15].text().2 =~= seq!["pl"@]);
    assert(langs[15].text().1 == "perl"@);
    assert(langs[16].raw() == language_table()[16]);
    assert(langs[16].text().2 =~= seq!["kt"@]);
    assert(langs[16].text().1 == "kotlin"@);
    assert(langs[17].raw() == language_table()[17]);
    assert(langs[17].text().2 =~= seq!["scala"@]);
    assert(langs[17].text().1 == "scala"@);
    assert(language_label_of(langs, seq!['c']) == Some(seq!['c'])) by {
        assert(langs[0].text().2[0] == "c"@);
        lemma_label_at(langs, "c"@, 0);
    }
    assert(language_label_of(langs, seq!['c', 'p', 'p']) == Some(seq!['c', 'p', 'p'])) by {
        assert(!langs[0].text().2.contains("cpp"@)) by { assert(langs[0].text().2[0] != "cpp"@); assert(langs[0].text().2[1] != "cpp"@); }
        assert(langs[1].text().2[0] == "cpp"@);
        lemma_label_at(langs, "cpp"@, 1);
    }
    assert(language_label_of(langs, seq!['c', 's']) == Some(seq!['c', 's', 'h', 'a', 'r', 'p'])) by {
        assert(!langs[0].text().2.contains("cs"@)) by { assert(langs[0].text().2[0] != "cs"@); assert(langs[0].text().2[1] != "cs"@); }
        assert(!langs[1].text().2.contains("cs"@)) by { assert(langs[1].text().2[0] != "cs"@); assert(langs[1].text().2[1][1] != "cs"@[1]); assert(langs[1].text().2[1] != "cs"@); assert(langs[1].text().2[2] != "cs"@); assert(langs[1].text().2[3] != "cs"@); }
        assert(langs[2].text().2[0] == "cs"@);
        lemma_label_at(langs, "cs"@, 2);
    }
    assert(language_label_of(langs, seq!['r', 's']) == Some(seq!['r', 'u', 's', 't'])) by {
        assert(!langs[0].text().2.contains("rs"@)) by { assert(langs[0].text().2[0] != "rs"@); assert(langs[0].text().2[1] != "rs"@); }
        assert(!langs[1].text().2.contains("rs"@)) by { assert(langs[1].text().2[0] != "rs"@); assert(langs[1].text().2[1][0] != "rs"@[0]); assert(langs[1].text().2[1] != "rs"@); assert(langs[1].text().2[2] != "rs"@); assert(langs[1].text().2[3] != "rs"@); }
        assert(!langs[2].text().2.contains("rs"@)) by { assert(langs[2].text().2[0][0] != "rs"@[0]); assert(langs[2].text().2[0] != "rs"@); }
        assert(langs[3].text().2[0] == "rs"@);
        lemma_label_at(langs, "rs"@, 3);
    }
    assert(language_label_of(langs, seq!['g', 'o']) == Some(seq!['g', 'o'])) by {
        assert(!langs[0].text().2.contains("go"@)) by { assert(langs[0].text().2[0] != "go"@); assert(langs[0].text().2[1] != "go"@); }
        assert(!langs[1].text().2.contains("go"@)) by { assert(langs[1].text().2[0] != "go"@); assert(langs[1].text().2[1][0] != "go"@[0]); assert(langs[1].text().2[1] != "go"@); assert(langs[1].text().2[2] != "go"@); assert(langs[1].text().2[3] != "go"@); }
        assert(!langs[2].text().2.contains("go"@)) by { assert(langs[2].text().2[0][0] != "go"@[0]); assert(langs[2].text().2[0] != "go"@); }
        assert(!langs[3].text().2.contains("go"@)) by { assert(langs[3].text().2[0][0] != "go"@[0]); assert(langs[3].text().2[0] != "go"@); }
        assert(langs[4].text().2[0] == "go"@);
        lemma_label_at(langs, "go"@, 4);
    }
    assert(language_label_of(langs, seq!['j', 'a', 'v', 'a']) == Some(seq!['j', 'a', 'v', 'a'])) by {
        assert(!langs[0].text().2.contains("java"@)) by { assert(langs[0].text().2[0] != "java"@); assert(langs[0].text().2[1] != "java"@); }
        assert(!langs[1].text().2.contains("java"@)) by { assert(langs[1].text().2[0] != "java"@); assert(langs[1].text().2[1] != "java"@); assert(langs[1].text().2[2] != "java"@); assert(langs[1].text().2[3] != "java"@); }
        assert(!langs[2].text().2.contains("java"@)) by { assert(langs[2].text().2[0] != "java"@); }
        assert(!langs[3].text().2.contains("java"@)) by { assert(langs[3].text().2[0] != "java"@); }
        assert(!langs[4].text().2.contains("java"@)) by { assert(langs[4].text().2[0] != "java"@); }
        assert(langs[5].text().2[0] == "java"@);
        lemma_label_at(langs, "java"@, 5);
    }
    assert(language_label_of(langs, seq!['j', 's']) == Some(seq!['j', 's'])) by {
        assert(!langs[0].text().2.contains("js"@)) by { assert(langs[0].text().2[0] != "js"@); assert(langs[0].text().2[1] != "js"@); }
        assert(!langs[1].text().2.contains("js"@)) by { assert(langs[1].text().2[0] != "js"@); assert(langs[1].text().2[1][0] != "js"@[0]); assert(langs[1].text().2[1] != "js"@); assert(langs[1].text().2[2] != "js"@); assert(langs[1].text().2[3] != "js"@); }
        assert(!langs[2].text().2.contains("js"@)) by { assert(langs[2].text().2[0][0] != "js"@[0]); assert(langs[2].text().2[0] != "js"@); }
        assert(!langs[3].text().2.contains("js"@)) by { assert(langs[3].text().2[0][0] != "js"@[0]); assert(langs[3].text().2[0] != "js"@); }
        assert(!langs[4].text().2.contains("js"@)) by { assert(langs[4].text().2[0][0] != "js"@[0]); assert(langs[4].text().2[0] != "js"@); }
        assert(!langs[5].text().2.contains("js"@)) by { assert(langs[5].text().2[0] != "js"@); }
        assert(langs[6].text().2[0] == "js"@);
        lemma_label_at(langs, "js"@, 6);
    }
    assert(language_label_of(langs, seq!['t', 's']) == Some(seq!['t', 's'])) by {
        assert(!langs[0].text().2.contains("ts"@)) by { assert(langs[0].text().2[0] != "ts"@); assert(langs[0].text().2[1] != "ts"@); }
        assert(!langs[1].text().2.contains("ts"@)) by { assert(langs[1].text().2[0] != "ts"@); assert(langs[1].text().2[1][0] != "ts"@[0]); assert(langs[1].text().2[1] != "ts"@); assert(langs[1].text().2[2] != "ts"@); assert(langs[1].text().2[3] != "ts"@); }
        assert(!langs[2].text().2.contains("ts"@)) by { assert(langs[2].text().2[0][0] != "ts"@[0]); assert(langs[2].text().2[0] != "ts"@); }
        assert(!langs[3].text().2.contains("ts"@)) by { assert(langs[3].text().2[0][0] != "ts"@[0]); assert(langs[3].text().2[0] != "ts"@); }
        assert(!langs[4].text().2.contains("ts"@)) by { assert(langs[4].text().2[0][0] != "ts"@[0]); assert(langs[4].text().2[0] != "ts"@); }
        assert(!langs[5].text().2.contains("ts"@)) by { assert(langs[5].text().2[0] != "ts"@); }
        assert(!langs[6].text().2.contains("ts"@)) by { assert(langs[6].text().2[0][0] != "ts"@[0]); assert(langs[6].text().2[0] != "ts"@); }
        assert(langs[7].text().2[0] == "ts"@);
        lemma_label_at(langs, "ts"@, 7);
    }
    assert(language_label_of(langs, seq!['l', 'u', 'a']) == Some(seq!['l', 'u', 'a'])) by {
        assert(!langs[0].text().2.contains("lua"@)) by { assert(langs[0].text().2[0] != "lua"@); assert(langs[0].text().2[1] != "lua"@); }
        assert(!langs[1].text().2.contains("lua"@)) by { assert(langs[1].text().2[0][0] != "lua"@[0]); assert(langs[1].text().2[0] != "lua"@); assert(langs[1].text().2[1] != "lua"@); assert(langs[1].text().2[2] != "lua"@); assert(langs[1].text().2[3][0] != "lua"@[0]); assert(langs[1].text().2[3] != "lua"@); }
        assert(!langs[2].text().2.contains("lua"@)) by { assert(langs[2].text().2[0] != "lua"@); }
        assert(!langs[3].text().2.contains("lua"@)) by { assert(langs[3].text().2[0] != "lua"@); }
        assert(!langs[4].text().2.contains("lua"@)) by { assert(langs[4].text().2[0] != "lua"@); }
        assert(!langs[5].text().2.contains("lua"@)) by { assert(langs[5].text().2[0] != "lua"@); }
        assert(!langs[6].text().2.contains("lua"@)) by { assert(langs[6].text().2[0] != "lua"@); }
        assert(!langs[7].text().2.contains("lua"@)) by { assert(langs[7].text().2[0] != "lua"@); }
        assert(langs[8].text().2[0] == "lua"@);
        lemma_label_at(langs, "lua"@, 8);
    }
    assert(language_label_of(langs, seq!['p', 'y']) == Some(seq!['p', 'y', 't', 'h', 'o', 'n'])) by {
        assert(!langs[0].text().2.contains("py"@)) by { assert(langs[0].text().2[0] != "py"@); assert(langs[0].text().2[1] != "py"@); }
        assert(!langs[1].text().2.contains("py"@)) by { assert(langs[1].text().2[0] != "py"@); assert(langs[1].text().2[1][0] != "py"@[0]); assert(langs[1].text().2[1] != "py"@); assert(langs[1].text().2[2] != "py"@); assert(langs[1].text().2[3] != "py"@); }
        assert(!langs[2].text().2.contains("py"@)) by { assert(langs[2].text().2[0][0] != "py"@[0]); assert(langs[2].text().2[0] != "py"@); }
        assert(!langs[3].text().2.contains("py"@)) by { assert(langs[3].text().2[0][0] != "py"@[0]); assert(langs[3].text().2[0] != "py"@); }
        assert(!langs[4].text().2.contains("py"@)) by { assert(langs[4].text().2[0][0] != "py"@[0]); assert(langs[4].text().2[0] != "py"@); }
        assert(!langs[5].text().2.contains("py"@)) by { assert(langs[5].text().2[0] != "py"@); }
        assert(!langs[6].text().2.contains("py"@)) by { assert(langs[6].text().2[0][0] != "py"@[0]); assert(langs[6].text().2[0] != "py"@); }
        assert(!langs[7].text().2.contains("py"@)) by { assert(langs[7].text().2[0][0] != "py"@[0]); assert(langs[7].text().2[0] != "py"@); }
        assert(!langs[8].text().2.contains("py"@)) by { assert(langs[8].text().2[0] != "py"@); }
        assert(langs[9].text().2[0] == "py"@);
        lemma_label_at(langs, "py"@, 9);
    }
    assert(language_label_of(langs, seq!['h', 't', 'm', 'l']) == Some(seq!['h', 't', 'm', 'l'])) by {
        assert(!langs[0].text().2.contains("html"@)) by { assert(langs[0].text().2[0] != "html"@); assert(langs[0].text().2[1] != "html"@); }
        assert(!langs[1].text().2.contains("html"@)) by { assert(langs[1].text().2[0] != "html"@); assert(langs[1].text().2[1] != "html"@); assert(langs[1].text().2[2] != "html"@); assert(langs[1].text().2[3] != "html"@); }
        assert(!langs[2].text().2.contains("html"@)) by { assert(langs[2].text().2[0] != "html"@); }
        assert(!langs[3].text().2.contains("html"@)) by { assert(langs[3].text().2[0] != "html"@); }
        assert(!langs[4].text().2.contains("html"@)) by { assert(langs[4].text().2[0] != "html"@); }
        assert(!langs[5].text().2.contains("html"@)) by { assert(langs[5].text().2[0][0] != "html"@[0]); assert(langs[5].text().2[0] != "html"@); }
        assert(!langs[6].text().2.contains("html"@)) by { assert(langs[6].text().2[0] != "html"@); }
        assert(!langs[7].text().2.contains("html"@)) by { assert(langs[7].text().2[0] != "html"@); }
        assert(!langs[8].text().2.contains("html"@)) by { assert(langs[8].text().2[0] != "html"@); }
        assert(!langs[9].text().2.contains("html"@)) by { assert(langs[9].text().2[0] != "html"@); }
        assert(langs[10].text().2[0] == "html"@);
        lemma_label_at(langs, "html"@, 10);
    }
    assert(language_label_of(langs, seq!['c', 's', 's']) == Some(seq!['c', 's', 's'])) by {
        assert(!langs[0].text().2.contains("css"@)) by { assert(langs[0].text().2[0] != "css"@); assert(langs[0].text().2[1] != "css"@); }
        assert(!langs[1].text().2.contains("css"@)) by { assert(langs[1].text().2[0][1] != "css"@[1]); assert(langs[1].text().2[0] != "css"@); assert(langs[1].text().2[1] != "css"@); assert(langs[1].text().2[2] != "css"@); assert(langs[1].text().2[3][0] != "css"@[0]); assert(langs[1].text().2[3] != "css"@); }
        assert(!langs[2].text().2.contains("css"@)) by { assert(langs[2].text().2[0] != "css"@); }
        assert(!langs[3].text().2.contains("css"@)) by { assert(langs[3].text().2[0] != "css"@); }
        assert(!langs[4].text().2.contains("css"@)) by { assert(langs[4].text().2[0] != "css"@); }
        assert(!langs[5].text().2.contains("css"@)) by { assert(langs[5].text().2[0] != "css"@); }
        assert(!langs[6].text().2.contains("css"@)) by { assert(langs[6].text().2[0] != "css"@); }
        assert(!langs[7].text().2.contains("css"@)) by { assert(langs[7].text().2[0] != "css"@); }
        assert(!langs[8].text().2.contains("css"@)) by { assert(langs[8].text().2[0][0] != "css"@[0]); assert(langs[8].text().2[0] != "css"@); }
        assert(!langs[9].text().2.contains("css"@)) by { assert(langs[9].text().2[0] != "css"@); }
        assert(!langs[10].text().2.contains("css"@)) by { assert(langs[10].text().2[0] != "css"@); }
        assert(langs[11].text().2[0] == "css"@);
        lemma_label_at(langs, "css"@, 11);
    }
    assert(language_label_of(langs, seq!['p', 'h', 'p']) == Some(seq!['p', 'h', 'p'])) by {
        assert(!langs[0].text().2.contains("php"@)) by { assert(langs[0].text().2[0] != "php"@); assert(langs[0].text().2[1] != "php"@); }
        assert(!langs[1].text().2.contains("php"@)) by { assert(langs[1].text().2[0][0] != "php"@[0]); assert(langs[1].text().2[0] != "php"@); assert(langs[1].text().2[1] != "php"@); assert(langs[1].text().2[2] != "php"@); assert(langs[1].text().2[3][0] != "php"@[0]); assert(langs[1].text().2[3] != "php"@); }
        assert(!langs[2].text().2.contains("php"@)) by { assert(langs[2].text().2[0] != "php"@); }
        assert(!langs[3].text().2.contains("php"@)) by { assert(langs[3].text().2[0] != "php"@); }
        assert(!langs[4].text().2.contains("php"@)) by { assert(langs[4].text().2[0] != "php"@); }
        assert(!langs[5].text().2.contains("php"@)) by { assert(langs[5].text().2[0] != "php"@); }
        assert(!langs[6].text().2.contains("php"@)) by { assert(langs[6].text().2[0] != "php"@); }
        assert(!langs[7].text().2.contains("php"@)) by { assert(langs[7].text().2[0] != "php"@); }
        assert(!langs[8].text().2.contains("php"@)) by { assert(langs[8].text().2[0][0] != "php"@[0]); assert(langs[8].text().2[0] != "php"@); }
        assert(!langs[9].text().2.contains("php"@)) by { assert(langs[9].text().2[0] != "php"@); }
        assert(!langs[10].text().2.contains("php"@)) by { assert(langs[10].text().2[0] != "php"@); }
        assert(!langs[11].text().2.contains("php"@)) by { assert(langs[11].text().2[0][0] != "php"@[0]); assert(langs[11].text().2[0] != "php"@); }
        assert(langs[12].text().2[0] == "php"@);
        lemma_label_at(langs, "php"@, 12);
    }
    assert(language_label_of(langs, seq!['R']) == Some(seq!['r'])) by {
        assert(!langs[0].text().2.contains("R"@)) by { assert(langs[0].text().2[0][0] != "R"@[0]); assert(langs[0].text().2[0] != "R"@); assert(langs[0].text().2[1][0] != "R"@[0]); assert(langs[0].text().2[1] != "R"@); }
        assert(!langs[1].text().2.contains("R"@)) by { assert(langs[1].text().2[0] != "R"@); assert(langs[1].text().2[1] != "R"@); assert(langs[1].text().2[2][0] != "R"@[0]); assert(langs[1].text().2[2] != "R"@); assert(langs[1].text().2[3] != "R"@); }
        assert(!langs[2].text().2.contains("R"@)) by { assert(langs[2].text().2[0] != "R"@); }
        assert(!langs[3].text().2.contains("R"@)) by { assert(langs[3].text().2[0] != "R"@); }
        assert(!langs[4].text().2.contains("R"@)) by { assert(langs[4].text().2[0] != "R"@); }
        assert(!langs[5].text().2.contains("R"@)) by { assert(langs[5].text().2[0] != "R"@); }
        assert(!langs[6].text().2.contains("R"@)) by { assert(langs[6].text().2[0] != "R"@); }
        assert(!langs[7].text().2.contains("R"@)) by { assert(langs[7].text().2[0] != "R"@); }
        assert(!langs[8].text().2.contains("R"@)) by { assert(langs[8].text().2[0] != "R"@); }
        assert(!langs[9].text().2.contains("R"@)) by { assert(langs[9].text().2[0] != "R"@); }
        assert(!langs[10].text().2.contains("R"@)) by { assert(langs[10].text().2[0] != "R"@); }
        assert(!langs[11].text().2.contains("R"@)) by { assert(langs[11].text().2[0] != "R"@); }
        assert(!langs[12].text().2.contains("R"@)) by { assert(langs[12].text().2[0] != "R"@); }
        assert(langs[13].text().2[0] == "R"@);
        lemma_label_at(langs, "R"@, 13);
    }
    assert(language_label_of(langs, seq!['r', 'b']) == Some(seq!['r', 'u', 'b', 'y'])) by {
        assert(!langs[0].text().2.contains("rb"@)) by { assert(langs[0].text().2[0] != "rb"@); assert(langs[0].text().2[1] != "rb"@); }
        assert(!langs[1].text().2.contains("rb"@)) by { assert(langs[1].text().2[0] != "rb"@); assert(langs[1].text().2[1][0] != "rb"@[0]); assert(langs[1].text().2[1] != "rb"@); assert(langs[1].text().2[2] != "rb"@); assert(langs[1].text().2[3] != "rb"@); }
        assert(!langs[2].text().2.contains("rb"@)) by { assert(langs[2].text().2[0][0] != "rb"@[0]); assert(langs[2].text().2[0] != "rb"@); }
        assert(!langs[3].text().2.contains("rb"@)) by { assert(langs[3].text().2[0][1] != "rb"@[1]); assert(langs[3].text().2[0] != "rb"@); }
        assert(!langs[4].text().2.contains("rb"@)) by { assert(langs[4].text().2[0][0] != "rb"@[0]); assert(langs[4].text().2[0] != "rb"@); }
        assert(!langs[5].text().2.contains("rb"@)) by { assert(langs[5].text().2[0] != "rb"@); }
        assert(!langs[6].text().2.contains("rb"@)) by { assert(langs[6].text().2[0][0] != "rb"@[0]); assert(langs[6].text().2[0] != "rb"@); }
        assert(!langs[7].text().2.contains("rb"@)) by { assert(langs[7].text().2[0][0] != "rb"@[0]); assert(langs[7].text().2[0] != "rb"@); }
        assert(!langs[8].text().2.contains("rb"@)) by { assert(langs[8].text().2[0] != "rb"@); }
        assert(!langs[9].text().2.contains("rb"@)) by { assert(langs[9].text().2[0][0] != "rb"@[0]); assert(langs[9].text().2[0] != "rb"@); }
        assert(!langs[10].text().2.contains("rb"@)) by { assert(langs[10].text().2[0] != "rb"@); }
        assert(!langs[11].text().2.contains("rb"@)) by { assert(langs[11].text().2[0] != "rb"@); }
        assert(!langs[12].text().2.contains("rb"@)) by { assert(langs[12].text().2[0] != "rb"@); }
        assert(!langs[13].text().2.contains("rb"@)) by { assert(langs[13].text().2[0] != "rb"@); }
        assert(langs[14].text().2[0] == "rb"@);
        lemma_label_at(langs, "rb"@, 14);
    }
    assert(language_label_of(langs, seq!['p', 'l']) == Some(seq!['p', 'e', 'r', 'l'])) by {
        assert(!langs[0].text().2.contains("pl"@)) by { assert(langs[0].text().2[0] != "pl"@); assert(langs[0].text().2[1] != "pl"@); }
        assert(!langs[1].text().2.contains("pl"@)) by { assert(langs[1].text().2[0] != "pl"@); assert(langs[1].text().2[1][0] != "pl"@[0]); assert(langs[1].text().2[1] != "pl"@); assert(langs[1].text().2[2] != "pl"@); assert(langs[1].text().2[3] != "pl"@); }
        assert(!langs[2].text().2.contains("pl"@)) by { assert(langs[2].text().2[0][0] != "pl"@[0]); assert(langs[2].text().2[0] != "pl"@); }
        assert(!langs[3].text().2.contains("pl"@)) by { assert(langs[3].text().2[0][0] != "pl"@[0]); assert(langs[3].text().2[0] != "pl"@); }
        assert(!langs[4].text().2.contains("pl"@)) by { assert(langs[4].text().2[0][0] != "pl"@[0]); assert(langs[4].text().2[0] != "pl"@); }
        assert(!langs[5].text().2.contains("pl"@)) by { assert(langs[5].text().2[0] != "pl"@); }
        assert(!langs[6].text().2.contains("pl"@)) by { assert(langs[6].text().2[0][0] != "pl"@[0]); assert(langs[6].text().2[0] != "pl"@); }
        assert(!langs[7].text().2.contains("pl"@)) by { assert(langs[7].text().2[0][0] != "pl"@[0]); assert(langs[7].text().2[0] != "pl"@); }
        assert(!langs[8].text().2.contains("pl"@)) by { assert(langs[8].text().2[0] != "pl"@); }
        assert(!langs[9].text().2.contains("pl"@)) by { assert(langs[9].text().2[0][1] != "pl"@[1]); assert(langs[9].text().2[0] != "pl"@); }
        assert(!langs[10].text().2.contains("pl"@)) by { assert(langs[10].text().2[0] != "pl"@); }
        assert(!langs[11].text().2.contains("pl"@)) by { assert(langs[11].text().2[0] != "pl"@); }
        assert(!langs[12].text().2.contains("pl"@)) by { assert(langs[12].text().2[0] != "pl"@); }
        assert(!langs[13].text().2.contains("pl"@)) by { assert(langs[13].text().2[0] != "pl"@); }
        assert(!langs[14].text().2.contains("pl"@)) by { assert(langs[14].text().2[0][0] != "pl"@[0]); assert(langs[14].text().2[0] != "pl"@); }
        assert(langs[15].text().2[0] == "pl"@);
        lemma_label_at(langs, "pl"@, 15);
    }
    assert(language_label_of(langs, seq!['k', 't']) == Some(seq!['k', 'o', 't', 'l', 'i', 'n'])) by {
        assert(!langs[0].text().2.contains("kt"@)) by { assert(langs[0].text().2[0] != "kt"@); assert(langs[0].text().2[1] != "kt"@); }
        assert(!langs[1].text().2.contains("kt"@)) by { assert(langs[1].text().2[0] != "kt"@); assert(langs[1].text().2[1][0] != "kt"@[0]); assert(langs[1].text().2[1] != "kt"@); assert(langs[1].text().2[2] != "kt"@); assert(langs[1].text().2[3] != "kt"@); }
        assert(!langs[2].text().2.contains("kt"@)) by { assert(langs[2].text().2[0][0] != "kt"@[0]); assert(langs[2].text().2[0] != "kt"@); }
        assert(!langs[3].text().2.contains("kt"@)) by { assert(langs[3].text().2[0][0] != "kt"@[0]); assert(langs[3].text().2[0] != "kt"@); }
        assert(!langs[4].text().2.contains("kt"@)) by { assert(langs[4].text().2[0][0] != "kt"@[0]); assert(langs[4].text().2[0] != "kt"@); }
        assert(!langs[5].text().2.contains("kt"@)) by { assert(langs[5].text().2[0] != "kt"@); }
        assert(!langs[6].text().2.contains("kt"@)) by { assert(langs[6].text().2[0][0] != "kt"@[0]); assert(langs[6].text().2[0] != "kt"@); }
        assert(!langs[7].text().2.contains("kt"@)) by { assert(langs[7].text().2[0][0] != "kt"@[0]); assert(langs[7].text().2[0] != "kt"@); }
        assert(!langs[8].text().2.contains("kt"@)) by { assert(langs[8].text().2[0] != "kt"@); }
        assert(!langs[9].text().2.contains("kt"@)) by { assert(langs[9].text().2[0][0] != "kt"@[0]); assert(langs[9].text().2[0] != "kt"@); }
        assert(!langs[10].text().2.contains("kt"@)) by { assert(langs[10].text().2[0] != "kt"@); }
        assert(!langs[11].text().2.contains("kt"@)) by { assert(langs[11].text().2[0] != "kt"@); }
        assert(!langs[12].text().2.contains("kt"@)) by { assert(langs[12].text().2[0] != "kt"@); }
        assert(!langs[13].text().2.contains("kt"@)) by { assert(langs[13].text().2[0] != "kt"@); }
        assert(!langs[14].text().2.contains("kt"@)) by { assert(langs[14].text().2[0][0] != "kt"@[0]); assert(langs[14].text().2[0] != "kt"@); }
        assert(!langs[15].text().2.contains("kt"@)) by { assert(langs[15].text().2[0][0] != "kt"@[0]); assert(langs[15].text().2[0] != "kt"@); }
        assert(langs[16].text().2[0] == "kt"@);
        lemma_label_at(langs, "kt"@, 16);
    }
    assert(language_label_of(langs, seq!['s', 'c', 'a', 'l', 'a']) == Some(seq!['s', 'c', 'a', 'l', 'a'])) by {
        assert(!langs[0].text().2.contains("scala"@)) by { assert(langs[0].text().2[0] != "scala"@); assert(langs[0].text().2[1] != "scala"@); }
        assert(!langs[1].text().2.contains("scala"@)) by { assert(langs[1].text().2[0] != "scala"@); assert(langs[1].text().2[1] != "scala"@); assert(langs[1].text().2[2] != "scala"@); assert(langs[1].text().2[3] != "scala"@); }
        assert(!langs[2].text().2.contains("scala"@)) by { assert(langs[2].text().2[0] != "scala"@); }
        assert(!langs[3].text().2.contains("scala"@)) by { assert(langs[3].text().2[0] != "scala"@); }
        assert(!langs[4].text().2.contains("scala"@)) by { assert(langs[4].text().2[0] != "scala"@); }
        assert(!langs[5].text().2.contains("scala"@)) by { assert(langs[5].text().2[0] != "scala"@); }
        assert(!langs[6].text().2.contains("scala"@)) by { assert(langs[6].text().2[0] != "scala"@); }
        assert(!langs[7].text().2.contains("scala"@)) by { assert(langs[7].text().2[0] != "scala"@); }
        assert(!langs[8].text().2.contains("scala"@)) by { assert(langs[8].text().2[0] != "scala"@); }
        assert(!langs[9].text().2.contains("scala"@)) by { assert(langs[9].text().2[0] != "scala"@); }
        assert(!langs[10].text().2.contains("scala"@)) by { assert(langs[10].text().2[0] != "scala"@); }
        assert(!langs[11].text().2.contains("scala"@)) by { assert(langs[11].text().2[0] != "scala"@); }
        assert(!langs[12].text().2.contains("scala"@)) by { assert(langs[12].text().2[0] != "scala"@); }
        assert(!langs[13].text().2.contains("scala"@)) by { assert(langs[13].text().2[0] != "scala"@); }
        assert(!langs[14].text().2.contains("scala"@)) by { assert(langs[14].text().2[0] != "scala"@); }
        assert(!langs[15].text().2.contains("scala"@)) by { assert(langs[15].text().2[0] != "scala"@); }
        assert(!langs[16].text().2.contains("scala"@)) by { assert(langs[16].text().2[0] != "scala"@); }
        assert(langs[17].text().2[0] == "scala"@);
        lemma_label_at(langs, "scala"@, 17);
    }
}

} // verus!
