//! Counting code, comment and blank lines, with a comment style per language.
use vstd::prelude::*;

use crate::text::{contains, contains_str, ends_with, eq_str, starts_with, starts_with_str, trim, trim_start, trim_str, strs};

verus! {

/// How comments are written in a language.
#[derive(Debug, Clone, Copy, PartialEq, Eq, Structural)]
pub enum CommentStyle {
    /// `//` lines and `/* ... */` blocks.
    CLike,
    /// `<!-- ... -->` blocks.
    Html,
    /// Lines starting with `--`.
    LuaLike,
    /// Lines starting with `#`.
    Script,
    /// Lines starting with `;`.
    Semicolon,
    /// Lines starting with `%`.
    Percent,
    /// Lines starting with `"`.
    Quote,
    /// No comments.
    NoComment,
}

/// A C-like comment reader; it remembers whether a block comment is open.
#[derive(Debug, Default, Clone, Copy, PartialEq, Eq, Structural)]
pub struct CLikeParser {
    pub is_multi_line: bool,
}

/// An HTML comment reader; it remembers whether a comment is open.
#[derive(Debug, Default, Clone, Copy, PartialEq, Eq, Structural)]
pub struct HtmlParser {
    pub is_multi_line: bool,
}

/// Lines starting with `--` are comments.
#[derive(Debug, Default, Clone, Copy, PartialEq, Eq, Structural)]
pub struct Luaparser;

/// Lines starting with `#` are comments.
#[derive(Debug, Default, Clone, Copy, PartialEq, Eq, Structural)]
pub struct ScriptParser;

/// Whether a line is a comment, and whether a block comment is open after it.
pub open spec fn clike_step(multi: bool, line: Seq<char>) -> (bool, bool) {
    if multi {
        (true, !ends_with(line, "*/"@))
    } else if starts_with(line, "//"@) {
        (true, false)
    } else if starts_with(line, "/*"@) {
        if !ends_with(line, "*/"@) {
            if contains(line, "*/"@) {
                (false, false)
            } else {
                (true, true)
            }
        } else {
            (true, false)
        }
    } else {
        (false, false)
    }
}

/// Whether a line is a comment, and whether a comment is open after it.
pub open spec fn html_step(multi: bool, line: Seq<char>) -> (bool, bool) {
    if multi {
        (true, !contains(line, "-->"@))
    } else if starts_with(trim_start(line), "<!--"@) {
        (true, !contains(line, "-->"@))
    } else {
        (false, false)
    }
}

/// The prefix that marks a comment line in a single-line style.
pub open spec fn prefix_of(style: CommentStyle) -> Seq<char> {
    match style {
        CommentStyle::LuaLike => "--"@,
        CommentStyle::Script => "#"@,
        CommentStyle::Semicolon => ";"@,
        CommentStyle::Percent => "%"@,
        CommentStyle::Quote => "\""@,
        _ => Seq::empty(),
    }
}

impl CLikeParser {
    pub fn is_comment(&mut self, line: &str) -> (r: bool)
        ensures
            (r, final(self).is_multi_line) == clike_step(old(self).is_multi_line, line@),
    {
        if self.is_multi_line {
            if crate::text::ends_with_str(line, "*/") {
                self.is_multi_line = false;
            }
            return true;
        }
        if starts_with_str(line, "//") {
            return true;
        }
        if starts_with_str(line, "/*") {
            if !crate::text::ends_with_str(line, "*/") {
                if contains_str(line, "*/") {
                    return false;
                }
                self.is_multi_line = true;
            }
            return true;
        }
        false
    }
}

impl HtmlParser {
    pub fn is_comment(&mut self, line: &str) -> (r: bool)
        ensures
            (r, final(self).is_multi_line) == html_step(old(self).is_multi_line, line@),
    {
        if self.is_multi_line {
            if contains_str(line, "-->") {
                self.is_multi_line = false;
            }
            return true;
        }
        let t = crate::text::trim_start_str(line);
        if starts_with_str(t.as_str(), "<!--") {
            if !contains_str(line, "-->") {
                self.is_multi_line = true;
            }
            return true;
        }
        false
    }
}

impl Luaparser {
    pub fn is_comment(&mut self, line: &str) -> (r: bool)
        ensures
            r == starts_with(line@, "--"@),
    {
        starts_with_str(line, "--")
    }
}

impl ScriptParser {
    pub fn is_comment(&mut self, line: &str) -> (r: bool)
        ensures
            r == starts_with(line@, "#"@),
    {
        starts_with_str(line, "#")
    }
}

/// A comment reader for one file.
#[derive(Debug, Clone, Copy, PartialEq, Eq, Structural)]
pub struct CodeParser {
    pub style: CommentStyle,
    pub is_multi_line: bool,
}

/// Whether a line is a comment in `style`, and the open-block state after it.
pub open spec fn comment_step(style: CommentStyle, multi: bool, line: Seq<char>) -> (bool, bool) {
    match style {
        CommentStyle::CLike => clike_step(multi, line),
        CommentStyle::Html => html_step(multi, line),
        CommentStyle::NoComment => (false, multi),
        _ => (starts_with(line, prefix_of(style)), multi),
    }
}

impl CodeParser {
    /// A reader with no block comment open.
    pub fn new(style: CommentStyle) -> (p: CodeParser)
        ensures
            p.style == style,
            !p.is_multi_line,
    {
        CodeParser { style, is_multi_line: false }
    }

    pub fn is_comment(&mut self, line: &str) -> (r: bool)
        ensures
            final(self).style == old(self).style,
            (r, final(self).is_multi_line) == comment_step(old(self).style, old(self).is_multi_line, line@),
    {
        match self.style {
            CommentStyle::CLike => {
                let mut p = CLikeParser { is_multi_line: self.is_multi_line };
                let r = p.is_comment(line);
                self.is_multi_line = p.is_multi_line;
                r
            },
            CommentStyle::Html => {
                let mut p = HtmlParser { is_multi_line: self.is_multi_line };
                let r = p.is_comment(line);
                self.is_multi_line = p.is_multi_line;
                r
            },
            CommentStyle::LuaLike => starts_with_str(line, "--"),
            CommentStyle::Script => starts_with_str(line, "#"),
            CommentStyle::Semicolon => starts_with_str(line, ";"),
            CommentStyle::Percent => starts_with_str(line, "%"),
            CommentStyle::Quote => starts_with_str(line, "\""),
            CommentStyle::NoComment => false,
        }
    }
}

/// The language, whether it counts as a main language, and the comment
/// style of files with this extension.
pub open spec fn language_of(ext: Seq<char>) -> Option<(Seq<char>, bool, CommentStyle)> {
    if ext == "c"@ {
        Some(("C"@, true, CommentStyle::CLike))
    } else if ext == "cpp"@ || ext == "cc"@ || ext == "cxx"@ || ext == "c++"@ {
        Some(("C++"@, true, CommentStyle::CLike))
    } else if ext == "cs"@ {
        Some(("C#"@, true, CommentStyle::CLike))
    } else if ext == "dart"@ {
        Some(("Dart"@, true, CommentStyle::CLike))
    } else if ext == "go"@ {
        Some(("Go"@, true, CommentStyle::CLike))
    } else if ext == "java"@ {
        Some(("Java"@, true, CommentStyle::CLike))
    } else if ext == "js"@ || ext == "jsx"@ {
        Some(("JavaScript"@, true, CommentStyle::CLike))
    } else if ext == "kt"@ {
        Some(("Kotlin"@, true, CommentStyle::CLike))
    } else if ext == "nim"@ {
        Some(("Nim"@, true, CommentStyle::CLike))
    } else if ext == "odin"@ {
        Some(("Odin"@, true, CommentStyle::CLike))
    } else if ext == "php"@ {
        Some(("PHP"@, true, CommentStyle::CLike))
    } else if ext == "rs"@ {
        Some(("Rust"@, true, CommentStyle::CLike))
    } else if ext == "scala"@ {
        Some(("Scala"@, true, CommentStyle::CLike))
    } else if ext == "swift"@ {
        Some(("Swift"@, true, CommentStyle::CLike))
    } else if ext == "ts"@ || ext == "tsx"@ {
        Some(("TypeScript"@, true, CommentStyle::CLike))
    } else if ext == "v"@ {
        Some(("V"@, true, CommentStyle::CLike))
    } else if ext == "zig"@ {
        Some(("Zig"@, true, CommentStyle::CLike))
    } else if ext == "h"@ || ext == "hpp"@ || ext == "hxx"@ {
        Some(("C/C++ Header"@, false, CommentStyle::CLike))
    } else if ext == "ada"@ || ext == "adb"@ || ext == "ads"@ {
        Some(("Ada"@, true, CommentStyle::LuaLike))
    } else if ext == "elm"@ {
        Some(("Elm"@, true, CommentStyle::LuaLike))
    } else if ext == "haskell"@ || ext == "hs"@ {
        Some(("Haskell"@, true, CommentStyle::LuaLike))
    } else if ext == "idris"@ {
        Some(("Idris"@, true, CommentStyle::LuaLike))
    } else if ext == "lua"@ {
        Some(("Lua"@, true, CommentStyle::LuaLike))
    } else if ext == "vhdl"@ || ext == "vhd"@ {
        Some(("VHDL"@, true, CommentStyle::LuaLike))
    } else if ext == "sql"@ {
        Some(("SQL"@, false, CommentStyle::LuaLike))
    } else if ext == "fish"@ {
        Some(("Fish Shell"@, true, CommentStyle::Script))
    } else if ext == "jl"@ {
        Some(("Julia"@, true, CommentStyle::Script))
    } else if ext == "ps1"@ {
        Some(("PowerShell"@, true, CommentStyle::Script))
    } else if ext == "py"@ || ext == "pyw"@ {
        Some(("Python"@, true, CommentStyle::Script))
    } else if ext == "r"@ {
        Some(("R"@, true, CommentStyle::Script))
    } else if ext == "rb"@ {
        Some(("Ruby"@, true, CommentStyle::Script))
    } else if ext == "sh"@ || ext == "zsh"@ || ext == "bash"@ {
        Some(("Shell"@, true, CommentStyle::Script))
    } else if ext == "awk"@ {
        Some(("AWK"@, false, CommentStyle::Script))
    } else if ext == "bat"@ || ext == "cmd"@ {
        Some(("Batch"@, false, CommentStyle::Script))
    } else if ext == "cmake"@ {
        Some(("CMake"@, false, CommentStyle::Script))
    } else if ext == "coffee"@ {
        Some(("CoffeeScript"@, false, CommentStyle::Script))
    } else if ext == "crystal"@ {
        Some(("Crystal"@, false, CommentStyle::Script))
    } else if ext == "dockerfile"@ {
        Some(("Dockerfile"@, false, CommentStyle::Script))
    } else if ext == "gradle"@ {
        Some(("Gradle"@, false, CommentStyle::Script))
    } else if ext == "groovy"@ {
        Some(("Groovy"@, false, CommentStyle::Script))
    } else if ext == "ini"@ || ext == "cfg"@ {
        Some(("INI"@, false, CommentStyle::Script))
    } else if ext == "makefile"@ || ext == "mk"@ {
        Some(("Makefile"@, false, CommentStyle::Script))
    } else if ext == "nix"@ {
        Some(("Nix"@, false, CommentStyle::Script))
    } else if ext == "pl"@ || ext == "pm"@ {
        Some(("Perl"@, false, CommentStyle::Script))
    } else if ext == "properties"@ {
        Some(("Properties"@, false, CommentStyle::Script))
    } else if ext == "tcl"@ {
        Some(("Tcl"@, false, CommentStyle::Script))
    } else if ext == "tf"@ || ext == "hcl"@ {
        Some(("Terraform"@, false, CommentStyle::Script))
    } else if ext == "toml"@ {
        Some(("TOML"@, false, CommentStyle::Script))
    } else if ext == "yaml"@ || ext == "yml"@ {
        Some(("YAML"@, false, CommentStyle::Script))
    } else if ext == "html"@ || ext == "htm"@ {
        Some(("HTML"@, false, CommentStyle::Html))
    } else if ext == "xml"@ {
        Some(("XML"@, false, CommentStyle::Html))
    } else if ext == "xhtml"@ {
        Some(("XHTML"@, false, CommentStyle::Html))
    } else if ext == "svg"@ {
        Some(("SVG"@, false, CommentStyle::Html))
    } else if ext == "lisp"@ || ext == "lsp"@ {
        Some(("Lisp"@, true, CommentStyle::Semicolon))
    } else if ext == "asm"@ || ext == "s"@ || ext == "S"@ {
        Some(("Assembly"@, false, CommentStyle::Semicolon))
    } else if ext == "clj"@ || ext == "cljs"@ || ext == "cljc"@ {
        Some(("Clojure"@, false, CommentStyle::Semicolon))
    } else if ext == "el"@ {
        Some(("Emacs Lisp"@, true, CommentStyle::Semicolon))
    } else if ext == "masm"@ {
        Some(("MASM"@, false, CommentStyle::Semicolon))
    } else if ext == "nasm"@ {
        Some(("NASM"@, false, CommentStyle::Semicolon))
    } else if ext == "rkt"@ {
        Some(("Racket"@, false, CommentStyle::Semicolon))
    } else if ext == "scm"@ {
        Some(("Scheme"@, false, CommentStyle::Semicolon))
    } else if ext == "erl"@ || ext == "hrl"@ {
        Some(("Erlang"@, true, CommentStyle::Percent))
    } else if ext == "m"@ {
        Some(("MATLAB"@, true, CommentStyle::Percent))
    } else if ext == "ex"@ || ext == "exs"@ {
        Some(("Elixir"@, false, CommentStyle::Percent))
    } else if ext == "plt"@ {
        Some(("Gnuplot"@, false, CommentStyle::Percent))
    } else if ext == "pro"@ {
        Some(("Prolog"@, false, CommentStyle::Percent))
    } else if ext == "tex"@ || ext == "latex"@ {
        Some(("LaTeX"@, false, CommentStyle::Percent))
    } else if ext == "bas"@ {
        Some(("BASIC"@, true, CommentStyle::Quote))
    } else if ext == "vb"@ || ext == "vbs"@ {
        Some(("Visual Basic"@, true, CommentStyle::Quote))
    } else if ext == "cls"@ {
        Some(("Visual Basic Class"@, false, CommentStyle::Quote))
    } else if ext == "vim"@ || ext == "vimrc"@ {
        Some(("Vim Script"@, false, CommentStyle::Quote))
    } else if ext == "csv"@ {
        Some(("CSV"@, false, CommentStyle::NoComment))
    } else if ext == "json"@ {
        Some(("JSON"@, false, CommentStyle::NoComment))
    } else if ext == "md"@ || ext == "markdown"@ {
        Some(("Markdown"@, false, CommentStyle::NoComment))
    } else if ext == "tsv"@ {
        Some(("TSV"@, false, CommentStyle::NoComment))
    } else {
        None
    }
}

/// The language, whether it counts as a main language, and the comment
/// style of files with this extension.
pub fn new_parser(ext: &str) -> (r: Option<(&'static str, bool, CommentStyle)>)
    ensures
        match (r, language_of(ext@)) {
            (Some(a), Some(b)) => a.0@ == b.0 && a.1 == b.1 && a.2 == b.2,
            (None, None) => true,
            _ => false,
        },
{
    if eq_str(ext, "c") {
        Some(("C", true, CommentStyle::CLike))
    } else if eq_str(ext, "cpp") || eq_str(ext, "cc") || eq_str(ext, "cxx") || eq_str(ext, "c++") {
        Some(("C++", true, CommentStyle::CLike))
    } else if eq_str(ext, "cs") {
        Some(("C#", true, CommentStyle::CLike))
    } else if eq_str(ext, "dart") {
        Some(("Dart", true, CommentStyle::CLike))
    } else if eq_str(ext, "go") {
        Some(("Go", true, CommentStyle::CLike))
    } else if eq_str(ext, "java") {
        Some(("Java", true, CommentStyle::CLike))
    } else if eq_str(ext, "js") || eq_str(ext, "jsx") {
        Some(("JavaScript", true, CommentStyle::CLike))
    } else if eq_str(ext, "kt") {
        Some(("Kotlin", true, CommentStyle::CLike))
    } else if eq_str(ext, "nim") {
        Some(("Nim", true, CommentStyle::CLike))
    } else if eq_str(ext, "odin") {
        Some(("Odin", true, CommentStyle::CLike))
    } else if eq_str(ext, "php") {
        Some(("PHP", true, CommentStyle::CLike))
    } else if eq_str(ext, "rs") {
        Some(("Rust", true, CommentStyle::CLike))
    } else if eq_str(ext, "scala") {
        Some(("Scala", true, CommentStyle::CLike))
    } else if eq_str(ext, "swift") {
        Some(("Swift", true, CommentStyle::CLike))
    } else if eq_str(ext, "ts") || eq_str(ext, "tsx") {
        Some(("TypeScript", true, CommentStyle::CLike))
    } else if eq_str(ext, "v") {
        Some(("V", true, CommentStyle::CLike))
    } else if eq_str(ext, "zig") {
        Some(("Zig", true, CommentStyle::CLike))
    } else if eq_str(ext, "h") || eq_str(ext, "hpp") || eq_str(ext, "hxx") {
        Some(("C/C++ Header", false, CommentStyle::CLike))
    } else if eq_str(ext, "ada") || eq_str(ext, "adb") || eq_str(ext, "ads") {
        Some(("Ada", true, CommentStyle::LuaLike))
    } else if eq_str(ext, "elm") {
        Some(("Elm", true, CommentStyle::LuaLike))
    } else if eq_str(ext, "haskell") || eq_str(ext, "hs") {
        Some(("Haskell", true, CommentStyle::LuaLike))
    } else if eq_str(ext, "idris") {
        Some(("Idris", true, CommentStyle::LuaLike))
    } else if eq_str(ext, "lua") {
        Some(("Lua", true, CommentStyle::LuaLike))
    } else if eq_str(ext, "vhdl") || eq_str(ext, "vhd") {
        Some(("VHDL", true, CommentStyle::LuaLike))
    } else if eq_str(ext, "sql") {
        Some(("SQL", false, CommentStyle::LuaLike))
    } else if eq_str(ext, "fish") {
        Some(("Fish Shell", true, CommentStyle::Script))
    } else if eq_str(ext, "jl") {
        Some(("Julia", true, CommentStyle::Script))
    } else if eq_str(ext, "ps1") {
        Some(("PowerShell", true, CommentStyle::Script))
    } else if eq_str(ext, "py") || eq_str(ext, "pyw") {
        Some(("Python", true, CommentStyle::Script))
    } else if eq_str(ext, "r") {
        Some(("R", true, CommentStyle::Script))
    } else if eq_str(ext, "rb") {
        Some(("Ruby", true, CommentStyle::Script))
    } else if eq_str(ext, "sh") || eq_str(ext, "zsh") || eq_str(ext, "bash") {
        Some(("Shell", true, CommentStyle::Script))
    } else if eq_str(ext, "awk") {
        Some(("AWK", false, CommentStyle::Script))
    } else if eq_str(ext, "bat") || eq_str(ext, "cmd") {
        Some(("Batch", false, CommentStyle::Script))
    } else if eq_str(ext, "cmake") {
        Some(("CMake", false, CommentStyle::Script))
    } else if eq_str(ext, "coffee") {
        Some(("CoffeeScript", false, CommentStyle::Script))
    } else if eq_str(ext, "crystal") {
        Some(("Crystal", false, CommentStyle::Script))
    } else if eq_str(ext, "dockerfile") {
        Some(("Dockerfile", false, CommentStyle::Script))
    } else if eq_str(ext, "gradle") {
        Some(("Gradle", false, CommentStyle::Script))
    } else if eq_str(ext, "groovy") {
        Some(("Groovy", false, CommentStyle::Script))
    } else if eq_str(ext, "ini") || eq_str(ext, "cfg") {
        Some(("INI", false, CommentStyle::Script))
    } else if eq_str(ext, "makefile") || eq_str(ext, "mk") {
        Some(("Makefile", false, CommentStyle::Script))
    } else if eq_str(ext, "nix") {
        Some(("Nix", false, CommentStyle::Script))
    } else if eq_str(ext, "pl") || eq_str(ext, "pm") {
        Some(("Perl", false, CommentStyle::Script))
    } else if eq_str(ext, "properties") {
        Some(("Properties", false, CommentStyle::Script))
    } else if eq_str(ext, "tcl") {
        Some(("Tcl", false, CommentStyle::Script))
    } else if eq_str(ext, "tf") || eq_str(ext, "hcl") {
        Some(("Terraform", false, CommentStyle::Script))
    } else if eq_str(ext, "toml") {
        Some(("TOML", false, CommentStyle::Script))
    } else if eq_str(ext, "yaml") || eq_str(ext, "yml") {
        Some(("YAML", false, CommentStyle::Script))
    } else if eq_str(ext, "html") || eq_str(ext, "htm") {
        Some(("HTML", false, CommentStyle::Html))
    } else if eq_str(ext, "xml") {
        Some(("XML", false, CommentStyle::Html))
    } else if eq_str(ext, "xhtml") {
        Some(("XHTML", false, CommentStyle::Html))
    } else if eq_str(ext, "svg") {
        Some(("SVG", false, CommentStyle::Html))
    } else if eq_str(ext, "lisp") || eq_str(ext, "lsp") {
        Some(("Lisp", true, CommentStyle::Semicolon))
    } else if eq_str(ext, "asm") || eq_str(ext, "s") || eq_str(ext, "S") {
        Some(("Assembly", false, CommentStyle::Semicolon))
    } else if eq_str(ext, "clj") || eq_str(ext, "cljs") || eq_str(ext, "cljc") {
        Some(("Clojure", false, CommentStyle::Semicolon))
    } else if eq_str(ext, "el") {
        Some(("Emacs Lisp", true, CommentStyle::Semicolon))
    } else if eq_str(ext, "masm") {
        Some(("MASM", false, CommentStyle::Semicolon))
    } else if eq_str(ext, "nasm") {
        Some(("NASM", false, CommentStyle::Semicolon))
    } else if eq_str(ext, "rkt") {
        Some(("Racket", false, CommentStyle::Semicolon))
    } else if eq_str(ext, "scm") {
        Some(("Scheme", false, CommentStyle::Semicolon))
    } else if eq_str(ext, "erl") || eq_str(ext, "hrl") {
        Some(("Erlang", true, CommentStyle::Percent))
    } else if eq_str(ext, "m") {
        Some(("MATLAB", true, CommentStyle::Percent))
    } else if eq_str(ext, "ex") || eq_str(ext, "exs") {
        Some(("Elixir", false, CommentStyle::Percent))
    } else if eq_str(ext, "plt") {
        Some(("Gnuplot", false, CommentStyle::Percent))
    } else if eq_str(ext, "pro") {
        Some(("Prolog", false, CommentStyle::Percent))
    } else if eq_str(ext, "tex") || eq_str(ext, "latex") {
        Some(("LaTeX", false, CommentStyle::Percent))
    } else if eq_str(ext, "bas") {
        Some(("BASIC", true, CommentStyle::Quote))
    } else if eq_str(ext, "vb") || eq_str(ext, "vbs") {
        Some(("Visual Basic", true, CommentStyle::Quote))
    } else if eq_str(ext, "cls") {
        Some(("Visual Basic Class", false, CommentStyle::Quote))
    } else if eq_str(ext, "vim") || eq_str(ext, "vimrc") {
        Some(("Vim Script", false, CommentStyle::Quote))
    } else if eq_str(ext, "csv") {
        Some(("CSV", false, CommentStyle::NoComment))
    } else if eq_str(ext, "json") {
        Some(("JSON", false, CommentStyle::NoComment))
    } else if eq_str(ext, "md") || eq_str(ext, "markdown") {
        Some(("Markdown", false, CommentStyle::NoComment))
    } else if eq_str(ext, "tsv") {
        Some(("TSV", false, CommentStyle::NoComment))
    } else {
        None
    }
}

/// The extension that a special file name stands for.
pub open spec fn special_file_of(name: Seq<char>) -> Option<Seq<char>> {
    if name == "Makefile"@ || name == "makefile"@ || name == "GNUmakefile"@ {
        Some("makefile"@)
    } else if name == "CMakeLists.txt"@ {
        Some("cmake"@)
    } else if name == "build.gradle"@ || name == "settings.gradle"@ {
        Some("gradle"@)
    } else if name == "build.gradle.kts"@ || name == "settings.gradle.kts"@ {
        Some("gradle"@)
    } else if name == "Dockerfile"@ || name == "dockerfile"@ {
        Some("dockerfile"@)
    } else if name == ".vimrc"@ || name == ".gvimrc"@ {
        Some("vim"@)
    } else if name == ".emacs"@ || name == ".spacemacs"@ {
        Some("el"@)
    } else {
        None
    }
}

/// The extension that a special file name stands for.
pub fn get_special_file(name: &str) -> (r: Option<&'static str>)
    ensures
        match (r, special_file_of(name@)) {
            (Some(a), Some(b)) => a@ == b,
            (None, None) => true,
            _ => false,
        },
{
    if eq_str(name, "Makefile") || eq_str(name, "makefile") || eq_str(name, "GNUmakefile") {
        Some("makefile")
    } else if eq_str(name, "CMakeLists.txt") {
        Some("cmake")
    } else if eq_str(name, "build.gradle") || eq_str(name, "settings.gradle") {
        Some("gradle")
    } else if eq_str(name, "build.gradle.kts") || eq_str(name, "settings.gradle.kts") {
        Some("gradle")
    } else if eq_str(name, "Dockerfile") || eq_str(name, "dockerfile") {
        Some("dockerfile")
    } else if eq_str(name, ".vimrc") || eq_str(name, ".gvimrc") {
        Some("vim")
    } else if eq_str(name, ".emacs") || eq_str(name, ".spacemacs") {
        Some("el")
    } else {
        None
    }
}

/// Line counts of one language.
#[derive(Debug, Clone, Copy, PartialEq, Eq, Default)]
pub struct CodeStatsItem {
    pub name: &'static str,
    pub files: u64,
    pub code: u64,
    pub comment: u64,
    pub blank: u64,
    pub total: u64,
}

/// Totals of a language over all scanned files, and the time the scan took.
pub struct CodeStats {
    pub files_count: usize,
    pub items: Vec<CodeStatsItem>,
    pub elapsed_ms: u64,
}

/// The counts of one file's lines: total, blank, comment and code lines.
pub open spec fn count_spec(style: CommentStyle, multi: bool, lines: Seq<Seq<char>>) -> (nat, nat, nat, nat, bool)
    decreases lines.len(),
{
    if lines.len() == 0 {
        (0, 0, 0, 0, multi)
    } else {
        let p = count_spec(style, multi, lines.drop_last());
        let l = trim(lines.last());
        if l.len() == 0 {
            (p.0 + 1, p.1 + 1, p.2, p.3, p.4)
        } else {
            let s = comment_step(style, p.4, l);
            if s.0 {
                (p.0 + 1, p.1, p.2 + 1, p.3, s.1)
            } else {
                (p.0 + 1, p.1, p.2, p.3 + 1, s.1)
            }
        }
    }
}

pub proof fn lemma_count_bound(style: CommentStyle, multi: bool, lines: Seq<Seq<char>>)
    ensures
        count_spec(style, multi, lines).0 == lines.len(),
        count_spec(style, multi, lines).1 + count_spec(style, multi, lines).2 + count_spec(style, multi, lines).3 == lines.len(),
    decreases lines.len(),
{
    if lines.len() > 0 {
        lemma_count_bound(style, multi, lines.drop_last());
    }
}

impl CodeStatsItem {
    /// The counts of the lines of one file of language `name`: every line
    /// counts once, as blank (empty once trimmed), comment or code.
    pub fn count_lines(name: &'static str, style: CommentStyle, lines: &Vec<String>) -> (r: CodeStatsItem)
        ensures
            r.name == name,
            r.files == 1,
            r.total == count_spec(style, false, strs(lines@)).0,
            r.blank == count_spec(style, false, strs(lines@)).1,
            r.comment == count_spec(style, false, strs(lines@)).2,
            r.code == count_spec(style, false, strs(lines@)).3,
            r.blank + r.comment + r.code == r.total,
    {
        let ghost ls = strs(lines@);
        let mut parser = CodeParser::new(style);
        let mut item = CodeStatsItem { name, files: 1, code: 0, comment: 0, blank: 0, total: 0 };
        let mut i: usize = 0;
        assert(ls.take(0) =~= Seq::<Seq<char>>::empty());
        while i < lines.len()
            invariant
                ls == strs(lines@),
                i <= lines.len(),
                parser.style == style,
                item.name == name,
                item.files == 1,
                (item.total as nat, item.blank as nat, item.comment as nat, item.code as nat, parser.is_multi_line)
                    == count_spec(style, false, ls.take(i as int)),
            decreases lines.len() - i,
        {
            proof {
                lemma_count_bound(style, false, ls.take(i as int));
                assert(ls.take(i + 1).drop_last() =~= ls.take(i as int));
                assert(ls.take(i + 1).last() == lines@[i as int]@);
            }
            item.total = item.total + 1;
            let l = trim_str(lines[i].as_str());
            if l.as_str().is_empty() {
                item.blank = item.blank + 1;
            } else if parser.is_comment(l.as_str()) {
                item.comment = item.comment + 1;
            } else {
                item.code = item.code + 1;
            }
            i += 1;
        }
        proof {
            assert(ls.take(lines.len() as int) =~= ls);
            lemma_count_bound(style, false, ls);
        }
        item
    }

    /// The counts of two items of the same language added up.
    pub fn add(self, other: CodeStatsItem) -> (r: CodeStatsItem)
        requires
            self.files + other.files <= u64::MAX,
            self.code + other.code <= u64::MAX,
            self.comment + other.comment <= u64::MAX,
            self.blank + other.blank <= u64::MAX,
            self.total + other.total <= u64::MAX,
        ensures
            r.name == self.name,
            r.files == self.files + other.files,
            r.code == self.code + other.code,
            r.comment == self.comment + other.comment,
            r.blank == self.blank + other.blank,
            r.total == self.total + other.total,
    {
        CodeStatsItem {
            name: self.name,
            files: self.files + other.files,
            code: self.code + other.code,
            comment: self.comment + other.comment,
            blank: self.blank + other.blank,
            total: self.total + other.total,
        }
    }
}

/// The line-prefix comment styles, stated by their characters: a script line
/// is a comment exactly when it starts with `#`, a Lua-like one with `--`, a
/// semicolon one with `;`, a percent one with `%`, a quote one with `"`; a
/// language without comments has none. None of them opens a block.
pub proof fn law_prefix_comment_styles(multi: bool, l: Seq<char>)
    ensures
        comment_step(CommentStyle::Script, multi, l) == (l.len() > 0 && l[0] == '#', multi),
        comment_step(CommentStyle::LuaLike, multi, l) == (l.len() > 1 && l[0] == '-' && l[1] == '-', multi),
        comment_step(CommentStyle::Semicolon, multi, l) == (l.len() > 0 && l[0] == ';', multi),
        comment_step(CommentStyle::Percent, multi, l) == (l.len() > 0 && l[0] == '%', multi),
        comment_step(CommentStyle::Quote, multi, l) == (l.len() > 0 && l[0] == '"', multi),
        comment_step(CommentStyle::NoComment, multi, l) == (false, multi),
{
    reveal_strlit("#");
    reveal_strlit("--");
    reveal_strlit(";");
    reveal_strlit("%");
    reveal_strlit("\"");
    lemma_first_chars(l, "#"@);
    lemma_first_chars(l, "--"@);
    lemma_first_chars(l, ";"@);
    lemma_first_chars(l, "%"@);
    lemma_first_chars(l, "\""@);
}

/// C-like comments, stated by their characters: outside a block a `//`
/// line is a comment and opens nothing, a line that does not start with `/`
/// is code; inside a block every line is a comment, and the block stays open
/// exactly when the line does not end with `*/`.
pub proof fn law_clike_comments(l: Seq<char>)
    ensures
        l.len() > 1 && l[0] == '/' && l[1] == '/' ==> comment_step(CommentStyle::CLike, false, l) == (true, false),
        (l.len() == 0 || l[0] != '/') ==> comment_step(CommentStyle::CLike, false, l) == (false, false),
        comment_step(CommentStyle::CLike, true, l).0,
        comment_step(CommentStyle::CLike, true, l).1 == !(l.len() > 1 && l[l.len() - 2] == '*' && l[l.len() - 1] == '/'),
{
    reveal_strlit("//");
    reveal_strlit("/*");
    reveal_strlit("*/");
    lemma_first_chars(l, "//"@);
    lemma_first_chars(l, "/*"@);
    if l.len() > 1 {
        let t = l.subrange(l.len() - 2, l.len() as int);
        assert(t[0] == l[l.len() - 2] && t[1] == l[l.len() - 1]);
        if l[l.len() - 2] == '*' && l[l.len() - 1] == '/' {
            assert(t =~= "*/"@);
        }
    }
}

proof fn lemma_first_chars(l: Seq<char>, p: Seq<char>)
    ensures
        starts_with(l, p) <==> (p.len() <= l.len() && forall|i: int| 0 <= i < p.len() ==> l[i] == p[i]),
{
    if p.len() <= l.len() {
        if forall|i: int| 0 <= i < p.len() ==> l[i] == p[i] {
            assert(l.subrange(0, p.len() as int) =~= p);
        }
        if starts_with(l, p) {
            assert forall|i: int| 0 <= i < p.len() implies l[i] == p[i] by {
                assert(l.subrange(0, p.len() as int)[i] == l[i]);
            }
        }
    }
}

/// The comment style of common source files, by extension: C, Rust, Go,
/// Java, JavaScript, TypeScript, PHP, C++ and Kotlin files use `//` and
/// `/* */`, Lua files `--`, Ruby and shell files `#`.
#[verifier::spinoff_prover]
pub proof fn law_common_file_languages()
    ensures
        language_of(seq!['c']) == Some((seq!['C'], true, CommentStyle::CLike)),
        language_of(seq!['r', 's']) == Some((seq!['R', 'u', 's', 't'], true, CommentStyle::CLike)),
        language_of(seq!['g', 'o']) == Some((seq!['G', 'o'], true, CommentStyle::CLike)),
        language_of(seq!['j', 'a', 'v', 'a']) == Some((seq!['J', 'a', 'v', 'a'], true, CommentStyle::CLike)),
        language_of(seq!['j', 's']) == Some((seq!['J', 'a', 'v', 'a', 'S', 'c', 'r', 'i', 'p', 't'], true, CommentStyle::CLike)),
        language_of(seq!['t', 's']) == Some((seq!['T', 'y', 'p', 'e', 'S', 'c', 'r', 'i', 'p', 't'], true, CommentStyle::CLike)),
        language_of(seq!['l', 'u', 'a']) == Some((seq!['L', 'u', 'a'], true, CommentStyle::LuaLike)),
        language_of(seq!['r', 'b']) == Some((seq!['R', 'u', 'b', 'y'], true, CommentStyle::Script)),
        language_of(seq!['s', 'h']) == Some((seq!['S', 'h', 'e', 'l', 'l'], true, CommentStyle::Script)),
        language_of(seq!['p', 'h', 'p']) == Some((seq!['P', 'H', 'P'], true, CommentStyle::CLike)),
        language_of(seq!['c', 'p', 'p']) == Some((seq!['C', '+', '+'], true, CommentStyle::CLike)),
        language_of(seq!['k', 't']) == Some((seq!['K', 'o', 't', 'l', 'i', 'n'], true, CommentStyle::CLike)),
{
    reveal_strlit("c");
    reveal_strlit("cpp");
    reveal_strlit("cc");
    reveal_strlit("cxx");
    reveal_strlit("c++");
    reveal_strlit("cs");
    reveal_strlit("dart");
    reveal_strlit("go");
    reveal_strlit("java");
    reveal_strlit("js");
    reveal_strlit("jsx");
    reveal_strlit("kt");
    reveal_strlit("nim");
    reveal_strlit("odin");
    reveal_strlit("php");
    reveal_strlit("rs");
    reveal_strlit("scala");
    reveal_strlit("swift");
    reveal_strlit("ts");
    reveal_strlit("tsx");
    reveal_strlit("v");
    reveal_strlit("zig");
    reveal_strlit("h");
    reveal_strlit("hpp");
    reveal_strlit("hxx");
    reveal_strlit("ada");
    reveal_strlit("adb");
    reveal_strlit("ads");
    reveal_strlit("elm");
    reveal_strlit("haskell");
    reveal_strlit("hs");
    reveal_strlit("idris");
    reveal_strlit("lua");
    reveal_strlit("vhdl");
    reveal_strlit("vhd");
    reveal_strlit("sql");
    reveal_strlit("fish");
    reveal_strlit("jl");
    reveal_strlit("ps1");
    reveal_strlit("py");
    reveal_strlit("pyw");
    reveal_strlit("r");
    reveal_strlit("rb");
    reveal_strlit("sh");
    reveal_strlit("zsh");
    reveal_strlit("bash");
    reveal_strlit("awk");
    reveal_strlit("bat");
    reveal_strlit("cmd");
    reveal_strlit("cmake");
    reveal_strlit("coffee");
    reveal_strlit("crystal");
    reveal_strlit("dockerfile");
    reveal_strlit("gradle");
    reveal_strlit("groovy");
    reveal_strlit("ini");
    reveal_strlit("cfg");
    reveal_strlit("makefile");
    reveal_strlit("mk");
    reveal_strlit("nix");
    reveal_strlit("pl");
    reveal_strlit("pm");
    reveal_strlit("properties");
    reveal_strlit("tcl");
    reveal_strlit("tf");
    reveal_strlit("hcl");
    reveal_strlit("toml");
    reveal_strlit("yaml");
    reveal_strlit("yml");
    reveal_strlit("html");
    reveal_strlit("htm");
    reveal_strlit("xml");
    reveal_strlit("xhtml");
    reveal_strlit("svg");
    reveal_strlit("lisp");
    reveal_strlit("lsp");
    reveal_strlit("asm");
    reveal_strlit("s");
    reveal_strlit("S");
    reveal_strlit("clj");
    reveal_strlit("cljs");
    reveal_strlit("cljc");
    reveal_strlit("el");
    reveal_strlit("masm");
    reveal_strlit("nasm");
    reveal_strlit("rkt");
    reveal_strlit("scm");
    reveal_strlit("erl");
    reveal_strlit("hrl");
    reveal_strlit("m");
    reveal_strlit("ex");
    reveal_strlit("exs");
    reveal_strlit("plt");
    reveal_strlit("pro");
    reveal_strlit("tex");
    reveal_strlit("latex");
    reveal_strlit("bas");
    reveal_strlit("vb");
    reveal_strlit("vbs");
    reveal_strlit("cls");
    reveal_strlit("vim");
    reveal_strlit("vimrc");
    reveal_strlit("csv");
    reveal_strlit("json");
    reveal_strlit("md");
    reveal_strlit("markdown");
    reveal_strlit("tsv");
    reveal_strlit("C");
    reveal_strlit("Rust");
    reveal_strlit("Go");
    reveal_strlit("Java");
    reveal_strlit("JavaScript");
    reveal_strlit("TypeScript");
    reveal_strlit("Lua");
    reveal_strlit("Ruby");
    reveal_strlit("Shell");
    reveal_strlit("PHP");
    reveal_strlit("C++");
    reveal_strlit("Kotlin");
    assert("c"@ =~= seq!['c']);
    assert("rs"@ =~= seq!['r', 's']);
    assert("go"@ =~= seq!['g', 'o']);
    assert("java"@ =~= seq!['j', 'a', 'v', 'a']);
    assert("js"@ =~= seq!['j', 's']);
    assert("ts"@ =~= seq!['t', 's']);
    assert("lua"@ =~= seq!['l', 'u', 'a']);
    assert("rb"@ =~= seq!['r', 'b']);
    assert("sh"@ =~= seq!['s', 'h']);
    assert("php"@ =~= seq!['p', 'h', 'p']);
    assert("cpp"@ =~= seq!['c', 'p', 'p']);
    assert("kt"@ =~= seq!['k', 't']);
    assert("C"@ =~= seq!['C']);
    assert("Rust"@ =~= seq!['R', 'u', 's', 't']);
    assert("Go"@ =~= seq!['G', 'o']);
    assert("Java"@ =~= seq!['J', 'a', 'v', 'a']);
    assert("JavaScript"@ =~= seq!['J', 'a', 'v', 'a', 'S', 'c', 'r', 'i', 'p', 't']);
    assert("TypeScript"@ =~= seq!['T', 'y', 'p', 'e', 'S', 'c', 'r', 'i', 'p', 't']);
    assert("Lua"@ =~= seq!['L', 'u', 'a']);
    assert("Ruby"@ =~= seq!['R', 'u', 'b', 'y']);
    assert("Shell"@ =~= seq!['S', 'h', 'e', 'l', 'l']);
    assert("PHP"@ =~= seq!['P', 'H', 'P']);
    assert("C++"@ =~= seq!['C', '+', '+']);
    assert("Kotlin"@ =~= seq!['K', 'o', 't', 'l', 'i', 'n']);
}

/// Files ending in `.py` are read as Python with script comments.
pub proof fn law_python_files_use_script_comments()
    ensures
        language_of(seq!['p', 'y']) == Some((seq!['P', 'y', 't', 'h', 'o', 'n'], true, CommentStyle::Script)),
{
    reveal_strlit("c");
    reveal_strlit("cpp");
    reveal_strlit("cc");
    reveal_strlit("cxx");
    reveal_strlit("c++");
    reveal_strlit("cs");
    reveal_strlit("dart");
    reveal_strlit("go");
    reveal_strlit("java");
    reveal_strlit("js");
    reveal_strlit("jsx");
    reveal_strlit("kt");
    reveal_strlit("nim");
    reveal_strlit("odin");
    reveal_strlit("php");
    reveal_strlit("rs");
    reveal_strlit("scala");
    reveal_strlit("swift");
    reveal_strlit("ts");
    reveal_strlit("tsx");
    reveal_strlit("v");
    reveal_strlit("zig");
    reveal_strlit("h");
    reveal_strlit("hpp");
    reveal_strlit("hxx");
    reveal_strlit("ada");
    reveal_strlit("adb");
    reveal_strlit("ads");
    reveal_strlit("elm");
    reveal_strlit("haskell");
    reveal_strlit("hs");
    reveal_strlit("idris");
    reveal_strlit("lua");
    reveal_strlit("vhdl");
    reveal_strlit("vhd");
    reveal_strlit("sql");
    reveal_strlit("fish");
    reveal_strlit("jl");
    reveal_strlit("ps1");
    reveal_strlit("py");
    reveal_strlit("Python");
    assert("py"@ =~= seq!['p', 'y']);
    assert("Python"@ =~= seq!['P', 'y', 't', 'h', 'o', 'n']);
}

} // verus!
