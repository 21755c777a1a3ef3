use roxide::scan::code_stats::{
    get_special_file, new_parser, CLikeParser, CodeStatsItem, CommentStyle, HtmlParser,
};
use roxide::scan::ignore::Ignore;

#[test]
fn test_clike_parser() {
    let cases: Vec<(Vec<&str>, usize)> = vec![
        (
            vec![
                "// This is a single line comment",
                "int main() {",
                "// This is another comment",
                "   return 0;",
                "}",
            ],
            2,
        ),
        (
            vec![
                "/** This is a multi-line comment",
                "  * Another line of comment",
                "  * End of comment */",
                "int main() {",
                "   return 0;",
                "}",
            ],
            3,
        ),
        (
            vec![
                "/* Start of multi-line comment",
                "   This is inside the comment",
                "   Still inside the comment",
                "   End of comment */",
                "int x = 5;",
                "// Single line comment",
            ],
            5,
        ),
        (
            vec![
                "// Single line comment",
                "/* Inline comment */ int y = 10;",
                "/* Start multi-line",
                "   continue multi-line */",
                "// Another single line",
            ],
            4,
        ),
        (vec!["//", "/**/", "", "/* */", "// "], 4),
        (
            vec![
                "printf(\"This // is not a comment\");",
                "// This is a real comment",
                "char* str = \"/* not a comment */\";",
                "/* Real comment */",
            ],
            2,
        ),
        (
            vec![
                "/* First comment */",
                "/* Second comment",
                "   continues here */",
                "int main() {",
                "/* Another comment",
                "   that spans",
                "   multiple lines */",
                "}",
            ],
            6,
        ),
    ];
    for (lines, expect) in cases {
        let mut parser = CLikeParser::default();
        let mut comment_count = 0;
        for line in lines.iter() {
            if parser.is_comment(line) {
                comment_count += 1;
            }
        }
        assert_eq!(comment_count, expect, "{lines:?}");
    }
}

#[test]
fn test_html_parser() {
    let cases: Vec<(Vec<&str>, usize)> = vec![
        (
            vec![
                "<!-- Single line HTML comment -->",
                "<div>content</div>",
                "<!-- Another comment -->",
            ],
            2,
        ),
        (
            vec![
                "<!-- Multi-line comment start",
                "     Comment content",
                "     Comment end -->",
                "<p>Normal content</p>",
            ],
            3,
        ),
    ];
    for (lines, expect) in cases {
        let mut parser = HtmlParser::default();
        let mut comment_count = 0;
        for line in lines.iter() {
            if parser.is_comment(line) {
                comment_count += 1;
            }
        }
        assert_eq!(comment_count, expect, "{lines:?}");
    }
}

#[test]
fn test_ignore() {
    let ignore = Ignore::parse(".", &["test/**", "src/**/*.go", "pkg/*.go", ".git", "target"]).unwrap();

    let cases = [
        ("test/hello.go", true),
        ("test/main.rs", true),
        ("test/sub/main.rs", true),
        ("src/test/main.go", true),
        ("src/main.rs", false),
        ("src/simple", false),
        ("src/.git", true),
        ("pkg/time", false),
        ("pkg/time/time.go", false),
        ("pkg/sample.go", true),
        ("pkg/.git", true),
        (".git", true),
        ("config/.git", true),
        ("target", true),
        ("pkg/target", true),
    ];
    for (path, expect) in cases {
        let is_dir = path.ends_with(".go") || path.ends_with(".rs");
        let matched = ignore.matched(path, is_dir);
        assert_eq!(matched, expect, "Path {path:?} unexpected");
    }
}

#[test]
fn language_table_lookups() {
    let (name, main, style) = new_parser("rs").unwrap();
    assert_eq!(name, "Rust");
    assert!(main);
    assert_eq!(style, CommentStyle::CLike);
    let (name, main, style) = new_parser("h").unwrap();
    assert_eq!((name, main, style), ("C/C++ Header", false, CommentStyle::CLike));
    assert_eq!(new_parser("json").unwrap().0, "JSON");
    assert_eq!(new_parser("py").unwrap().2, CommentStyle::Script);
    assert!(new_parser("unknown").is_none());
    assert_eq!(get_special_file("Makefile"), Some("makefile"));
    assert_eq!(get_special_file("CMakeLists.txt"), Some("cmake"));
    assert_eq!(get_special_file("README"), None);
}

#[test]
fn count_lines_of_a_rust_file() {
    let lines: Vec<String> = vec![
        "// Another comment",
        "",
        "/** This is a doc comment",
        " * with multiple lines",
        " */",
        "fn foo() {",
        "    // Inside function comment",
        "    let x = 42;",
        "}",
    ]
    .into_iter()
    .map(String::from)
    .collect();
    let item = CodeStatsItem::count_lines("Rust", CommentStyle::CLike, &lines);
    assert_eq!(item.total, 9);
    assert_eq!(item.blank, 1);
    assert_eq!(item.comment, 5);
    assert_eq!(item.code, 3);
    assert_eq!(item.files, 1);
}
