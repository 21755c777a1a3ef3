use roxide::error::Error;
use roxide::repo::detect::builtin_languages;
use roxide::repo::detect::stats::{
    count_lines, entry_to_remove, parse_stats_name, stats_index, stats_name, LanguageStats,
    LanguageStatsChange,
};

fn lines(v: &[&str]) -> Vec<String> {
    v.iter().map(|s| s.to_string()).collect()
}

fn stats(name: &str, files: usize, blank: usize, comment: usize, code: usize, lines: usize) -> LanguageStats {
    LanguageStats { name: name.to_string(), files, blank, comment, code, lines, percent: 0 }
}

#[test]
fn test_count_lines() {
    let langs = builtin_languages();
    let rust = langs.iter().find(|l| l.name == "Rust").unwrap();
    let mut st = stats("Rust", 1, 1, 0, 0, 0);
    count_lines(&mut st, &lines(&["fn main() {", "", "   // a comment", "\t", "}", " /// doc"]), rust);
    assert_eq!((st.blank, st.comment, st.code), (3, 2, 2));
    assert_eq!(st.files, 1);

    let lua = langs.iter().find(|l| l.name == "Lua").unwrap();
    let mut st = stats("Lua", 0, 0, 0, 0, 0);
    count_lines(&mut st, &lines(&["-- x", "local a = 1", "// not lua"]), lua);
    assert_eq!((st.blank, st.comment, st.code), (0, 1, 2));
}

#[test]
fn test_stats_of_files() {
    let langs = builtin_languages();
    let go = langs.iter().find(|l| l.name == "Go").unwrap();
    let files = vec![lines(&["package main", "", "// hi"]), lines(&["func f() {}"])];
    let st = LanguageStats::of_files(go, &files).unwrap();
    assert_eq!(st.name, "Go");
    assert_eq!(st.files, 2);
    assert_eq!((st.blank, st.comment, st.code, st.lines), (1, 1, 2, 0));

    assert_eq!(LanguageStats::of_files(go, &vec![]), None);
    assert_eq!(LanguageStats::of_files(go, &vec![lines(&[])]), None);
}

#[test]
fn test_compare_stats() {
    let old = vec![stats("Rust", 3, 10, 5, 100, 115), stats("Go", 1, 1, 1, 10, 12), stats("C", 2, 0, 0, 4, 4)];
    let current = vec![stats("Rust", 4, 12, 5, 90, 107), stats("C", 2, 0, 0, 4, 4), stats("Lua", 1, 0, 2, 7, 9)];
    let (changes, total) = LanguageStatsChange::compare(&old, &current);
    assert_eq!(changes.len(), 3);
    // Go and Rust both changed 12 lines; which comes first is left open.
    let go = changes.iter().position(|c| c.name == "Go").unwrap();
    let rust = changes.iter().position(|c| c.name == "Rust").unwrap();
    assert!(go < 2 && rust < 2);
    let g = &changes[go];
    assert_eq!((g.files, g.blank, g.comment, g.code, g.lines, g.lines_abs), (-1, -1, -1, -10, -12, 12));
    let r = &changes[rust];
    assert_eq!((r.files, r.blank, r.comment, r.code, r.lines, r.lines_abs), (1, 2, 0, -10, -8, 12));
    assert_eq!(changes[2].name, "Lua");
    assert_eq!((changes[2].files, changes[2].code, changes[2].lines, changes[2].lines_abs), (1, 7, 9, 9));
    assert_eq!(total, 33);
}

#[test]
fn test_compare_same_is_empty() {
    let s = vec![stats("Rust", 3, 10, 5, 100, 115), stats("Go", 1, 1, 1, 10, 12)];
    let (changes, total) = LanguageStatsChange::compare(&s, &s);
    assert!(changes.is_empty());
    assert_eq!(total, 0);
}

#[test]
fn test_compare_later_entry_counts() {
    let old = vec![stats("Rust", 1, 0, 0, 1, 1), stats("Rust", 2, 0, 0, 2, 2)];
    let current = vec![stats("Rust", 2, 0, 0, 2, 2)];
    let (changes, total) = LanguageStatsChange::compare(&old, &current);
    assert!(changes.is_empty());
    assert_eq!(total, 0);
}

#[test]
fn test_parse_stats_name() {
    assert_eq!(parse_stats_name("2024-05-01"), Ok(("2024-05-01".to_string(), -1)));
    assert_eq!(parse_stats_name("2024-05-01_3"), Ok(("2024-05-01".to_string(), 3)));
    assert_eq!(parse_stats_name("2024-05-01_-2"), Ok(("2024-05-01".to_string(), -2)));
    assert_eq!(
        parse_stats_name("2024-05-01_3_4"),
        Err(Error::InvalidStatsName("2024-05-01_3_4".to_string()))
    );
    assert_eq!(parse_stats_name("2024-05-01_x"), Err(Error::InvalidStatsIndex("2024-05-01_x".to_string())));
    assert_eq!(parse_stats_name("2024-13-01"), Err(Error::InvalidStatsDate("2024-13-01".to_string())));
    assert_eq!(parse_stats_name("today_1"), Err(Error::InvalidStatsDate("today_1".to_string())));
    assert_eq!(
        Error::InvalidStatsName("a_b_c".to_string()).message(),
        "invalid stats name format 'a_b_c', expect 'date_index'"
    );
    assert_eq!(
        Error::InvalidStatsIndex("d_x".to_string()).message(),
        "invalid index in stats name 'd_x', expect number"
    );
    assert_eq!(
        Error::InvalidStatsDate("today".to_string()).message(),
        "invalid stats name 'today', the date is invalid"
    );
}

#[test]
fn test_stats_index() {
    assert_eq!(stats_index(-1, 3), Ok(2));
    assert_eq!(stats_index(0, 3), Ok(0));
    assert_eq!(stats_index(3, 3), Err(Error::StatsIndexOutOfBound(3)));
    assert_eq!(stats_index(0, 0), Err(Error::StatsNotFound));
    assert_eq!(Error::StatsIndexOutOfBound(3).message(), "index 3 is out of bound of stats");
    assert_eq!(Error::StatsNotFound.message(), "cannot find the stats");
    assert_eq!(entry_to_remove(-1, 0), Ok(None));
    assert_eq!(entry_to_remove(1, 2), Ok(Some(1)));
    assert_eq!(entry_to_remove(2, 2), Err(Error::StatsIndexOutOfBound(2)));
    assert_eq!(stats_name("2024-05-01", 4), "2024-05-01_4");
}
