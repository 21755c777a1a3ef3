use roxide::scan::disk_usage::DiskUsage;
use roxide::scan::ignore::Ignore;

const FILES: [(&str, u64); 7] = [
    ("a/b/c.txt", 100),
    ("a/b/d.txt", 200),
    ("a/e/f.txt", 300),
    ("g/h/i.txt", 400),
    ("g/j/m.txt", 600),
    ("g/k/m.txt", 700),
    ("o/p.txt", 800),
];

/// Counts the files the way a walk hands them over: one batch per directory.
fn count(depth: usize, rules: &Ignore, skip_dirs: &[&str]) -> DiskUsage {
    let base = "tests/disk_usage";
    let mut usage = DiskUsage::new();
    let mut dirs: Vec<&str> = Vec::new();
    for (path, _) in FILES {
        let dir = &path[..path.rfind('/').unwrap()];
        if !dirs.contains(&dir) {
            dirs.push(dir);
        }
    }
    for dir in dirs {
        if skip_dirs.iter().any(|s| dir == *s || dir.starts_with(&format!("{s}/"))) {
            continue;
        }
        let batch: Vec<(String, u64)> = FILES
            .iter()
            .filter(|(p, _)| &p[..p.rfind('/').unwrap()] == dir)
            .map(|(p, s)| (format!("{base}/{p}"), *s))
            .collect();
        usage.handle(base, depth, rules, &batch).unwrap();
    }
    usage
}

fn items(usage: &DiskUsage) -> Vec<(String, u64)> {
    usage.items.iter().map(|(k, v)| (k.join("/"), *v)).collect()
}

fn expect(pairs: &[(&str, u64)]) -> Vec<(String, u64)> {
    pairs.iter().map(|(k, v)| (k.to_string(), *v)).collect()
}

#[test]
fn test_disk_usage() {
    let none = Ignore::empty();
    let usage = count(0, &none, &[]);
    assert_eq!(usage.files_count, 7);
    assert_eq!(usage.files_usage, 3100);
    assert!(usage.items.is_empty());

    let usage = count(1, &none, &[]);
    assert_eq!(items(&usage), expect(&[("a", 600), ("g", 1700), ("o", 800)]));

    let usage = count(2, &none, &[]);
    assert_eq!(
        items(&usage),
        expect(&[("a/b", 300), ("a/e", 300), ("g/h", 400), ("g/j", 600), ("g/k", 700), ("o/p.txt", 800)])
    );

    let usage = count(1, &none, &["a"]);
    assert_eq!(usage.files_count, 4);
    assert_eq!(usage.files_usage, 2500);
    assert_eq!(items(&usage), expect(&[("g", 1700), ("o", 800)]));

    let usage = count(4, &none, &[]);
    assert_eq!(items(&usage).len(), 7);
    assert_eq!(items(&usage)[0], ("a/b/c.txt".to_string(), 100));
    assert_eq!(items(&usage)[6], ("o/p.txt".to_string(), 800));

    let txt = Ignore::parse("tests/disk_usage", &["*.txt"]).unwrap();
    let usage = count(4, &txt, &[]);
    assert_eq!(usage.files_count, 0);
    assert_eq!(usage.files_usage, 0);
    assert!(usage.items.is_empty());

    let some = Ignore::parse("tests/disk_usage", &["o/*.txt", "g/**/*.txt"]).unwrap();
    let usage = count(1, &some, &[]);
    assert_eq!(usage.files_count, 3);
    assert_eq!(usage.files_usage, 600);
    assert_eq!(items(&usage), expect(&[("a", 600)]));
}

#[test]
fn paths_sort_by_component() {
    let mut usage = DiskUsage::new();
    let batch = vec![("r/a-b/x".to_string(), 1), ("r/a/y".to_string(), 2), ("r/a.b/z".to_string(), 3)];
    usage.handle("r", 1, &Ignore::empty(), &batch).unwrap();
    assert_eq!(items(&usage), expect(&[("a", 2), ("a-b", 1), ("a.b", 3)]));
}

#[test]
fn file_outside_the_base_fails_the_batch() {
    let mut usage = DiskUsage::new();
    let batch = vec![("base/a".to_string(), 1), ("elsewhere/b".to_string(), 2)];
    let err = usage.handle("base", 1, &Ignore::empty(), &batch).unwrap_err();
    assert_eq!(err.message(), "prefix not found");
    assert_eq!(usage.files_count, 0);
    assert!(usage.items.is_empty());
}
