use roxide::repo::detect::{builtin_languages, builtin_modules, detect_languages, extension_of, order_labels, Detect, DetectLabels};

fn strings(v: &[&str]) -> Vec<String> {
    v.iter().map(|s| s.to_string()).collect()
}

fn sorted(mut v: Vec<String>) -> Vec<String> {
    v.sort();
    v
}

#[test]
fn builtin_tables() {
    let languages = builtin_languages();
    assert_eq!(languages.len(), 18);
    assert_eq!(languages[0].name, "C");
    assert_eq!(languages[1].extensions, vec!["cpp", "cc", "C", "hpp"]);
    assert_eq!(languages[12].comments, vec!["//", "#", "/*"]);
    assert_eq!(languages[17].label, "scala");
    let modules = builtin_modules();
    assert_eq!(modules.len(), 8);
    assert_eq!(modules[5].label, "gradle");
    assert_eq!(modules[5].files, vec!["settings.gradle", "build.gradle"]);
    assert!(modules[0].dirs.is_empty());
}

#[test]
fn extensions_follow_the_last_component() {
    assert_eq!(extension_of("src/main.rs"), Some("rs".to_string()));
    assert_eq!(extension_of("archive.tar.gz"), Some("gz".to_string()));
    assert_eq!(extension_of("dir.d/Makefile"), None);
    assert_eq!(extension_of(".gitignore"), None);
    assert_eq!(extension_of("a/.hidden.toml"), Some("toml".to_string()));
    assert_eq!(extension_of("name."), Some("".to_string()));
    assert_eq!(extension_of(".."), None);
    assert_eq!(extension_of(""), None);
}

#[test]
fn labels_from_languages_and_modules() {
    let detect = DetectLabels::new();
    let labels = Some(strings(&["mine", "rust", "cargo"]));
    let files = strings(&["src/main.rs", "src/lib.rs", "web/app.ts", "README.md", "Makefile"]);
    let root_files = strings(&["Cargo.toml", "README.md"]);
    let root_dirs = strings(&["src"]);
    let updated = detect.update(labels, &files, &root_files, &root_dirs).unwrap();
    assert_eq!(sorted(updated.clone()), strings(&["cargo", "mine", "rust", "ts"]));

    let listed = detect.sort(Some(&updated)).unwrap();
    assert_eq!(listed, strings(&["mine", "rust", "ts", "cargo"]));
    assert_eq!(detect.format(Some(&updated)).unwrap(), "mine,rust,ts,cargo");

    assert_eq!(detect.update(None, &files, &root_files, &root_dirs), None);
    assert_eq!(detect.sort(None), None);
}

#[test]
fn module_needs_its_language() {
    let detect = DetectLabels::new();
    let files = strings(&["index.js"]);
    let root_files = strings(&["Cargo.toml", "package.json"]);
    let updated = detect.update(Some(Vec::new()), &files, &root_files, &Vec::new()).unwrap();
    assert_eq!(sorted(updated), strings(&["js", "nodejs"]));
}

#[test]
fn clearing_keeps_user_labels() {
    let detect = DetectLabels::new();
    let cleared = detect.clear(Some(strings(&["go", "gomod", "team-a", "team-a"]))).unwrap();
    assert_eq!(cleared, strings(&["team-a"]));
    assert_eq!(detect.clear(None), None);
}

#[test]
fn extension_labels_and_vendor_directory() {
    let detect = Detect::new();
    let files = strings(&["main.go", "site/index.html", "tool.kts"]);
    let root_dirs = strings(&["vendor"]);
    let updated = detect.update_labels(Some(strings(&["old", "python"])), &files, &Vec::new(), &root_dirs).unwrap();
    assert_eq!(sorted(updated.clone()), strings(&["golang", "govendor", "kotlin", "old", "web"]));
    assert_eq!(detect.format_labels(Some(&updated)).unwrap(), "old,golang,kotlin,web,govendor");
}

#[test]
fn ordering_groups_then_text() {
    let langs = vec!["rust", "go"];
    let mods = vec!["cargo"];
    let labels = strings(&["zeta", "cargo", "rust", "alpha", "go"]);
    assert_eq!(order_labels(&labels, &langs, &mods), strings(&["alpha", "zeta", "go", "rust", "cargo"]));
}

#[test]
fn files_grouped_by_language() {
    let languages = builtin_languages();
    let files = strings(&["src/main.rs", "lib/a.h", "README.md", "lib/a.c", "src/lib.rs", "web/x.ts", "Makefile"]);
    let groups = detect_languages(&files, &languages);
    let labels: Vec<&str> = groups.iter().map(|g| g.language.label).collect();
    assert_eq!(labels, vec!["c", "rust", "ts"]);
    assert_eq!(groups[0].files, strings(&["lib/a.h", "lib/a.c"]));
    assert_eq!(groups[0].language.name, "C");
    assert_eq!(groups[1].files, strings(&["src/main.rs", "src/lib.rs"]));
    assert_eq!(groups[2].files, strings(&["web/x.ts"]));
    assert!(detect_languages(&strings(&["notes.txt"]), &languages).is_empty());
}
