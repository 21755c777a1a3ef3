use roxide::error::Error;
use roxide::exec::git::branch::{Branch, BranchStatus};
use roxide::git::GitTag;
use roxide::repo::ops::{dirty_result, plan_sync, sync_result};
use roxide::scan::disk_usage::DiskUsage;
use roxide::scan::globs::{compile_globs, filter_git_files};

fn branch(name: &str, status: BranchStatus, current: bool) -> Branch {
    Branch {
        name: name.to_string(),
        status,
        current,
        commit_id: "abc1234".to_string(),
        commit_message: "commit".to_string(),
    }
}

fn strings(a: &[&str]) -> Vec<String> {
    a.iter().map(|s| s.to_string()).collect()
}

#[test]
fn dirty_repo_stops_before_sync() {
    assert!(dirty_result("github:fioncat/roxide", 0).is_none());
    let r = dirty_result("github:fioncat/roxide", 3).unwrap();
    assert_eq!(r.name, "github:fioncat/roxide");
    assert_eq!(r.uncommitted, 3);
    assert!(r.pushed.is_empty() && r.pulled.is_empty() && r.deleted.is_empty());
    assert!(r.conflect.is_empty() && r.detached.is_empty());
}

#[test]
fn sync_result_names_follow_branch_states() {
    let branches = vec![
        branch("main", BranchStatus::Sync, false),
        branch("a", BranchStatus::Ahead, true),
        branch("b", BranchStatus::Behind, false),
        branch("c", BranchStatus::Gone, false),
        branch("d", BranchStatus::Ahead, false),
        branch("e", BranchStatus::Detached, false),
        branch("f", BranchStatus::Conflict, false),
        branch("g", BranchStatus::Gone, false),
    ];
    let plan = plan_sync(&branches, "main");
    let r = sync_result("github:fioncat/roxide", &plan);
    assert_eq!(r.name, "github:fioncat/roxide");
    assert_eq!(r.uncommitted, 0);
    assert_eq!(r.pushed, strings(&["a", "d"]));
    assert_eq!(r.pulled, strings(&["b"]));
    assert_eq!(r.deleted, strings(&["c", "g"]));
    assert_eq!(r.conflect, strings(&["f"]));
    assert_eq!(r.detached, strings(&["e"]));
}

#[test]
fn gone_default_branch_is_not_deleted() {
    let branches = vec![branch("main", BranchStatus::Gone, true), branch("old", BranchStatus::Gone, false)];
    let plan = plan_sync(&branches, "main");
    let r = sync_result("x", &plan);
    assert_eq!(r.deleted, strings(&["old"]));
}

#[test]
fn disk_usage_formatted_right_aligned() {
    let mut usage = DiskUsage::new();
    usage.items.push((strings(&["a"]), 600));
    usage.items.push((strings(&["g", "h"]), 1700));
    let out = usage.formatted("2.25 KiB", &strings(&["600 B", "1.66 KiB"]));
    assert_eq!(out.len(), 3);
    assert_eq!(out[0], (strings(&["a"]), "   600 B".to_string()));
    assert_eq!(out[1], (strings(&["g", "h"]), "1.66 KiB".to_string()));
    assert_eq!(out[2], (strings(&["."]), "2.25 KiB".to_string()));
}

#[test]
fn disk_usage_formatted_total_widest() {
    let usage = DiskUsage::new();
    let out = usage.formatted("12 KiB", &Vec::new());
    assert_eq!(out, vec![(strings(&["."]), "12 KiB".to_string())]);
}

#[test]
fn git_files_filtered_by_globs() {
    let globs = compile_globs(&strings(&["*.lock", "vendor/**"])).unwrap();
    let files = strings(&["Cargo.lock", "src/main.rs", "vendor/x/y.rs", "README.md"]);
    assert_eq!(filter_git_files(&files, &globs), strings(&["src/main.rs", "README.md"]));
    let none = compile_globs(&Vec::new()).unwrap();
    assert_eq!(filter_git_files(&files, &none), files);
}

#[test]
fn invalid_glob_is_refused() {
    match compile_globs(&strings(&["*.rs", "[", "**/a"])) {
        Err(Error::InvalidGlob(g)) => assert_eq!(g, "["),
        other => panic!("unexpected {:?}", other.map(|v| v.len())),
    }
}

#[test]
fn tag_rule_with_accented_text() {
    let tag = GitTag("vé1.2".to_string());
    let next = tag.apply_rule("é{0}.{1+}").unwrap();
    assert_eq!(next.as_str(), "é1.3");
}

#[test]
fn date_rule_items_render_in_place() {
    let tag = GitTag("v3.1".to_string());
    let next = tag.apply_rule("r{0}-{%y}{%m}/{%D}").unwrap();
    let s = next.as_str();
    let digits = |t: &str| t.len() == 2 && t.chars().all(|c| c.is_ascii_digit());
    assert_eq!(s.len(), 2 + 1 + 4 + 1 + 8);
    assert!(s.starts_with("r3-"));
    assert!(digits(&s[3..5]) && digits(&s[5..7]));
    assert_eq!(&s[7..8], "/");
    assert!(digits(&s[8..10]) && digits(&s[11..13]) && digits(&s[14..16]));
    assert_eq!((&s[10..11], &s[13..14]), ("/", "/"));
    let year = GitTag("x".to_string()).apply_rule("{%Y}").unwrap();
    assert!(year.as_str().len() >= 4 && year.as_str().chars().all(|c| c.is_ascii_digit()));
}
