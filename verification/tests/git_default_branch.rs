use roxide::exec::git::branch::BranchStatus;
use roxide::git::{GitBranch, GitTag};

/// Lines from `git remote show origin`.
fn remote_show_lines() -> Vec<String> {
    let lines = vec![
        "  * remote origin",
        "  Fetch URL: git@github.com:fioncat/roxide.git",
        "  Push  URL: git@github.com:fioncat/roxide.git",
        "  HEAD branch: main",
        "  Remote branches:",
        "    feat/test tracked",
        "    main      tracked",
        "  Local branches configured for 'git pull':",
        "    feat/test merges with remote feat/test",
        "    main      merges with remote main",
        "  Local refs configured for 'git push':",
        "    feat/test pushes to feat/test (up to date)",
        "    main      pushes to main      (up to date)",
    ];
    lines.into_iter().map(|line| line.to_string()).collect()
}

#[test]
fn git_test_parse_default_branch() {
    let default_branch = GitBranch::parse_default_branch(&remote_show_lines()).unwrap();
    assert_eq!(default_branch, "main");
}

#[test]
fn term_test_parse_default_branch() {
    let default_branch = GitBranch::parse_default_branch(&remote_show_lines()).unwrap();
    assert_eq!(default_branch, "main");
}

#[test]
fn parse_default_branch_without_head() {
    let lines = vec!["  * remote origin".to_string(), "  Remote branches:".to_string()];
    assert!(GitBranch::parse_default_branch(&lines).is_err());
}

fn apply_tag_rule_cases() {
    let cases = vec![
        ("v0.1.0", "v{0}.{1+}.0", "v0.2.0"),
        ("v12.1.0", "v{0+}.0.0", "v13.0.0"),
        ("v0.8.13", "{0}.{1}.{2+}-rc1", "0.8.14-rc1"),
        ("1.2.23", "{0}.{1}.{2+}-rc{3}", "1.2.24-rc0"),
        ("1.2.23", "{0}.{1}.{2+}-rc{3+}", "1.2.24-rc1"),
        ("1.2.20-rc4", "{0}.{1}.{2+}-rc{3+}", "1.2.21-rc5"),
    ];
    for (before, rule, expect) in cases {
        let tag = GitTag(String::from(before));
        let result = tag.apply_rule(rule).unwrap();
        assert_eq!(result.as_str(), expect);
    }
}

#[test]
fn git_test_apply_tag_rule() {
    apply_tag_rule_cases();
}

#[test]
fn term_test_apply_tag_rule() {
    apply_tag_rule_cases();
}

#[test]
fn tag_rule_leaves_unknown_braces_alone() {
    let tag = GitTag(String::from("v1.2.3"));
    assert_eq!(tag.apply_rule("{x}-{}-{2").unwrap().as_str(), "{x}-{}-{2");
    assert_eq!(tag.apply_rule("r{7}").unwrap().as_str(), "r0");
    assert_eq!(tag.apply_rule("{1++}").unwrap().as_str(), "3");
}

#[test]
fn tag_rule_with_a_date_has_no_placeholder_left() {
    let tag = GitTag(String::from("v1.2.3"));
    let result = tag.apply_rule("release-{%Y}").unwrap();
    assert!(result.as_str().starts_with("release-"));
    assert!(!result.as_str().contains('%'));
    assert_eq!(result.as_str().len(), "release-".len() + 4);
}

fn parse_branch_cases() -> Vec<(&'static str, &'static str, BranchStatus, bool)> {
    vec![
        (
            "* main cf11adb [origin/main] My best commit since the project begin",
            "main",
            BranchStatus::Sync,
            true,
        ),
        (
            "release/1.6 dc07e7ec7 [origin/release/1.6] Merge pull request #9024 from akhilerm/cherry-pick-9021-release/1.6",
            "release/1.6",
            BranchStatus::Sync,
            false,
        ),
        (
            "feat/update-version 3b0569d62 [origin/feat/update-version: ahead 1] chore: update cargo version",
            "feat/update-version",
            BranchStatus::Ahead,
            false,
        ),
        (
            "* feat/tmp-dev 92bbd6e [origin/feat/tmp-dev: gone] Merge pull request #6 from fioncat/hello",
            "feat/tmp-dev",
            BranchStatus::Gone,
            true,
        ),
        (
            "master       b4a40de [origin/master: ahead 1, behind 1] test commit",
            "master",
            BranchStatus::Conflict,
            false,
        ),
        ("* dev        b4a40de test commit", "dev", BranchStatus::Detached, true),
    ]
}

#[test]
fn git_test_parse_branch() {
    for (raw, name, status, current) in parse_branch_cases() {
        let result = GitBranch::parse(raw).unwrap();
        let expect = GitBranch { name: String::from(name), status, current };
        assert_eq!(result, expect);
    }
}

#[test]
fn term_test_parse_branch() {
    for (raw, name, status, current) in parse_branch_cases() {
        let result = GitBranch::parse(raw).unwrap();
        let expect = GitBranch { name: String::from(name), status, current };
        assert_eq!(result, expect);
    }
}
