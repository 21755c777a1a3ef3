use roxide::error::Error;
use roxide::exec::fzf::search;
use roxide::exec::git::branch::{Branch, BranchStatus, RemoteDefault};
use roxide::exec::git::remote::Remote;
use roxide::exec::git::tag::{Tag, UpdateTagRule};
use roxide::exec::git::GitCmd;
use roxide::exec::{CmdConfig, CmdResult};

/// What a successful command printed.
fn done(out: &str) -> CmdResult {
    CmdResult {
        name: "git".to_string(),
        code: 0,
        stdout: Some(out.to_string()),
        stderr: Some(String::new()),
    }
}

/// A command that exited with `code`.
fn failed(name: &str, code: i32) -> CmdResult {
    CmdResult {
        name: name.to_string(),
        code,
        stdout: Some(String::new()),
        stderr: Some(String::new()),
    }
}

fn git() -> GitCmd {
    let cfg = CmdConfig {
        name: "git".to_string(),
        args: vec![],
    };
    GitCmd::new(&cfg, "/tmp/roxide", true)
}

/// What `git for-each-ref --sort=-creatordate refs/tags/` prints in the
/// project's repository, newest first.
const TAGS: &str = "v0.5.0 1a2b3c4 release v0.5.0\nv0.4.0 2b3c4d5 release v0.4.0\nv0.3.0 3c4d5e6 release v0.3.0\nv0.2.0 4d5e6f7 release v0.2.0\nv0.1.0 5e6f708 release v0.1.0\n";

#[test]
fn test_fzf() {
    // fzf prints the line it picked; with `--filter` and no match it exits with 1.
    let test_cases: Vec<(Vec<&str>, &str, CmdResult, Option<usize>)> = vec![
        (vec!["apple", "banana", "cherry"], "banna", done("banana\n"), Some(1)),
        (vec!["dog", "cat", "mouse"], "elephant", failed("fzf", 1), None),
        (vec![], "anything", failed("fzf", 1), None),
    ];
    for (items, _filter, result, expected) in test_cases {
        let result = search(&items, &result);
        match expected {
            Some(index) => {
                assert!(result.is_ok());
                assert_eq!(result.unwrap(), index);
            }
            None => {
                assert!(result.is_err());
                assert_eq!(result.unwrap_err().message(), "fzf no match found");
            }
        }
    }
}

#[test]
fn test_list() {
    let out = "* main cf11adb [origin/main] My best commit since the project begin\n";
    let branches = Branch::list(&done(out)).unwrap();
    assert_eq!(branches.len(), 1);
    for branch in branches {
        if branch.name == "main" {
            assert_eq!(branch.status, BranchStatus::Sync);
            assert!(branch.current);
        }
    }
}

#[test]
fn test_current() {
    let current = Branch::current(&done("main\n")).unwrap();
    assert_eq!(current, "main");
}

#[test]
fn test_default() {
    let symref = done("refs/remotes/origin/main\n");
    match Branch::default(&git(), &symref) {
        RemoteDefault::Found(default) => assert_eq!(default.unwrap(), "main"),
        RemoteDefault::AskRemote(_) => panic!("the symbolic ref answered"),
    }
}

#[test]
fn branch_test_parse() {
    let test_cases = [
        (
            "* main cf11adb [origin/main] My best commit since the project begin",
            Branch {
                name: "main".to_string(),
                status: BranchStatus::Sync,
                current: true,
                commit_id: "cf11adb".to_string(),
                commit_message: "My best commit since the project begin".to_string(),
            },
        ),
        (
            "release/1.6 dc07e7ec7 [origin/release/1.6] Merge pull request #9024 from akhilerm/cherry-pick-9021-release/1.6",
            Branch {
                name: "release/1.6".to_string(),
                status: BranchStatus::Sync,
                current: false,
                commit_id: "dc07e7ec7".to_string(),
                commit_message:
                    "Merge pull request #9024 from akhilerm/cherry-pick-9021-release/1.6".to_string(),
            },
        ),
        (
            "feat/update-version 3b0569d62 [origin/feat/update-version: ahead 1] chore: update cargo version",
            Branch {
                name: "feat/update-version".to_string(),
                status: BranchStatus::Ahead,
                current: false,
                commit_id: "3b0569d62".to_string(),
                commit_message: "chore: update cargo version".to_string(),
            },
        ),
        (
            "master       b4a40de [origin/master: ahead 1, behind 1] test commit",
            Branch {
                name: "master".to_string(),
                status: BranchStatus::Conflict,
                current: false,
                commit_id: "b4a40de".to_string(),
                commit_message: "test commit".to_string(),
            },
        ),
        (
            "* dev        b4a40de test commit",
            Branch {
                name: "dev".to_string(),
                status: BranchStatus::Detached,
                current: true,
                commit_id: "b4a40de".to_string(),
                commit_message: "test commit".to_string(),
            },
        ),
    ];

    for (line, expected) in test_cases {
        let branch = Branch::parse(line).unwrap();
        assert_eq!(branch, expected);
    }
}

#[test]
fn test_remote() {
    let listing = done("origin\n");
    let remotes = Remote::list(&listing).unwrap();
    assert_eq!(remotes.len(), 1);
    assert_eq!(remotes[0].as_str(), "origin");

    let remote = Remote::origin(&listing).unwrap().unwrap();
    assert_eq!(remote.as_str(), "origin");
}

#[test]
fn test_get_url() {
    let remote = Remote::origin(&done("origin\n")).unwrap().unwrap();
    let url = remote
        .get_url(&done("https://github.com/fioncat/roxide.git\n"))
        .unwrap();
    assert_eq!(url, "https://github.com/fioncat/roxide.git");
}

#[test]
fn test_get_target() {
    let remote = Remote::origin(&done("origin\n")).unwrap().unwrap();
    // An empty branch stands for the remote's default branch.
    let default = match Branch::remote_default(&git(), remote.as_str(), &done("refs/remotes/origin/main\n")) {
        RemoteDefault::Found(b) => b.unwrap(),
        RemoteDefault::AskRemote(_) => panic!("the symbolic ref answered"),
    };
    let fetch = remote.target_fetch_cmd(&git(), "", &default);
    assert!(fetch.args.ends_with(&["fetch".to_string(), "origin".to_string(), "main".to_string()]));
    let target = remote.get_target("", &default, &done("")).unwrap();
    assert_eq!(target, "origin/main");
    assert_eq!(remote.get_target("dev", &default, &done("")).unwrap(), "origin/dev");
}

#[test]
fn test_tag() {
    let tags = Tag::list(&done(TAGS)).unwrap();
    let mut targets = Vec::new();
    for tag in tags {
        match tag.name.as_str() {
            "v0.1.0" | "v0.2.0" | "v0.3.0" | "v0.4.0" | "v0.5.0" => {
                targets.push(tag.name);
            }
            _ => {}
        }
    }
    assert_eq!(
        targets,
        vec![
            "v0.5.0".to_string(),
            "v0.4.0".to_string(),
            "v0.3.0".to_string(),
            "v0.2.0".to_string(),
            "v0.1.0".to_string()
        ]
    );
}

#[test]
fn tag_test_get() {
    let tag = Tag::get(&done(TAGS), "v0.3.0").unwrap();
    assert_eq!(tag.name, "v0.3.0");
}

#[test]
fn tag_test_latest() {
    let tags = Tag::list(&done(TAGS)).unwrap();
    let latest = Tag::get_latest(&done("v0.5.0\n"), &done(TAGS)).unwrap();
    assert_eq!(latest, tags[0]);
}

#[test]
fn missing_tag_is_reported() {
    let err = Tag::get(&done(TAGS), "v9.9.9").unwrap_err();
    assert_eq!(err, Error::TagNotFound("v9.9.9".to_string()));
}

#[test]
fn failed_command_is_reported() {
    let result = CmdResult {
        name: "git".to_string(),
        code: 128,
        stdout: None,
        stderr: Some("fatal: not a git repository".to_string()),
    };
    let err = Branch::current(&result).unwrap_err();
    assert_eq!(
        err.message(),
        "command 'git' exited with bad code 128: \"fatal: not a git repository\""
    );
}

#[test]
fn test_update_tag() {
    let from_str_cases: Vec<(&str, Option<UpdateTagRule>)> = vec![
        ("patch", Some(UpdateTagRule::Patch)),
        ("minor", Some(UpdateTagRule::Minor)),
        ("major", Some(UpdateTagRule::Major)),
        ("date-dash", Some(UpdateTagRule::DateDash)),
        ("date-dot", Some(UpdateTagRule::DateDot)),
        ("invalid", None),
        ("", None),
        ("PATCH", None),
    ];
    for (input, expect) in from_str_cases {
        assert_eq!(UpdateTagRule::from_str(input), expect);
    }

    let apply_cases: Vec<(UpdateTagRule, &str, &str)> = vec![
        (UpdateTagRule::Patch, "1.0.0", "1.0.1"),
        (UpdateTagRule::Patch, "v1.0.0", "v1.0.1"),
        (UpdateTagRule::Patch, "0.1.5", "0.1.6"),
        (UpdateTagRule::Patch, "v2.3.9", "v2.3.10"),
        (UpdateTagRule::Patch, "0.0.0", "0.0.1"),
        (UpdateTagRule::Patch, "v0.0.0", "v0.0.1"),
        (UpdateTagRule::Minor, "1.0.0", "1.1.0"),
        (UpdateTagRule::Minor, "v1.0.0", "v1.1.0"),
        (UpdateTagRule::Minor, "0.1.5", "0.2.0"),
        (UpdateTagRule::Minor, "v2.3.9", "v2.4.0"),
        (UpdateTagRule::Minor, "0.0.0", "0.1.0"),
        (UpdateTagRule::Minor, "v0.0.0", "v0.1.0"),
        (UpdateTagRule::Major, "1.0.0", "2.0.0"),
        (UpdateTagRule::Minor, "1.0.0-alpha.5", "1.1.0"),
        (UpdateTagRule::Minor, "v1.0.0-beta.1", "v1.1.0"),
        (UpdateTagRule::Minor, "2.1.0-rc.3", "2.2.0"),
        (UpdateTagRule::Major, "1.0.0-alpha.5", "2.0.0"),
        (UpdateTagRule::Major, "v1.0.0-beta.1", "v2.0.0"),
        (UpdateTagRule::Major, "2.1.0-rc.3", "3.0.0"),
        (UpdateTagRule::Patch, "invalid", ""),
        (UpdateTagRule::Patch, "1.0", ""),
        (UpdateTagRule::Patch, "1.0.0.0", ""),
        (UpdateTagRule::Patch, "", ""),
    ];
    for (rule, input, expect) in apply_cases {
        let result = rule.apply(input);
        if expect.is_empty() {
            assert!(result.is_err(), "case: {rule:?} {input:?}");
        } else {
            assert_eq!(result.unwrap(), expect, "case: {rule:?} {input:?}");
        }
    }

    let date_dash_result = UpdateTagRule::DateDash.apply("any_tag").unwrap();
    let today_dash = chrono::Local::now().format("%Y-%m-%d").to_string();
    assert_eq!(date_dash_result, today_dash);

    let date_dot_result = UpdateTagRule::DateDot.apply("any_tag").unwrap();
    let today_dot = chrono::Local::now().format("%Y.%m.%d").to_string();
    assert_eq!(date_dot_result, today_dot);

    let date_result = UpdateTagRule::Date.apply("2020-12-12").unwrap();
    assert_eq!(date_result, today_dash);

    let date_result = UpdateTagRule::Date.apply("2020.12.12").unwrap();
    assert_eq!(date_result, today_dot);
}
