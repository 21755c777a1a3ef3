use roxide::db::Repository;
use roxide::exec::git::branch::{Branch, BranchStatus};
use roxide::exec::git::GitCmd;
use roxide::exec::{CmdConfig, CmdHint};
use roxide::git::GitTag;
use roxide::repo::disk_usage::{RemoteDiskUsage, RepoDiskUsage};
use roxide::repo::keywords::Keywords;
use roxide::repo::ops::{plan_sync, sync_cmds, sync_result, BranchAction};
use roxide::repo::parse_workspace_path;
use roxide::repo::select::split_owner;

fn branch(name: &str, status: BranchStatus, current: bool) -> Branch {
    Branch {
        name: name.to_string(),
        status,
        current,
        commit_id: "abc1234".to_string(),
        commit_message: "commit".to_string(),
    }
}

fn git() -> GitCmd {
    let cfg = CmdConfig {
        name: "git".to_string(),
        args: vec![],
    };
    GitCmd::new(&cfg, "/work/roxide", false)
}

/// The arguments of each command, and the message it is announced with.
fn steps(branches: &Vec<Branch>, default: &str) -> Vec<(Vec<String>, String)> {
    let plan = plan_sync(branches, default);
    sync_cmds(&git(), &plan, default)
        .into_iter()
        .map(|c| {
            let message = match c.hint {
                CmdHint::Message(m) => m,
                _ => String::new(),
            };
            (c.args, message)
        })
        .collect()
}

fn args(a: &[&str]) -> Vec<String> {
    a.iter().map(|s| s.to_string()).collect()
}

#[test]
fn owner_and_name_reassemble() {
    let (owner, name) = split_owner("group/sub/repo");
    assert_eq!((owner.as_str(), name.as_str()), ("group/sub", "repo"));
    assert_eq!(format!("{owner}/{name}"), "group/sub/repo");
    let (owner, name) = split_owner("roxide");
    assert_eq!((owner.as_str(), name.as_str()), ("", "roxide"));
    let (owner, name) = split_owner("fioncat/");
    assert_eq!((owner.as_str(), name.as_str()), ("fioncat", ""));
}

#[test]
fn sync_checks_out_branches_and_comes_back() {
    let branches = vec![
        branch("main", BranchStatus::Behind, false),
        branch("feat/a", BranchStatus::Ahead, true),
        branch("old", BranchStatus::Gone, false),
        branch("clash", BranchStatus::Conflict, false),
    ];
    let got = steps(&branches, "main");
    let expect = vec![
        (args(&["checkout", "main"]), "Checkout to branch main".to_string()),
        (args(&["pull", "origin", "main"]), "Pulling branch main".to_string()),
        (args(&["checkout", "feat/a"]), "Checkout to branch feat/a".to_string()),
        (args(&["push", "origin", "feat/a"]), "Pushing branch feat/a".to_string()),
        (args(&["branch", "-D", "old"]), "Deleting branch old".to_string()),
    ];
    assert_eq!(got, expect);

    let plan = plan_sync(&branches, "main");
    assert_eq!(plan.back, "feat/a");
    let result = sync_result("github:fioncat/roxide", &plan);
    assert_eq!(result.pushed, vec!["feat/a".to_string()]);
    assert_eq!(result.pulled, vec!["main".to_string()]);
    assert_eq!(result.deleted, vec!["old".to_string()]);
    assert_eq!(result.conflect, vec!["clash".to_string()]);
    assert!(result.detached.is_empty());
}

#[test]
fn sync_leaves_a_gone_current_branch_for_the_default() {
    let branches = vec![
        branch("main", BranchStatus::Sync, false),
        branch("done", BranchStatus::Gone, true),
    ];
    let got = steps(&branches, "main");
    let expect = vec![
        (args(&["checkout", "main"]), "Checkout to default branch main".to_string()),
        (args(&["branch", "-D", "done"]), "Deleting branch done".to_string()),
        (args(&["checkout", "main"]), "Checkout to backup branch main".to_string()),
    ];
    assert_eq!(got, expect);
}

#[test]
fn sync_never_deletes_the_default_branch() {
    let branches = vec![branch("main", BranchStatus::Gone, true), branch("x", BranchStatus::Gone, false)];
    let plan = plan_sync(&branches, "main");
    assert!(plan.tasks.iter().all(|t| !(t.action == BranchAction::Delete && t.branch == "main")));
    assert_eq!(plan.tasks.len(), 1);
    assert!(steps(&vec![branch("main", BranchStatus::Sync, true)], "main").is_empty());
}

#[test]
fn grouping_keeps_the_total() {
    let mk = |remote: &str, owner: &str, name: &str, usage: u64| RepoDiskUsage {
        repo: Repository {
            remote: remote.to_string(),
            owner: owner.to_string(),
            name: name.to_string(),
            ..Default::default()
        },
        usage,
    };
    let repos = vec![
        mk("a", "x", "1", 7),
        mk("b", "x", "2", 11),
        mk("a", "y", "3", 13),
        mk("c", "z", "4", 0),
    ];
    let total: u64 = repos.iter().map(|r| r.usage).sum();
    let groups = RemoteDiskUsage::group_by_repo_usages(repos);
    assert_eq!(groups.iter().map(|g| g.usage).sum::<u64>(), total);
    assert_eq!(groups.len(), 3);
    assert_eq!(groups[0].remote.remote, "a");
    assert_eq!(groups[0].usage, 20);
    assert_eq!(groups[0].remote.owner_count, 2);
}

#[test]
fn workspace_path_round_trip() {
    let repo = Repository {
        remote: "gitlab".to_string(),
        owner: "group/subgroup".to_string(),
        name: "repo.subrepo".to_string(),
        ..Default::default()
    };
    let path = repo.get_path("/home/user/dev");
    assert_eq!(path, "/home/user/dev/gitlab/group.subgroup/repo.subrepo");
    assert_eq!(
        parse_workspace_path("/home/user/dev", &path),
        Some(("gitlab".to_string(), "group/subgroup".to_string(), "repo.subrepo".to_string()))
    );
}

#[test]
fn recorded_keyword_is_offered() {
    let mut keywords = Keywords::load(vec![], 60, 100);
    keywords.upsert("github", "rox");
    keywords.upsert("github", "rox");
    assert!(keywords.complete("github").is_empty());
    keywords.upsert("github", "rox");
    assert_eq!(keywords.complete("github"), vec!["rox".to_string()]);
    assert!(keywords.complete("gitlab").is_empty());
}

#[test]
fn plain_rule_is_kept() {
    let tag = GitTag("v1.2.3".to_string());
    assert_eq!(tag.apply_rule("release").unwrap().as_str(), "release");
    assert_eq!(tag.apply_rule("").unwrap().as_str(), "");
}
