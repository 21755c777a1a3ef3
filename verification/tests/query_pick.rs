use roxide::db::Repository;
use roxide::error::Error;
use roxide::exec::git::tag::UpdateTagRule;
use roxide::exec::{CmdConfig, CmdHint};
use roxide::git::GitTag;
use roxide::repo::create::create_hooks;
use roxide::repo::query::{query_step, QueryStep};
use roxide::repo::select::{pick_from_repos, DbPick, DisplayLevel, RepoSelector};
use roxide::tag_rule::substitute_rule;

fn words(v: &[&str]) -> Vec<String> {
    v.iter().map(|s| s.to_string()).collect()
}

fn s(x: &str) -> String {
    x.to_string()
}

#[test]
fn test_query_step() {
    assert_eq!(query_step(&words(&[]), false, false, false, false), Ok(QueryStep::LatestAll));
    assert_eq!(query_step(&words(&[]), true, false, false, false), Ok(QueryStep::SearchAll));
    assert_eq!(query_step(&words(&["github"]), false, false, true, true), Ok(QueryStep::LatestRemote(s("github"))));
    assert_eq!(query_step(&words(&["github"]), true, false, true, true), Ok(QueryStep::SearchRemote(s("github"))));
    assert_eq!(query_step(&words(&["rox"]), true, false, false, false), Ok(QueryStep::FuzzyAll(s("rox"))));
    assert_eq!(
        query_step(&words(&["github", "fioncat/"]), false, false, true, true),
        Ok(QueryStep::ProviderOwner(s("github"), s("fioncat")))
    );
    assert_eq!(
        query_step(&words(&["github", "fioncat/"]), false, true, true, true),
        Ok(QueryStep::SearchOwner(s("github"), s("fioncat")))
    );
    assert_eq!(
        query_step(&words(&["github", "fioncat/"]), false, false, true, false),
        Ok(QueryStep::SearchOwner(s("github"), s("fioncat")))
    );
    assert_eq!(
        query_step(&words(&["github", "rox"]), false, false, true, true),
        Ok(QueryStep::FuzzyRemote(s("github"), s("rox")))
    );
    assert_eq!(
        query_step(&words(&["gitlab", "group/sub/proj"]), false, false, true, true),
        Ok(QueryStep::Repo(s("gitlab"), s("group/sub"), s("proj")))
    );
    assert_eq!(
        query_step(&words(&["nowhere", "a/b"]), false, false, false, true),
        Err(Error::RemoteNotFound(s("nowhere")))
    );
    assert_eq!(Error::RemoteNotFound(s("nowhere")).message(), "remote \"nowhere\" not found");
}

fn repo(remote: &str, owner: &str, name: &str, path: Option<&str>) -> Repository {
    Repository {
        remote: s(remote),
        owner: s(owner),
        name: s(name),
        path: path.map(s),
        ..Default::default()
    }
}

#[test]
fn test_pick_from_repos() {
    let repos = vec![
        repo("github", "fioncat", "roxide", None),
        repo("github", "fioncat", "dotfiles", None),
        repo("github", "fioncat", "outside", Some("/src/outside")),
    ];
    let ws = "/ws";
    // The current directory is a repository: never chosen.
    assert_eq!(pick_from_repos(&repos, ws, "/ws/github/fioncat/roxide", true, true), Ok(DbPick::Latest(1)));
    assert_eq!(
        pick_from_repos(&repos, ws, "/ws/github/fioncat/roxide/", false, false),
        Ok(DbPick::Search(vec![1, 2]))
    );
    // Inside a repository, with no remote: that repository.
    assert_eq!(pick_from_repos(&repos, ws, "/ws/github/fioncat/dotfiles/src", true, false), Ok(DbPick::Current(1)));
    assert_eq!(pick_from_repos(&repos, ws, "/src/outside/a/b", true, true), Ok(DbPick::Current(2)));
    // With a remote, being inside does not choose it.
    assert_eq!(pick_from_repos(&repos, ws, "/ws/github/fioncat/dotfiles/src", false, true), Ok(DbPick::Latest(0)));
    assert_eq!(pick_from_repos(&vec![], ws, "/", true, true), Err(Error::NoRepoToSelect));
    let only = vec![repo("github", "fioncat", "roxide", None)];
    assert_eq!(pick_from_repos(&only, ws, "/ws/github/fioncat/roxide", true, false), Err(Error::NoRepoToSelect));
    assert_eq!(Error::NoRepoToSelect.message(), "no repo to select");
}

#[test]
fn test_many_query() {
    let q = RepoSelector::from_args(&words(&["github", "fioncat"])).many_query();
    assert_eq!(q.remote, Some(s("github")));
    assert_eq!(q.owner, Some(s("fioncat")));
    assert_eq!(q.name, None);
    assert_eq!(q.level, DisplayLevel::Name);
    let q = RepoSelector::from_args(&words(&[])).many_query();
    assert_eq!((q.remote, q.level), (None, DisplayLevel::Remote));
}

#[test]
fn test_create_hooks() {
    let bash = CmdConfig { name: s("bash"), args: vec![] };
    let hooks = vec![(s("go-mod"), s("/hooks/go.sh")), (s("cargo"), s("/hooks/cargo.sh"))];
    let (cmds, err) = create_hooks(&bash, "/ws/github/me/x", &words(&["cargo", "go-mod"]), &hooks, "github", "me", "x", false);
    assert_eq!(err, None);
    assert_eq!(cmds.len(), 2);
    assert_eq!(cmds[0].args, vec![s("/hooks/cargo.sh")]);
    assert_eq!(cmds[1].args, vec![s("/hooks/go.sh")]);
    assert_eq!(cmds[0].dir, Some(s("/ws/github/me/x")));
    assert_eq!(
        cmds[0].envs,
        vec![(s("REPO_REMOTE"), s("github")), (s("REPO_NAME"), s("x")), (s("REPO_OWNER"), s("me"))]
    );
    assert_eq!(cmds[0].hint, CmdHint::Message(s("Running create hook: cargo")));

    let (cmds, err) = create_hooks(&bash, "/p", &words(&["cargo", "missing", "go-mod"]), &hooks, "r", "o", "n", true);
    assert_eq!(cmds.len(), 1);
    assert_eq!(cmds[0].hint, CmdHint::Silent);
    assert_eq!(err, Some(Error::HookNotFound(s("missing"))));
    assert_eq!(Error::HookNotFound(s("missing")).message(), "hook \"missing\" not found");
}

fn is_date(t: &str, sep: char) -> bool {
    let parts: Vec<&str> = t.split(sep).collect();
    parts.len() == 3
        && parts[0].len() >= 4
        && parts[1].len() == 2
        && parts[2].len() == 2
        && parts.iter().all(|p| p.chars().all(|c| c.is_ascii_digit()))
}

#[test]
fn test_date_rules_shape() {
    let t = UpdateTagRule::DateDash.apply("v1.0.0").unwrap();
    assert!(is_date(&t, '-'));
    let t = UpdateTagRule::DateDot.apply("v1.0.0").unwrap();
    assert!(is_date(&t, '.'));
    let t = UpdateTagRule::Date.apply("2024.01.02").unwrap();
    assert!(is_date(&t, '.'));
    let t = UpdateTagRule::Date.apply("2024-01-02").unwrap();
    assert!(is_date(&t, '-'));
}

#[test]
fn test_substitute_rule() {
    assert_eq!(substitute_rule("v1.2.3", "v{0}.{1+}.0"), (s("v1.3.0"), false));
    assert_eq!(substitute_rule("v1.2.3", "{%Y}-{%m}-{%d}"), (s("%Y-%m-%d"), true));
    assert_eq!(substitute_rule("v7", "r{0}-{%y}{5}"), (s("r7-%y0"), true));
    let t = GitTag(s("v1.2.3")).apply_rule("{%Y}.{%m}.{%d}").unwrap();
    assert!(is_date(&t.0, '.'));
}
