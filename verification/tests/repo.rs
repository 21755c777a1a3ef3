use roxide::db::{Mirror, OwnerState, RemoteState, Repository};
use roxide::repo::disk_usage::{OwnerDiskUsage, RemoteDiskUsage, RepoDiskUsage};
use roxide::repo::hook::condition::{parse_duration, Condition, ConditionFacts};
use roxide::repo::hook::filter::{matched_filters, Filter, FilterResult};
use roxide::repo::keywords::{KeywordRecord, Keywords};
use roxide::repo::current::{get_current_repo, get_current_repo_optional};
use roxide::repo::mirror::{clean_mirrors, get_current_mirror, pick_mirror, remove_mirror, CurrentMirror, MirrorChoice, MirrorSelector};
use roxide::repo::ops::CreateResult;
use roxide::repo::parse_workspace_path;

fn repo(remote: &str, owner: &str, name: &str) -> Repository {
    Repository {
        remote: remote.to_string(),
        owner: owner.to_string(),
        name: name.to_string(),
        ..Default::default()
    }
}

#[test]
fn test_parse_workspace_path() {
    let workspace = "/home/user/dev";
    let cases = [
        ("/home/user/dev/github/owner/repo", Some(("github", "owner", "repo"))),
        ("/home/user/dev/gitlab/owner/repo/src/config", Some(("gitlab", "owner", "repo"))),
        ("/home/user/dev/gitlab/owner/repo", Some(("gitlab", "owner", "repo"))),
        ("/home/user/dev/github/owner/repo/subdir/", Some(("github", "owner", "repo"))),
        ("/home/user/dev/gitlab/group.subgroup/repo", Some(("gitlab", "group/subgroup", "repo"))),
        (
            "/home/user/dev/gitlab/group.subgroup/repo.subrepo",
            Some(("gitlab", "group/subgroup", "repo.subrepo")),
        ),
        ("/home/user/dev/github/owner", None),
        ("/home/user/dev/github", None),
        ("/home/user/dev/", None),
        ("/home/user/other/github/owner/repo", None),
        ("/usr/bin", None),
        ("", None),
        ("/", None),
    ];
    for (path, expect) in cases {
        let result = parse_workspace_path(workspace, path);
        let expect = expect.map(|(r, o, n)| (r.to_string(), o.to_string(), n.to_string()));
        assert_eq!(result, expect);
    }
}

#[test]
fn workspace_path_components_are_normalized() {
    let result = parse_workspace_path("/home/user/dev/", "/home/user//dev/./github/owner/repo");
    assert_eq!(
        result,
        Some(("github".to_string(), "owner".to_string(), "repo".to_string()))
    );
    assert_eq!(parse_workspace_path("/home/user/dev", "/home/user/devx/a/b/c"), None);
}

fn usages() -> Vec<RepoDiskUsage> {
    vec![
        RepoDiskUsage { repo: repo("github", "user1", "repo1"), usage: 1000 },
        RepoDiskUsage { repo: repo("github", "user1", "repo2"), usage: 2000 },
        RepoDiskUsage { repo: repo("github", "user2", "repo3"), usage: 5000 },
        RepoDiskUsage { repo: repo("gitlab", "user1", "repo4"), usage: 1500 },
    ]
}

#[test]
fn test_group_remotes_by_repo_usages() {
    let result = RemoteDiskUsage::group_by_repo_usages(usages());
    let expected = vec![
        RemoteDiskUsage {
            remote: RemoteState { remote: "github".to_string(), owner_count: 2, repo_count: 3 },
            usage: 8000,
        },
        RemoteDiskUsage {
            remote: RemoteState { remote: "gitlab".to_string(), owner_count: 1, repo_count: 1 },
            usage: 1500,
        },
    ];
    assert_eq!(result, expected);
}

#[test]
fn test_group_owners_by_repo_usages() {
    let result = OwnerDiskUsage::group_by_repo_usages(usages());
    let expected = vec![
        OwnerDiskUsage {
            owner: OwnerState { remote: "github".to_string(), owner: "user2".to_string(), repo_count: 1 },
            usage: 5000,
        },
        OwnerDiskUsage {
            owner: OwnerState { remote: "github".to_string(), owner: "user1".to_string(), repo_count: 2 },
            usage: 3000,
        },
        OwnerDiskUsage {
            owner: OwnerState { remote: "gitlab".to_string(), owner: "user1".to_string(), repo_count: 1 },
            usage: 1500,
        },
    ];
    assert_eq!(result, expected);
}

#[test]
fn grouping_nothing_gives_nothing() {
    assert!(RemoteDiskUsage::group_by_repo_usages(vec![]).is_empty());
    assert!(OwnerDiskUsage::group_by_repo_usages(vec![]).is_empty());
}

#[test]
fn condition_test_parse() {
    let cases = [
        ("created", Condition::Created),
        ("cloned", Condition::Cloned),
        ("updated", Condition::Updated),
        ("20s", Condition::Interval(20)),
        ("3m", Condition::Interval(3 * 60)),
        ("10m", Condition::Interval(10 * 60)),
        ("10h", Condition::Interval(10 * 3600)),
        ("24h", Condition::Interval(24 * 3600)),
        ("1d", Condition::Interval(24 * 3600)),
        ("10d", Condition::Interval(10 * 24 * 3600)),
        ("365d", Condition::Interval(365 * 24 * 3600)),
    ];
    for (pattern, expect) in cases {
        let cond = Condition::parse(pattern).unwrap();
        assert_eq!(expect, cond, "{pattern}");
    }
}

#[test]
fn duration_errors() {
    assert_eq!(parse_duration("").unwrap_err().message(), "duration string cannot be empty");
    assert_eq!(parse_duration(" s ").unwrap_err().message(), "invalid duration format: \"s\"");
    assert_eq!(parse_duration("xs").unwrap_err().message(), "invalid number in duration: x");
    assert_eq!(
        parse_duration("10w").unwrap_err().message(),
        "unsupported time unit: \"w\". Supported units: s, m, h, d"
    );
    assert_eq!(parse_duration(" 7m ").unwrap(), 420);
}

#[test]
fn test_matched_create() {
    let facts = ConditionFacts { uncommitted: 0, last_run: None, now: 0 };

    let cond = Condition::Created;
    assert!(cond.matched(CreateResult::Created, facts));
    assert!(!cond.matched(CreateResult::Cloned, facts));
    assert!(!cond.matched(CreateResult::Exists, facts));

    let cond = Condition::Cloned;
    assert!(cond.matched(CreateResult::Cloned, facts));
    assert!(!cond.matched(CreateResult::Created, facts));
    assert!(!cond.matched(CreateResult::Exists, facts));
}

#[test]
fn updated_and_interval_conditions() {
    let clean = ConditionFacts { uncommitted: 0, last_run: None, now: 1000 };
    let dirty = ConditionFacts { uncommitted: 2, last_run: None, now: 1000 };
    assert!(!Condition::Updated.matched(CreateResult::Exists, clean));
    assert!(Condition::Updated.matched(CreateResult::Exists, dirty));

    let cond = Condition::Interval(100);
    assert!(cond.matched(CreateResult::Exists, clean));
    let recent = ConditionFacts { uncommitted: 0, last_run: Some(950), now: 1000 };
    assert!(!cond.matched(CreateResult::Exists, recent));
    let old = ConditionFacts { uncommitted: 0, last_run: Some(900), now: 1000 };
    assert!(cond.matched(CreateResult::Exists, old));
}

#[test]
fn filter_test_parse() {
    let cases: Vec<(&str, Option<Filter>)> = vec![
        ("", None),
        ("*", Some(Filter { remote: Some("*".to_string()), ..Default::default() })),
        ("! github", Some(Filter { remote: Some("github".to_string()), exclude: true, ..Default::default() })),
        (
            "github fioncat",
            Some(Filter {
                remote: Some("github".to_string()),
                owner: Some("fioncat".to_string()),
                ..Default::default()
            }),
        ),
        (
            "github fioncat roxide",
            Some(Filter {
                remote: Some("github".to_string()),
                owner: Some("fioncat".to_string()),
                name: Some("roxide".to_string()),
                ..Default::default()
            }),
        ),
        ("github fioncat roxide extra", None),
        (
            "! github fioncat",
            Some(Filter {
                remote: Some("github".to_string()),
                owner: Some("fioncat".to_string()),
                exclude: true,
                ..Default::default()
            }),
        ),
        (
            "github kubernetes kube-*",
            Some(Filter {
                remote: Some("github".to_string()),
                owner: Some("kubernetes".to_string()),
                name: Some("kube-*".to_string()),
                exclude: false,
            }),
        ),
        (
            "! github * kube*",
            Some(Filter {
                remote: Some("github".to_string()),
                owner: Some("*".to_string()),
                name: Some("kube*".to_string()),
                exclude: true,
            }),
        ),
    ];
    for (pattern, expect) in cases {
        let result = Filter::parse(pattern);
        match expect {
            Some(expect) => {
                let filter = result.expect("parse filter should succeed");
                assert_eq!(filter, expect, "pattern: {}", pattern);
            }
            None => {
                assert!(result.is_err(), "pattern: {}", pattern);
            }
        }
    }
}

#[test]
fn test_matched() {
    let repo = repo("github", "fioncat", "roxide");
    let cases: Vec<(Vec<&str>, bool)> = vec![
        (vec!["github"], true),
        (vec!["github fioncat"], true),
        (vec!["github fioncat roxide"], true),
        (vec!["github", "! github fioncat"], false),
        (vec!["github", "! github fioncat roxide"], false),
        (vec!["github fioncat rox*"], true),
        (vec!["github * roxide"], true),
        (vec!["github kubernetes", "test golang", "test rust"], false),
        (vec!["github kubernetes", "github fioncat"], true),
    ];
    for (patterns, expect) in cases {
        let filters = patterns
            .iter()
            .map(|p| Filter::parse(p).expect("valid filter"))
            .collect::<Vec<_>>();
        let result = matched_filters(&repo, &filters);
        assert_eq!(result, expect, "patterns: {:?}", patterns);
    }
}

#[test]
fn exclusion_decides_per_field() {
    let repo = repo("github", "fioncat", "roxide");
    let f = Filter::parse("github").unwrap();
    assert_eq!(f.matched(&repo), FilterResult::Accept);
    let f = Filter::parse("! github").unwrap();
    assert_eq!(f.matched(&repo), FilterResult::Exclude);
    let f = Filter::parse("gitlab").unwrap();
    assert_eq!(f.matched(&repo), FilterResult::NotMatched);
}

const NOW: u64 = 1_700_000_000;

fn save_and_load(keywords: Keywords, expire: u64, now: u64) -> Keywords {
    let records: Vec<KeywordRecord> = keywords.save();
    Keywords::load(records, expire, now)
}

#[test]
fn test_complete() {
    let mut keywords = Keywords::load(vec![], 3600, NOW);
    let cases = vec![
        ("", "go"),
        ("", "go"),
        ("", "vim"),
        ("", "vim"),
        ("", "vim"),
        ("", "vim"),
        ("", "vim"),
        ("", "vim"),
        ("test", "hello"),
        ("test", "hello"),
        ("", "rox"),
        ("", "rox"),
        ("", "rox"),
        ("test", "rust"),
        ("test", "rust"),
        ("test", "rust"),
    ];
    for (remote, keyword) in cases {
        keywords.upsert(remote, keyword);
    }
    let keywords = save_and_load(keywords, 3600, NOW);

    let expects = vec![("", vec!["vim", "rox"]), ("test", vec!["rust"])];
    for (remote, expect) in expects {
        let completed = keywords.complete(remote);
        let result: Vec<_> = completed.iter().map(|s| s.as_str()).collect();
        assert_eq!(result, expect);
    }
}

#[test]
fn test_expire() {
    let mut keywords = Keywords::load(vec![], 3, NOW);
    keywords.upsert("", "rox");
    keywords.upsert("", "some");

    let keywords = save_and_load(keywords, 3, NOW + 5);
    // All keywords should be expired
    assert!(keywords.complete("").is_empty());
}

#[test]
fn completion_prefers_recent_then_frequent_then_alphabetical() {
    let records = vec![
        KeywordRecord { remote: "".to_string(), keyword: "b".to_string(), last_accessed: 10, accessed: 5 },
        KeywordRecord { remote: "".to_string(), keyword: "a".to_string(), last_accessed: 10, accessed: 5 },
        KeywordRecord { remote: "".to_string(), keyword: "c".to_string(), last_accessed: 20, accessed: 3 },
        KeywordRecord { remote: "".to_string(), keyword: "d".to_string(), last_accessed: 10, accessed: 9 },
        KeywordRecord { remote: "".to_string(), keyword: "e".to_string(), last_accessed: 30, accessed: 2 },
    ];
    let keywords = Keywords::load(records, 100, 50);
    assert_eq!(keywords.complete(""), vec!["c", "d", "a", "b"]);
}

#[test]
fn disabled_keywords_record_nothing() {
    let mut keywords = Keywords::load(vec![], 0, NOW);
    keywords.upsert("", "rox");
    keywords.upsert("", "rox");
    keywords.upsert("", "rox");
    assert!(keywords.complete("").is_empty());
}

fn roxide() -> Repository {
    Repository {
        id: 1,
        remote: "github".to_string(),
        owner: "fioncat".to_string(),
        name: "roxide".to_string(),
        ..Default::default()
    }
}

fn kubernetes() -> Repository {
    Repository {
        id: 2,
        remote: "github".to_string(),
        owner: "kubernetes".to_string(),
        name: "kubernetes".to_string(),
        ..Default::default()
    }
}

fn mirror(id: u64, name: &str, last_visited_at: u64, visited_count: u64) -> Mirror {
    Mirror {
        id,
        repo_id: 1,
        remote: "github".to_string(),
        owner: "fioncat".to_string(),
        name: name.to_string(),
        last_visited_at,
        visited_count,
        new_created: false,
    }
}

/// The recorded mirrors: three of roxide, none of kubernetes.
fn test_mirrors() -> Vec<Mirror> {
    vec![
        mirror(1, "roxide-mirror", 1234, 12),
        mirror(2, "roxide-golang", 3456, 1),
        mirror(3, "roxide-rs", 89, 3),
    ]
}

#[test]
fn test_select_one() {
    struct Case {
        name: Option<String>,
        fuzzy: bool,
        filter: Option<&'static str>,
        expect: Mirror,
    }
    let cases = [
        Case { name: None, fuzzy: true, filter: Some("roxide-mirror"), expect: mirror(1, "roxide-mirror", 1234, 12) },
        Case { name: Some("golang".to_string()), fuzzy: true, filter: None, expect: mirror(2, "roxide-golang", 3456, 1) },
        Case { name: Some("roxide-rs".to_string()), fuzzy: false, filter: None, expect: mirror(3, "roxide-rs", 89, 3) },
    ];
    for case in cases {
        let selector = MirrorSelector::new(roxide(), test_mirrors());
        let mirror = match selector.select_one(case.name.clone(), case.fuzzy) {
            MirrorChoice::Chosen(m) => m,
            MirrorChoice::Ask(offered) => {
                // The user types the filter and picks the line that fzf keeps.
                let filter = case.filter.unwrap();
                let idx = offered.iter().position(|m| m.name == filter).unwrap();
                pick_mirror(&offered, idx).unwrap()
            }
        };
        assert_eq!(mirror, case.expect);
    }
}

#[test]
fn test_create() {
    let repo = kubernetes();
    let selector = MirrorSelector::new(repo.clone(), test_mirrors());
    let MirrorChoice::Chosen(mirror) = selector.select_one(None, false) else {
        panic!("a new mirror is expected");
    };
    assert_eq!(
        mirror,
        Mirror {
            repo_id: repo.id,
            remote: repo.remote.clone(),
            owner: repo.owner.clone(),
            name: format!("{}-mirror", repo.name),
            new_created: true,
            ..Mirror::default()
        }
    );

    let MirrorChoice::Chosen(mirror) = selector.select_one(Some("test".to_string()), false) else {
        panic!("a new mirror is expected");
    };
    assert_eq!(
        mirror,
        Mirror {
            repo_id: repo.id,
            remote: repo.remote.clone(),
            owner: repo.owner.clone(),
            name: "test".to_string(),
            new_created: true,
            ..Mirror::default()
        }
    );
}

#[test]
fn mirror_test_select_many() {
    let mirrors = MirrorSelector::new(roxide(), test_mirrors()).select_many();
    let mut expect = test_mirrors();
    expect.sort_by(|a, b| b.last_visited_at.cmp(&a.last_visited_at));
    assert_eq!(mirrors, expect);

    let mirrors = MirrorSelector::new(kubernetes(), test_mirrors()).select_many();
    assert!(mirrors.is_empty());
}

#[test]
fn test_current_mirror() {
    let mirrors_dir = "/home/user/.local/share/roxide/mirrors";
    let expect_repo = roxide();
    let expect_mirror = mirror(1, "roxide-mirror", 1234, 12);
    let current_dir = expect_mirror.get_path(mirrors_dir);

    let repos = vec![kubernetes(), roxide()];
    let CurrentMirror::Found(repo, mirror) = get_current_mirror(mirrors_dir, &current_dir, &test_mirrors(), &repos) else {
        panic!("the mirror is expected");
    };
    assert_eq!(repo, expect_repo);
    assert_eq!(mirror, expect_mirror);
}

#[test]
fn mirror_of_a_forgotten_repository() {
    let mirrors_dir = "/mirrors";
    let m = mirror(1, "roxide-mirror", 1234, 12);
    let dir = m.get_path(mirrors_dir);
    match get_current_mirror(mirrors_dir, &dir, &test_mirrors(), &vec![kubernetes()]) {
        CurrentMirror::Orphaned(id) => assert_eq!(id, 1),
        other => panic!("unexpected {other:?}"),
    }
    assert!(matches!(
        get_current_mirror(mirrors_dir, "/elsewhere", &test_mirrors(), &vec![roxide()]),
        CurrentMirror::NotFound
    ));
}

#[test]
fn test_matched_interval() {
    let cond = Condition::Interval(100);
    let now = 1_700_000_000;
    let never_ran = ConditionFacts { uncommitted: 0, last_run: None, now };
    assert!(cond.matched(CreateResult::Exists, never_ran));
    assert!(cond.matched(CreateResult::Exists, never_ran));
    let just_ran = ConditionFacts { uncommitted: 0, last_run: Some(now), now };
    assert!(!cond.matched(CreateResult::Exists, just_ran));
}

fn recorded_repos() -> Vec<Repository> {
    vec![
        Repository {
            remote: "github".to_string(),
            owner: "fioncat".to_string(),
            name: "roxide".to_string(),
            sync: true,
            pin: true,
            last_visited_at: 2234,
            visited_count: 20,
            ..Default::default()
        },
        Repository {
            remote: "github".to_string(),
            owner: "fioncat".to_string(),
            name: "nvimdots".to_string(),
            path: Some("/path/to/nvimdots".to_string()),
            sync: true,
            pin: true,
            last_visited_at: 3333,
            visited_count: 0,
            ..Default::default()
        },
    ]
}

#[test]
fn test_current_repo() {
    let repos = recorded_repos();
    let repo = get_current_repo("/home/me/dev", "/path/to/nvimdots", &repos).unwrap();
    assert_eq!(repo, repos[1]);
    assert_eq!(repo.path, Some("/path/to/nvimdots".to_string()));
    assert_eq!(repo.last_visited_at, 3333);
}

#[test]
fn test_current_repo_workspace() {
    let repos = recorded_repos();
    let repo = get_current_repo("/work/space", "/work/space/github/fioncat/roxide/src", &repos).unwrap();
    assert_eq!(repo, repos[0]);
    assert_eq!(repo.path, None);
    assert_eq!(repo.visited_count, 20);
}

#[test]
fn not_in_any_repository() {
    let repos = recorded_repos();
    assert_eq!(get_current_repo_optional("/work/space", "/somewhere/else", &repos), None);
    assert_eq!(get_current_repo_optional("/work/space", "/work/space/github/fioncat/unknown", &repos), None);
    let err = get_current_repo("/work/space", "/somewhere/else", &repos).unwrap_err();
    assert_eq!(err.message(), "you are not in any repository");
}

fn roxide_mirrors() -> Vec<Mirror> {
    vec![
        Mirror {
            id: 1,
            repo_id: 3,
            remote: "github".to_string(),
            owner: "fioncat".to_string(),
            name: "roxide-mirror".to_string(),
            ..Default::default()
        },
        Mirror {
            id: 2,
            repo_id: 3,
            remote: "github".to_string(),
            owner: "fioncat".to_string(),
            name: "roxide-test".to_string(),
            ..Default::default()
        },
    ]
}

#[test]
fn test_remove_mirror() {
    let mirrors = roxide_mirrors();
    assert!(!mirrors[0].new_created);
    let removal = remove_mirror("/data/mirrors", &mirrors[0]);
    assert_eq!(removal.path, "/data/mirrors/github/fioncat/roxide-mirror");
    assert_eq!(removal.id, 1);
    assert_eq!(removal.path, mirrors[0].get_path("/data/mirrors"));
}

#[test]
fn test_clean_mirrors() {
    let mirrors = roxide_mirrors();
    let removals = clean_mirrors("/data/mirrors", &mirrors);
    assert_eq!(removals.len(), 2);
    assert_eq!(removals[0].path, "/data/mirrors/github/fioncat/roxide-mirror");
    assert_eq!(removals[1].path, "/data/mirrors/github/fioncat/roxide-test");
    assert_eq!(removals.iter().map(|r| r.id).collect::<Vec<_>>(), vec![1, 2]);
    assert!(clean_mirrors("/data/mirrors", &Vec::new()).is_empty());
}
