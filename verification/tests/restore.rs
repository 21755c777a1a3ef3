use roxide::db::{Mirror, Repository};
use roxide::repo::backup::BackupData;
use roxide::repo::restore::{home_path_of, tilde_path_of, RepoRef, RestoreData, RestoreStep};

fn repo(id: u64, name: &str) -> Repository {
    Repository {
        id,
        remote: "github".to_string(),
        owner: "fioncat".to_string(),
        name: name.to_string(),
        ..Default::default()
    }
}

fn mirror(id: u64, repo_id: u64, name: &str, last_visited_at: u64) -> Mirror {
    Mirror {
        id,
        repo_id,
        remote: "github".to_string(),
        owner: "fioncat".to_string(),
        name: name.to_string(),
        last_visited_at,
        ..Default::default()
    }
}

fn restore_repos() -> Vec<Repository> {
    vec![
        Repository { sync: true, last_visited_at: 100000, visited_count: 222, ..repo(1, "ai-examples") },
        Repository {
            sync: true,
            pin: true,
            path: Some("~/ai/dev".to_string()),
            last_visited_at: 99999,
            visited_count: 111,
            ..repo(2, "ai-dev")
        },
        repo(3, "roxide"),
    ]
}

fn restore_mirrors() -> Vec<Mirror> {
    vec![
        Mirror { visited_count: 12, ..mirror(1, 2, "ai-dev-mirror", 3333) },
        Mirror { visited_count: 13, ..mirror(2, 2, "ai-dev-test", 5555) },
        Mirror { visited_count: 20, ..mirror(3, 3, "roxide-mirror-test", 7777) },
        Mirror { visited_count: 25, ..mirror(4, 3, "roxide-mirror", 8888) },
    ]
}

fn recorded_repos() -> Vec<Repository> {
    vec![repo(1, "roxide"), repo(2, "nvimdots")]
}

fn recorded_mirrors() -> Vec<Mirror> {
    vec![mirror(1, 1, "roxide-mirror", 10)]
}

#[test]
fn test_restore() {
    let home = "/home/test";
    let data = RestoreData { repos: restore_repos(), mirrors: restore_mirrors() };

    let result = data.clone().dry_run(home, &recorded_repos(), &recorded_mirrors());
    let mut ai_dev = restore_repos()[1].clone();
    ai_dev.path = Some("/home/test/ai/dev".to_string());
    let expect_result = RestoreData {
        repos: vec![restore_repos()[0].clone(), ai_dev.clone()],
        mirrors: vec![restore_mirrors()[0].clone(), restore_mirrors()[1].clone(), restore_mirrors()[2].clone()],
    };
    assert_eq!(result, expect_result);

    let steps = data.restore(home, &recorded_repos(), &recorded_mirrors());
    assert_eq!(steps.len(), 5);
    match &steps[0] {
        RestoreStep::InsertRepo(r) => assert_eq!(r, &restore_repos()[0]),
        other => panic!("unexpected step {other:?}"),
    }
    match &steps[1] {
        RestoreStep::InsertRepo(r) => assert_eq!(r, &ai_dev),
        other => panic!("unexpected step {other:?}"),
    }
    match &steps[2] {
        RestoreStep::InsertMirror(m, to) => {
            assert_eq!(m, &restore_mirrors()[0]);
            assert_eq!(*to, RepoRef::Inserted(1));
        },
        other => panic!("unexpected step {other:?}"),
    }
    match &steps[3] {
        RestoreStep::InsertMirror(m, to) => {
            assert_eq!(m, &restore_mirrors()[1]);
            assert_eq!(*to, RepoRef::Inserted(1));
        },
        other => panic!("unexpected step {other:?}"),
    }
    // The repository is recorded already: its mirror goes to the recorded one,
    // and the mirror that is recorded too is left alone.
    match &steps[4] {
        RestoreStep::InsertMirror(m, to) => {
            assert_eq!(m, &restore_mirrors()[2]);
            assert_eq!(*to, RepoRef::Recorded(1));
        },
        other => panic!("unexpected step {other:?}"),
    }
}

#[test]
fn restoring_twice_adds_once() {
    let repos = vec![repo(5, "twice"), repo(6, "twice")];
    let mirrors = vec![mirror(1, 5, "m", 1), mirror(2, 6, "n", 1), mirror(3, 5, "m", 2)];
    let data = RestoreData { repos, mirrors };
    let steps = data.restore("/home", &Vec::new(), &Vec::new());
    assert_eq!(steps.len(), 3);
    assert!(matches!(&steps[0], RestoreStep::InsertRepo(r) if r.name == "twice"));
    assert!(matches!(&steps[1], RestoreStep::InsertMirror(m, RepoRef::Inserted(0)) if m.name == "m"));
    assert!(matches!(&steps[2], RestoreStep::InsertMirror(m, RepoRef::Inserted(0)) if m.name == "n"));
}

#[test]
fn load_keeps_home_paths_short() {
    let mut inside = repo(1, "inside");
    inside.path = Some("/home/test/src/inside".to_string());
    let mut outside = repo(2, "outside");
    outside.path = Some("/opt/outside".to_string());
    let recorded = vec![mirror(7, 1, "inside-mirror", 5), mirror(8, 1, "inside-old", 9), mirror(9, 3, "other", 1)];
    let data = RestoreData::load("/home/test", vec![inside, outside, repo(3, "plain")], &recorded);
    assert_eq!(data.repos[0].path, Some("~/src/inside".to_string()));
    assert_eq!(data.repos[1].path, Some("/opt/outside".to_string()));
    assert_eq!(data.repos[2].path, None);
    let names: Vec<&str> = data.mirrors.iter().map(|m| m.name.as_str()).collect();
    assert_eq!(names, vec!["inside-old", "inside-mirror", "other"]);

    let backup = BackupData::load(vec![repo(3, "plain")], &recorded);
    assert_eq!(backup.repos.len(), 1);
    assert_eq!(backup.mirrors, vec![mirror(9, 3, "other", 1)]);
}

#[test]
fn home_paths_round_trip() {
    let home = "/home/test";
    for p in ["/home/test/a", "/home/test/a/b/c", "/home/test/.config"] {
        let kept = tilde_path_of(home, p);
        assert!(kept.starts_with("~/"));
        assert_eq!(home_path_of(home, &kept), p);
    }
    assert_eq!(tilde_path_of(home, "/home/tester/a"), "/home/tester/a");
    assert_eq!(home_path_of(home, "~"), "/home/test/");
    assert_eq!(home_path_of("/home/test/", "~/x"), "/home/test/x");
    assert_eq!(home_path_of(home, "~user/x"), "~user/x");
}
