use roxide::db::{NameLevel, Repository};
use roxide::error::Error;
use roxide::repo::database::bucket::Repo;
use roxide::repo::database::{Bucket, Database};
use roxide::repo::tmp_mark::TmpMark;

fn repository(remote: &str, owner: &str, name: &str) -> Repository {
    Repository {
        remote: remote.to_string(),
        owner: owner.to_string(),
        name: name.to_string(),
        ..Default::default()
    }
}

fn db_repo(remote: &str, owner: &str, name: &str) -> Repo {
    Repo {
        remote: remote.to_string(),
        owner: owner.to_string(),
        name: name.to_string(),
        path: None,
        labels: None,
        last_accessed: 0,
        accessed: 0,
    }
}

fn database() -> Database {
    let mut db = Database::new(Bucket::empty());
    for (r, o, n) in [
        ("github", "fioncat", "roxide"),
        ("github", "fioncat", "dotfiles"),
        ("github", "kubernetes", "kubectl"),
        ("gitlab", "group", "app"),
    ] {
        db.upsert(&db_repo(r, o, n));
    }
    db
}

fn marks(m: &TmpMark) -> Vec<(String, Vec<String>)> {
    m.data.clone()
}

fn entry(remote: &str, names: &[&str]) -> (String, Vec<String>) {
    (remote.to_string(), names.iter().map(|s| s.to_string()).collect())
}

fn marked() -> TmpMark {
    let mut m = TmpMark::new();
    m.mark(&repository("gitlab", "group", "app"));
    m.mark(&repository("github", "kubernetes", "kubectl"));
    m.mark(&repository("github", "fioncat", "roxide"));
    m.mark(&repository("github", "fioncat", "gone"));
    m.mark(&repository("github", "fioncat", "roxide"));
    m.mark(&repository("github", "fioncat", "dotfiles"));
    m
}

fn names(repos: &[Repo]) -> Vec<String> {
    repos.iter().map(|r| format!("{}:{}/{}", r.remote, r.owner, r.name)).collect()
}

#[test]
fn marks_are_kept_in_order_once() {
    let m = marked();
    assert_eq!(
        marks(&m),
        vec![
            entry("github", &["fioncat/dotfiles", "fioncat/gone", "fioncat/roxide", "kubernetes/kubectl"]),
            entry("gitlab", &["group/app"]),
        ]
    );
}

#[test]
fn query_must_name_an_owner() {
    let mut m = marked();
    let db = database();
    let before = marks(&m);
    match m.query_remove(&db, &Some("github".to_string()), &Some("fioncat".to_string())) {
        Err(Error::TmpQueryNotOwner) => {}
        other => panic!("unexpected {:?}", other.map(|(r, _)| r.len())),
    }
    assert_eq!(marks(&m), before);
    assert_eq!(Error::TmpQueryNotOwner.message(), "Tmp query must be owner (ends with /)");
}

#[test]
fn query_owner_takes_its_marks() {
    let mut m = marked();
    let db = database();
    let (repos, level) = m
        .query_remove(&db, &Some("github".to_string()), &Some("fioncat/".to_string()))
        .unwrap();
    assert_eq!(names(&repos), vec!["github:fioncat/dotfiles", "github:fioncat/roxide"]);
    assert_eq!(level, NameLevel::Name);
    assert_eq!(
        marks(&m),
        vec![entry("github", &["kubernetes/kubectl"]), entry("gitlab", &["group/app"])]
    );
}

#[test]
fn query_remote_takes_all_its_marks() {
    let mut m = marked();
    let db = database();
    let (repos, level) = m.query_remove(&db, &Some("github".to_string()), &None).unwrap();
    assert_eq!(
        names(&repos),
        vec!["github:fioncat/dotfiles", "github:fioncat/roxide", "github:kubernetes/kubectl"]
    );
    assert_eq!(level, NameLevel::Owner);
    assert_eq!(marks(&m), vec![entry("gitlab", &["group/app"])]);
}

#[test]
fn query_nothing_takes_every_mark() {
    let mut m = marked();
    let db = database();
    let (repos, level) = m.query_remove(&db, &None, &None).unwrap();
    assert_eq!(repos.len(), 4);
    assert_eq!(level, NameLevel::Full);
    assert!(marks(&m).is_empty());
}

#[test]
fn stored_data_version_checked() {
    let stored = Bucket::with_version(&[7u8, 8, 9]);
    assert_eq!(stored, vec![3u8, 0, 0, 0, 7, 8, 9]);
    assert_eq!(Bucket::version_body(&stored), Ok(4));
    assert_eq!(&stored[4..], &[7u8, 8, 9]);
    assert_eq!(Bucket::version_body(&[3u8, 0, 0]), Err(Error::CorruptedData));
    assert_eq!(Bucket::version_body(&[2u8, 1, 0, 0, 5]), Err(Error::UnsupportedVersion(258)));
    assert_eq!(Error::UnsupportedVersion(258).message(), "unsupported version 258");
    assert_eq!(Error::CorruptedData.message(), "corrupted data");
}
