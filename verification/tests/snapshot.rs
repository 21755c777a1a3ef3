use roxide::repo::database::bucket::{Repo, BUCKET_VERSION};
use roxide::repo::database::{Bucket, Database};
use roxide::repo::snapshot::Snapshot;

fn repo(remote: &str, owner: &str, name: &str) -> Repo {
    Repo {
        remote: remote.to_string(),
        owner: owner.to_string(),
        name: name.to_string(),
        path: None,
        labels: None,
        last_accessed: 0,
        accessed: 0,
    }
}

fn database() -> Database {
    let mut db = Database::new(Bucket::empty());
    for (r, o, n) in [
        ("github", "fioncat", "roxide"),
        ("github", "fioncat", "dotfiles"),
        ("github", "kubernetes", "kubectl"),
        ("gitlab", "group", "app"),
    ] {
        db.upsert(&repo(r, o, n));
    }
    db
}

#[test]
fn snapshot_takes_buckets_and_path() {
    let db = database();
    let data = db.bucket.data.clone();
    let snap = Snapshot::take("/home/u/.local/share/roxide", 1700000000, db, "before".to_string());
    assert_eq!(snap.name, "before");
    assert_eq!(snap.create_time, 1700000000);
    assert_eq!(snap.version, BUCKET_VERSION);
    assert_eq!(snap.path, "/home/u/.local/share/roxide/snapshot/before.json");
    assert_eq!(snap.bucket.data, data);

    let snap2 = Snapshot::take("meta/", 1, Database::new(Bucket::empty()), "x".to_string());
    assert_eq!(snap2.path, "meta/snapshot/x.json");
}

#[test]
fn snapshot_display_counts() {
    let snap = Snapshot::take("/m", 5, database(), "s1".to_string());
    let lines = snap.display("2023-11-14 22:13:20");
    assert_eq!(
        lines,
        vec![
            "Snapshot 's1'",
            "Create Time:  2023-11-14 22:13:20",
            "Version:      3",
            "Remote Count: 2",
            "Owner Count:  3",
            "Repo Count:   4",
        ]
    );
}

#[test]
fn snapshot_restore_puts_buckets_back() {
    let snap = Snapshot::take("/m", 5, database(), "s1".to_string());
    let data = snap.bucket.data.clone();
    let db = snap.restore(Database::new(Bucket::empty()));
    assert_eq!(db.bucket.data, data);
    assert_eq!(db.get("github", "fioncat", "roxide").unwrap().name, "roxide");
}
