use std::collections::HashSet;

use roxide::repo::database::bucket::Repo;
use roxide::repo::database::{Bucket, Database};

fn new_test_repo(remote: &str, owner: &str, name: &str, labels: Option<Vec<&str>>) -> Repo {
    Repo {
        remote: remote.to_string(),
        owner: owner.to_string(),
        name: name.to_string(),
        path: None,
        labels: labels.map(|ls| ls.into_iter().map(|l| l.to_string()).collect()),
        last_accessed: 0,
        accessed: 0,
    }
}

fn get_test_repos() -> Vec<Repo> {
    vec![
        new_test_repo("github", "fioncat", "csync", Some(vec!["sync", "pin"])),
        new_test_repo("github", "fioncat", "fioncat", Some(vec!["sync"])),
        new_test_repo("github", "fioncat", "dotfiles", Some(vec!["sync"])),
        new_test_repo("github", "kubernetes", "kubernetes", Some(vec!["mark", "sync"])),
        new_test_repo("github", "kubernetes", "kube-proxy", None),
        new_test_repo("github", "kubernetes", "kubelet", None),
        new_test_repo("github", "kubernetes", "kubectl", Some(vec!["mark"])),
        new_test_repo("gitlab", "my-owner-01", "my-repo-01", Some(vec!["sync"])),
        new_test_repo("gitlab", "my-owner-01", "my-repo-02", Some(vec!["mark"])),
        new_test_repo("gitlab", "my-owner-01", "my-repo-03", None),
        new_test_repo("gitlab", "my-owner-02", "my-repo-01", None),
    ]
}

fn load() -> Database {
    let mut db = Database::new(Bucket::empty());
    for repo in get_test_repos() {
        db.upsert(&repo);
    }
    db
}

/// A repository with its labels in order, so that two can be compared.
fn normal(mut repo: Repo) -> Repo {
    if let Some(ls) = repo.labels.as_mut() {
        ls.sort();
    }
    repo
}

fn label_names(bucket: &Bucket) -> HashSet<String> {
    bucket.labels.iter().map(|(_, n)| n.clone()).collect()
}

#[test]
fn database_test_get() {
    let db = load();
    assert_eq!(
        normal(db.get("github", "fioncat", "csync").unwrap()),
        normal(new_test_repo("github", "fioncat", "csync", Some(vec!["sync", "pin"])))
    );
    assert_eq!(db.get("github", "fioncat", "ghost"), None);
    assert_eq!(
        normal(db.get("gitlab", "my-owner-01", "my-repo-02").unwrap()),
        normal(new_test_repo("gitlab", "my-owner-01", "my-repo-02", Some(vec!["mark"])))
    );
}

#[test]
fn upsert() {
    let mut db = load();
    db.upsert(&new_test_repo("github", "kubernetes", "kubernetes", None));
    db.upsert(&new_test_repo("github", "kubernetes", "kubectl", None));
    db.upsert(&new_test_repo("gitlab", "my-owner-01", "my-repo-02", None));

    assert!(db.clean_labels);
    let bucket = db.close();
    // The mark label should be removed
    let expect: HashSet<String> = ["sync", "pin"].iter().map(|s| s.to_string()).collect();
    assert_eq!(label_names(&bucket), expect);
}

#[test]
fn remove() {
    let mut db = load();
    db.remove(&new_test_repo("github", "kubernetes", "kubernetes", None));
    db.remove(&new_test_repo("github", "kubernetes", "kubectl", None));
    db.remove(&new_test_repo("gitlab", "my-owner-01", "my-repo-02", None));

    assert_eq!(db.get("github", "kubernetes", "kubernetes"), None);
    assert_eq!(db.get("github", "kubernetes", "kubectl"), None);
    assert_eq!(db.get("gitlab", "my-owner-01", "my-repo-02"), None);
    assert!(db.clean_labels);

    let bucket = db.close();
    // The mark label should be removed
    let expect: HashSet<String> = ["sync", "pin"].iter().map(|s| s.to_string()).collect();
    assert_eq!(label_names(&bucket), expect);
}

#[test]
fn test_bucket_upsert_overwrites() {
    let mut db = load();
    let mut repo = new_test_repo("github", "fioncat", "csync", Some(vec!["pin", "new"]));
    repo.path = Some("/src/csync".to_string());
    repo.last_accessed = 77;
    repo.accessed = 9;
    db.upsert(&repo);
    assert_eq!(normal(db.get("github", "fioncat", "csync").unwrap()), normal(repo));
    // Other repositories are untouched.
    assert_eq!(
        normal(db.get("github", "fioncat", "fioncat").unwrap()),
        normal(new_test_repo("github", "fioncat", "fioncat", Some(vec!["sync"])))
    );
    assert_eq!(db.bucket.label_index, 4);
}

#[test]
fn test_bucket_remove_drops_empty_owner() {
    // Loading marks labels for cleaning; start again from what it stored.
    let mut db = Database::new(load().close());
    db.remove(&new_test_repo("gitlab", "my-owner-02", "my-repo-01", None));
    assert_eq!(db.list_owners("gitlab"), vec!["my-owner-01".to_string()]);
    assert!(!db.clean_labels);
    let bucket = db.close();
    assert_eq!(bucket.labels.len(), 3);
}

#[test]
fn test_bucket_list_owners_sorted() {
    let db = load();
    assert_eq!(db.list_owners("github"), vec!["fioncat".to_string(), "kubernetes".to_string()]);
    assert_eq!(db.list_owners("nowhere"), Vec::<String>::new());
}

#[test]
fn test_bucket_filter_labels() {
    let db = load();
    let entry = |r: &str, o: &str, n: &str| {
        let rb = &db.bucket.data.iter().find(|(k, _)| k == r).unwrap().1;
        let ob = &rb.0.iter().find(|(k, _)| k == o).unwrap().1;
        ob.0.iter().find(|(k, _)| k == n).unwrap().1.clone()
    };
    let pin = Some(vec!["pin".to_string()]);
    assert!(db.filter_labels(&entry("github", "fioncat", "csync"), &pin));
    assert!(!db.filter_labels(&entry("github", "fioncat", "dotfiles"), &pin));
    assert!(!db.filter_labels(&entry("github", "kubernetes", "kubelet"), &pin));
    assert!(db.filter_labels(&entry("github", "kubernetes", "kubelet"), &None));
    assert!(db.filter_labels(&entry("github", "kubernetes", "kubelet"), &Some(vec![])));
}
