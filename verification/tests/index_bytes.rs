use roxide::error::Error;
use roxide::repo::bytes::{frame, unframe, Bytes, Repo, RepoBytes, INDEX_VERSION};

fn repo(remote: &str, owner: &str, name: &str, labels: Option<Vec<&str>>) -> Repo {
    Repo {
        remote: remote.to_string(),
        owner: owner.to_string(),
        name: name.to_string(),
        path: None,
        last_accessed: 100,
        accessed: 2.5f64.to_bits(),
        labels: labels.map(|ls| ls.into_iter().map(|l| l.to_string()).collect()),
    }
}

fn list_repos() -> Vec<Repo> {
    let mut with_path = repo("github", "fioncat", "dotfiles", None);
    with_path.path = Some("/home/user/dotfiles".to_string());
    with_path.last_accessed = 7;
    with_path.accessed = 0.5f64.to_bits();
    vec![
        repo("github", "fioncat", "roxide", Some(vec!["rust", "cli"])),
        repo("github", "fioncat", "nvimdots", Some(vec!["lua"])),
        repo("github", "kubernetes", "kubernetes", Some(vec!["go", "cli"])),
        repo("gitlab", "group/subgroup", "someproject", None),
        with_path,
        repo("gitlab", "fioncat", "template", Some(vec![])),
    ]
}

#[test]
fn test_repo_bytes() {
    let expect_repos = list_repos();

    let bytes = Bytes::from_repos(&list_repos());
    let results = bytes.into_repos();

    assert_eq!(results, expect_repos);
}

#[test]
fn test_index_names_kept_once() {
    let bytes = Bytes::from_repos(&list_repos());
    assert_eq!(bytes.remotes, vec!["github".to_string(), "gitlab".to_string()]);
    assert_eq!(
        bytes.owners,
        vec!["fioncat".to_string(), "kubernetes".to_string(), "group/subgroup".to_string()]
    );
    assert_eq!(
        bytes.labels,
        Some(vec!["rust".to_string(), "cli".to_string(), "lua".to_string(), "go".to_string()])
    );
    assert_eq!(bytes.repos.len(), 6);
    assert_eq!(bytes.repos[2].remote, 0);
    assert_eq!(bytes.repos[2].owner, 1);
    assert_eq!(bytes.repos[2].labels, Some(vec![3, 1]));
    assert_eq!(bytes.repos[3].remote, 1);
    assert_eq!(bytes.repos[3].owner, 2);
    assert_eq!(bytes.repos[3].labels, None);
    assert_eq!(bytes.repos[5].labels, Some(vec![]));
    assert_eq!(bytes.repos[4].path, Some("/home/user/dotfiles".to_string()));
}

#[test]
fn test_index_without_labels() {
    let repos = vec![repo("github", "a", "b", None), repo("github", "a", "c", Some(vec![]))];
    let bytes = Bytes::from_repos(&repos);
    assert_eq!(bytes.labels, None);
    let back = bytes.into_repos();
    assert_eq!(back[0].labels, None);
    // An empty label list comes back as none when no repository has a label.
    assert_eq!(back[1].labels, None);
}

#[test]
fn test_index_skips_bad_positions() {
    let item = |remote: u32, owner: u32, labels: Option<Vec<u32>>| RepoBytes {
        remote,
        owner,
        name: "n".to_string(),
        path: None,
        last_accessed: 1,
        accessed: 0,
        labels,
    };
    let bytes = Bytes {
        remotes: vec!["github".to_string()],
        owners: vec!["o".to_string()],
        repos: vec![item(0, 0, Some(vec![1, 0, 5, 1])), item(1, 0, None), item(0, 3, None)],
        labels: Some(vec!["x".to_string(), "y".to_string()]),
    };
    let repos = bytes.into_repos();
    assert_eq!(repos.len(), 1);
    assert_eq!(repos[0].remote, "github");
    assert_eq!(repos[0].labels, Some(vec!["y".to_string(), "x".to_string()]));
}

#[test]
fn test_index_empty() {
    let bytes = Bytes::empty();
    assert!(bytes.into_repos().is_empty());
    assert_eq!(bytes.remotes.len(), 0);
    assert_eq!(bytes.labels, None);
}

#[test]
fn test_index_frame() {
    let body = vec![9u8, 8, 7];
    let data = frame(&body);
    assert_eq!(data, vec![INDEX_VERSION as u8, 0, 0, 0, 9, 8, 7]);
    assert_eq!(unframe(&data), Ok(body));
    assert_eq!(unframe(&vec![1, 0, 0, 0]), Ok(vec![]));
}

#[test]
fn test_index_frame_errors() {
    assert_eq!(unframe(&vec![1, 0, 0]), Err(Error::CorruptedIndex));
    assert_eq!(unframe(&vec![]), Err(Error::CorruptedIndex));
    assert_eq!(
        unframe(&vec![2, 1, 0, 0, 5]),
        Err(Error::UnsupportedIndexVersion(258))
    );
    assert_eq!(Error::CorruptedIndex.message(), "corrupted data");
    assert_eq!(Error::UnsupportedIndexVersion(258).message(), "unsupported version 258");
}
