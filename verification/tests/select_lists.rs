use roxide::db::{OwnerState, RemoteState, Repository};
use roxide::repo::select::{select_owners, select_remotes, LimitOptions, OwnerList, RemoteList};

fn repo(remote: &str, owner: &str, name: &str, last_visited_at: u64) -> Repository {
    Repository {
        remote: remote.to_string(),
        owner: owner.to_string(),
        name: name.to_string(),
        last_visited_at,
        ..Default::default()
    }
}

/// The repositories of the test database, latest visited first.
fn test_repos() -> Vec<Repository> {
    vec![
        repo("github", "kubernetes", "kubernetes", 6000),
        repo("github", "fioncat", "roxide", 5000),
        repo("github", "fioncat", "nvimdots", 4000),
        repo("gitlab", "fioncat", "template", 3000),
        repo("github", "fioncat", "dotfiles", 2000),
        repo("gitlab", "fioncat", "someproject", 1000),
    ]
}

#[test]
fn test_select_remotes() {
    struct Case {
        limit: LimitOptions,
        expect: RemoteList,
    }

    let cases = [
        Case {
            limit: LimitOptions::default(),
            expect: RemoteList {
                remotes: vec![
                    RemoteState { remote: "github".to_string(), owner_count: 2, repo_count: 4 },
                    RemoteState { remote: "gitlab".to_string(), owner_count: 1, repo_count: 2 },
                ],
                total: 2,
            },
        },
        Case {
            limit: LimitOptions { limit: 1, offset: 0 },
            expect: RemoteList {
                remotes: vec![RemoteState { remote: "github".to_string(), owner_count: 2, repo_count: 4 }],
                total: 2,
            },
        },
    ];

    let repos = test_repos();
    for case in cases {
        let list = select_remotes(&repos, case.limit);
        assert_eq!(list, case.expect);
    }
}

#[test]
fn test_select_owners() {
    struct Case {
        remote: Option<String>,
        limit: LimitOptions,
        expect: OwnerList,
    }

    let owner = |remote: &str, owner: &str, repo_count: u32| OwnerState {
        remote: remote.to_string(),
        owner: owner.to_string(),
        repo_count,
    };

    let cases = [
        Case {
            remote: None,
            limit: LimitOptions::default(),
            expect: OwnerList {
                show_remote: true,
                owners: vec![
                    owner("github", "kubernetes", 1),
                    owner("github", "fioncat", 3),
                    owner("gitlab", "fioncat", 2),
                ],
                total: 3,
            },
        },
        Case {
            remote: None,
            limit: LimitOptions { offset: 1, limit: 2 },
            expect: OwnerList {
                show_remote: true,
                owners: vec![owner("github", "fioncat", 3), owner("gitlab", "fioncat", 2)],
                total: 3,
            },
        },
        Case {
            remote: Some("github".to_string()),
            limit: LimitOptions::default(),
            expect: OwnerList {
                show_remote: false,
                owners: vec![owner("github", "kubernetes", 1), owner("github", "fioncat", 3)],
                total: 2,
            },
        },
    ];

    let repos = test_repos();
    for case in cases {
        let list = select_owners(&repos, case.remote, case.limit);
        assert_eq!(list, case.expect);
    }
}

#[test]
fn test_select_lists_page_past_end() {
    let repos = test_repos();
    let list = select_remotes(&repos, LimitOptions { offset: 5, limit: 3 });
    assert_eq!(list.remotes, vec![]);
    assert_eq!(list.total, 2);
    let list = select_owners(&repos, Some("gitlab".to_string()), LimitOptions { offset: 0, limit: 5 });
    assert_eq!(list.owners, vec![OwnerState { remote: "gitlab".to_string(), owner: "fioncat".to_string(), repo_count: 2 }]);
    assert_eq!(select_owners(&vec![], None, LimitOptions::default()).total, 0);
}
