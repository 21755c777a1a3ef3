use roxide::db::{Mirror, OwnerState, RemoteState, Repository};
use roxide::repo::scan_orphans::{DirDecision, OrphanScanner};

fn remotes() -> Vec<RemoteState> {
    ["github", "gitlab"]
        .iter()
        .map(|r| RemoteState { remote: r.to_string(), ..Default::default() })
        .collect()
}

fn owners() -> Vec<OwnerState> {
    [("github", "fioncat"), ("github", "kubernetes"), ("gitlab", "fioncat")]
        .iter()
        .map(|(r, o)| OwnerState { remote: r.to_string(), owner: o.to_string(), repo_count: 1 })
        .collect()
}

fn repos() -> Vec<Repository> {
    ["roxide", "nvimdots"]
        .iter()
        .map(|n| Repository {
            remote: "github".to_string(),
            owner: "fioncat".to_string(),
            name: n.to_string(),
            ..Default::default()
        })
        .collect()
}

fn mirrors() -> Vec<Mirror> {
    vec![Mirror {
        remote: "github".to_string(),
        owner: "fioncat".to_string(),
        name: "roxide-mirror".to_string(),
        ..Default::default()
    }]
}

/// The orphans that a walk of `root` finds: each directory whose ancestors
/// below the root are all walked into is decided on; files there are orphans.
fn walk(scanner: &OrphanScanner, root: &str, dirs: &[&str], files: &[&str]) -> Vec<String> {
    let reached = |rel: &str| -> bool {
        let parts: Vec<&str> = rel.split('/').collect();
        (1..parts.len()).all(|n| scanner.should_skip(&format!("{root}/{}", parts[..n].join("/"))) == DirDecision::Descend)
    };
    let mut orphans = Vec::new();
    for dir in dirs {
        if reached(dir) && scanner.should_skip(&format!("{root}/{dir}")) == DirDecision::Orphan {
            orphans.push(dir.to_string());
        }
    }
    for file in files {
        if reached(file) {
            orphans.push(file.to_string());
        }
    }
    orphans.sort_unstable();
    orphans
}

#[test]
fn test_scan_orphans() {
    let workspace = "/data/workspace";
    let mirrors_dir = "/data/workspace/mirrors";
    let dirs = [
        "github",
        "github/fioncat",
        "github/fioncat/roxide",
        "github/fioncat/nvimdots",
        "github/fioncat/unknown",
        "github/unknown",
        "github/kubernetes",
        "github/unknown/unknown",
        "unknown",
        "gitlab",
        "mirrors",
        "mirrors/github",
        "mirrors/github/fioncat",
        "mirrors/github/fioncat/roxide-mirror",
        "mirrors/github/fioncat/roxide-nonexistent",
        "mirrors/github/unknown",
        "mirrors/github/unknown/unknown",
        "mirrors/test",
        "mirrors/unknown",
    ];
    let files = [
        "github/test.txt",
        "github/fioncat/roxide/test.txt",
        "github/fioncat/unknown/test.txt",
        "test.txt",
        "mirrors/test.txt",
    ];

    let scanner = OrphanScanner::workspace(workspace, mirrors_dir, &remotes(), &owners(), &repos());
    assert_eq!(
        walk(&scanner, workspace, &dirs, &files),
        vec!["github/fioncat/unknown", "github/test.txt", "github/unknown", "test.txt", "unknown"]
    );

    let mirror_dirs: Vec<&str> = dirs.iter().filter_map(|d| d.strip_prefix("mirrors/")).collect();
    let mirror_files: Vec<&str> = files.iter().filter_map(|f| f.strip_prefix("mirrors/")).collect();
    let scanner = OrphanScanner::mirrors(mirrors_dir, &remotes(), &owners(), &mirrors());
    assert_eq!(
        walk(&scanner, mirrors_dir, &mirror_dirs, &mirror_files),
        vec!["github/fioncat/roxide-nonexistent", "github/unknown", "test", "test.txt", "unknown"]
    );
}

#[test]
fn decisions_by_level() {
    let scanner = OrphanScanner::workspace("/ws", "/ws/mirrors", &remotes(), &owners(), &repos());
    assert_eq!(scanner.should_skip("/ws"), DirDecision::Skip);
    assert_eq!(scanner.should_skip("/ws/mirrors"), DirDecision::Skip);
    assert_eq!(scanner.should_skip("/elsewhere/github"), DirDecision::Skip);
    assert_eq!(scanner.should_skip("/ws/github"), DirDecision::Descend);
    assert_eq!(scanner.should_skip("/ws/github/fioncat/"), DirDecision::Descend);
    assert_eq!(scanner.should_skip("/ws/github/fioncat/roxide"), DirDecision::Skip);
    assert_eq!(scanner.should_skip("/ws/github/fioncat/roxide/src"), DirDecision::Skip);
    assert_eq!(scanner.should_skip("/ws/bitbucket"), DirDecision::Orphan);
}
