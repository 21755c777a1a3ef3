use roxide::error::Error;
use roxide::repo::select::{
    merge_sorted, select_type, ssh_target, url_target, HeadChoice, RemoteConfig, RepoSelector,
    SelectOneType, UrlParts,
};

fn remotes() -> Vec<RemoteConfig> {
    vec![
        RemoteConfig { name: "local".to_string(), clone: None },
        RemoteConfig { name: "github".to_string(), clone: Some("github.com".to_string()) },
        RemoteConfig { name: "gitlab".to_string(), clone: Some("git.mydomain.com".to_string()) },
        RemoteConfig { name: "mirror".to_string(), clone: Some("github.com".to_string()) },
    ]
}

fn pick(head: &str, remote_mode: bool) -> Result<HeadChoice, Error> {
    let selector = RepoSelector::from_args(&vec![head.to_string()]);
    selector.choose_from_head(&remotes(), remote_mode)
}

fn repo(remote: &str, owner: &str, name: &str) -> Result<HeadChoice, Error> {
    Ok(HeadChoice::Repo(remote.to_string(), owner.to_string(), name.to_string()))
}

fn strings(v: &[&str]) -> Vec<String> {
    v.iter().map(|s| s.to_string()).collect()
}

#[test]
fn test_choose_from_url() {
    assert_eq!(pick("https://github.com/fioncat/roxide", false), repo("github", "fioncat", "roxide"));
    assert_eq!(
        pick("https://github.com/fioncat/roxide.git", false),
        repo("github", "fioncat", "roxide")
    );
    assert_eq!(
        pick("https://github.com/fioncat/nvimdots/tree/custom/lua/modules", false),
        repo("github", "fioncat", "nvimdots")
    );
    assert_eq!(
        pick("https://git.mydomain.com/fioncat/someproject/-/tree/master/deploy", false),
        repo("gitlab", "fioncat", "someproject")
    );
    assert_eq!(
        pick("https://git.mydomain.com/fioncat/template", false),
        repo("gitlab", "fioncat", "template")
    );
    assert_eq!(
        pick("https://git.mydomain.com/group/subgroup/someproject/-/tree/main/src", true),
        repo("gitlab", "group/subgroup", "someproject")
    );
}

#[test]
fn test_choose_from_url_errors() {
    assert!(matches!(pick("https://github.com/fioncat", false), Err(Error::UrlNotInRepo(_))));
    assert!(matches!(pick("https://github.com", false), Err(Error::UrlNotInRepo(_))));
    assert_eq!(
        pick("https://hello.com", false),
        Err(Error::NoRemoteForDomain("hello.com".to_string()))
    );
    assert!(matches!(pick("mailto:someone@example.com", false), Err(Error::NoUrlDomain(_))));
    assert!(matches!(pick("https://[::1]/a/b", false), Err(Error::NoUrlDomain(_))));
    assert_eq!(
        Error::NoRemoteForDomain("hello.com".to_string()).message(),
        "no matching remote found for domain: \"hello.com\""
    );
}

#[test]
fn test_choose_from_ssh() {
    assert_eq!(pick("git@github.com:fioncat/nvimdots.git", false), repo("github", "fioncat", "nvimdots"));
    assert_eq!(
        pick("git@git.mydomain.com:fioncat/someproject.git", true),
        repo("gitlab", "fioncat", "someproject")
    );
    assert_eq!(
        ssh_target("git@git.mydomain.com:a/b/c.git", &remotes()),
        Ok(("gitlab".to_string(), "a/b".to_string(), "c".to_string()))
    );
    assert_eq!(
        ssh_target("git@bad host:a/b.git", &remotes()),
        Err(Error::InvalidSsh("https://bad host/a/b".to_string(), "git@bad host:a/b.git".to_string()))
    );
}

#[test]
fn test_choose_from_word() {
    assert_eq!(pick("-", false), Ok(HeadChoice::Latest));
    assert_eq!(pick("-", true), Err(Error::LatestFromRemote));
    assert_eq!(pick("github", false), Ok(HeadChoice::Remote));
    assert_eq!(pick("roxide", false), Ok(HeadChoice::Fuzzy));
    assert_eq!(pick("roxide.git", false), Ok(HeadChoice::Fuzzy));
    assert_eq!(pick("roxide", true), Err(Error::HeadNotUrl));
    assert_eq!(
        pick("http://bad host/x.git", false),
        Err(Error::InvalidCloneUrl("http://bad host/x".to_string()))
    );
    assert_eq!(
        Error::InvalidCloneUrl("http://bad host/x".to_string()).message(),
        "parse clone url 'http://bad host/x'"
    );
}

#[test]
fn test_select_type() {
    assert_eq!(select_type("git@github.com:a/b.git"), Ok(SelectOneType::Ssh));
    assert_eq!(select_type("word"), Ok(SelectOneType::Direct));
    match select_type("https://github.com/a/b.git") {
        Ok(SelectOneType::Url(p)) => {
            assert_eq!(p.domain, Some("github.com".to_string()));
            assert_eq!(p.segments, Some(strings(&["a", "b"])));
        }
        other => panic!("unexpected {:?}", other),
    }
}

#[test]
fn test_url_target_first_remote() {
    let url = UrlParts {
        domain: Some("github.com".to_string()),
        segments: Some(strings(&["o", "n", "x"])),
        debug: "u".to_string(),
    };
    assert_eq!(
        url_target(&url, &remotes()),
        Ok(("github".to_string(), "o".to_string(), "n".to_string()))
    );
    let url = UrlParts { domain: Some("github.com".to_string()), segments: None, debug: "u".to_string() };
    assert_eq!(url_target(&url, &remotes()), Err(Error::EmptyUrlPath("u".to_string())));
    assert_eq!(Error::EmptyUrlPath("u".to_string()).message(), "invalid url u, path cannot be empty");
    let url = UrlParts { domain: None, segments: None, debug: "u".to_string() };
    assert_eq!(url_target(&url, &remotes()), Err(Error::NoUrlDomain("u".to_string())));
}

#[test]
fn test_merge_sorted() {
    let sorted = strings(&["c", "a", "x"]);
    let unsorted = strings(&["a", "b", "c", "d"]);
    assert_eq!(merge_sorted(&sorted, &unsorted), strings(&["c", "a", "b", "d"]));
    assert_eq!(merge_sorted(&vec![], &unsorted), unsorted);
}

#[test]
fn test_remote_and_owner_candidates() {
    let selector = RepoSelector::from_args(&strings(&["github", "fioncat"]));
    let remote = strings(&["a", "b", "c"]);
    assert_eq!(selector.remote_candidates(&remote, &strings(&["b"])), Ok(strings(&["a", "c"])));
    assert_eq!(
        selector.remote_candidates(&remote, &remote),
        Err(Error::AllReposLocal("fioncat".to_string()))
    );
    assert_eq!(selector.remote_candidates(&vec![], &remote), Err(Error::NoRemoteRepo("fioncat".to_string())));
    assert_eq!(
        selector.owner_candidates(&remote, &strings(&["c", "z"])),
        Ok(strings(&["c", "a", "b"]))
    );
    assert_eq!(selector.owner_candidates(&vec![], &remote), Err(Error::NoNewRepo("fioncat".to_string())));
    assert_eq!(
        Error::AllReposLocal("fioncat".to_string()).message(),
        "all repos in \"fioncat\" exist locally, no new repo to select"
    );
}
