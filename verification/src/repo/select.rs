//! Choosing repositories from what the user typed, and the lists shown.
use vstd::prelude::*;

use crate::db::{OwnerState, RemoteState, Repository};
use crate::repo::query::{owner_and_name, parse_owner};
use crate::error::Error;
use crate::text::{
    concat, ends_with, ends_with_str, eq_str, join, join_strs, opt_str, opt_strs, owned,
    replace_first, replace_first_str, starts_with, starts_with_str, strs, trim_end_matches,
    trim_end_matches_str,
};

verus! {

/// The words that pick repositories: a head (remote, keyword, URL or `-`),
/// an owner and a name, each possibly missing.
#[derive(Debug, Clone, Default, PartialEq, Eq)]
pub struct SelectRepoArgs {
    pub head: Option<String>,
    pub owner: Option<String>,
    pub name: Option<String>,
}

/// The head, owner and name of a selection, a missing one read as empty.
#[derive(Debug, Clone, Default, PartialEq, Eq)]
pub struct RepoSelector {
    pub head: String,
    pub owner: String,
    pub name: String,
}

/// A page of a list: how many to skip, and how many to show.
#[derive(Debug, Clone, Copy, Default, PartialEq, Eq)]
pub struct LimitOptions {
    pub offset: u32,
    pub limit: u32,
}

/// Filters of a selection of many repositories.
#[derive(Debug, Clone, Copy, Default, PartialEq, Eq)]
pub struct SelectManyReposOptions {
    pub sync: Option<bool>,
    pub pin: Option<bool>,
    pub limit: Option<LimitOptions>,
}

/// How much of a repository's full name a list shows.
#[derive(Debug, Clone, Copy, PartialEq, Eq, Structural)]
pub enum DisplayLevel {
    /// `remote:owner/name`.
    Remote,
    /// `owner/name`.
    Owner,
    /// `name`.
    Name,
}

/// Repositories chosen, with how many there are in all.
#[derive(Debug, Clone, PartialEq, Eq)]
pub struct RepoList {
    pub items: Vec<Repository>,
    pub total: u32,
    pub level: DisplayLevel,
}

/// Remotes with their counts, with how many there are in all.
#[derive(Debug, Clone, PartialEq, Eq)]
pub struct RemoteList {
    pub remotes: Vec<RemoteState>,
    pub total: u32,
}

/// Owners with their counts, with how many there are in all.
#[derive(Debug, Clone, PartialEq, Eq)]
pub struct OwnerList {
    pub show_remote: bool,
    pub owners: Vec<OwnerState>,
    pub total: u32,
}

/// The name a list shows for a repository at a level.
pub open spec fn display_name(r: Repository, level: DisplayLevel) -> Seq<char> {
    match level {
        DisplayLevel::Remote => r.remote@ + ":"@ + r.owner@ + "/"@ + r.name@,
        DisplayLevel::Owner => r.owner@ + "/"@ + r.name@,
        DisplayLevel::Name => r.name@,
    }
}

impl Repository {
    /// The name shown for the repository at `level`.
    pub fn display_name(&self, level: DisplayLevel) -> (r: String)
        ensures
            r@ == display_name(*self, level),
    {
        match level {
            DisplayLevel::Remote => self.full_name(),
            DisplayLevel::Owner => {
                let r = concat(self.owner.as_str(), "/");
                concat(r.as_str(), self.name.as_str())
            },
            DisplayLevel::Name => self.name.clone(),
        }
    }
}

impl RepoList {
    /// The names shown for the repositories, in order.
    pub fn display_names(&self) -> (r: Vec<String>)
        ensures
            r@.len() == self.items@.len(),
            forall|i: int| 0 <= i < r@.len() ==> (#[trigger] r@[i])@ == display_name(self.items@[i], self.level),
    {
        let mut r: Vec<String> = Vec::new();
        let mut i: usize = 0;
        while i < self.items.len()
            invariant
                i <= self.items.len(),
                r@.len() == i,
                forall|k: int| 0 <= k < i ==> (#[trigger] r@[k])@ == display_name(self.items@[k], self.level),
            decreases self.items.len() - i,
        {
            r.push(self.items[i].display_name(self.level));
            i += 1;
        }
        r
    }
}

impl RepoSelector {
    /// A selector from the arguments.
    pub fn new(args: &SelectRepoArgs) -> (r: RepoSelector)
        ensures
            r.head@ == match args.head { Some(h) => h@, None => Seq::empty() },
            r.owner@ == match args.owner { Some(o) => o@, None => Seq::empty() },
            r.name@ == match args.name { Some(n) => n@, None => Seq::empty() },
    {
        let head = match &args.head { Some(h) => h.clone(), None => String::new() };
        let owner = match &args.owner { Some(o) => o.clone(), None => String::new() };
        let name = match &args.name { Some(n) => n.clone(), None => String::new() };
        RepoSelector { head, owner, name }
    }

    /// A selector from positional words: head, owner, name.
    pub fn from_args(args: &Vec<String>) -> (r: RepoSelector)
        ensures
            r.head@ == if args@.len() > 0 { args@[0]@ } else { Seq::empty() },
            r.owner@ == if args@.len() > 1 { args@[1]@ } else { Seq::empty() },
            r.name@ == if args@.len() > 2 { args@[2]@ } else { Seq::empty() },
    {
        let head = if args.len() > 0 { args[0].clone() } else { String::new() };
        let owner = if args.len() > 1 { args[1].clone() } else { String::new() };
        let name = if args.len() > 2 { args[2].clone() } else { String::new() };
        RepoSelector { head, owner, name }
    }

    /// How much of the names a list of the selection shows: all of them
    /// without a head, owner and name under a head, the name under an owner.
    pub fn display_level(&self) -> (r: DisplayLevel)
        ensures
            r == if self.owner@.len() > 0 { DisplayLevel::Name } else if self.head@.len() > 0 { DisplayLevel::Owner } else { DisplayLevel::Remote },
    {
        if !self.owner.as_str().is_empty() {
            DisplayLevel::Name
        } else if !self.head.as_str().is_empty() {
            DisplayLevel::Owner
        } else {
            DisplayLevel::Remote
        }
    }
}

/// Splits `path` into owner (which may itself hold `/`) and name.
pub fn split_owner(path: &str) -> (r: (String, String))
    ensures
        r.0@ == owner_and_name(path@).0,
        r.1@ == owner_and_name(path@).1,
{
    parse_owner(path)
}


/// A remote of the configuration, as far as choosing a repository by URL
/// needs it: its name and the domain it clones from.
#[derive(Debug, Clone, Default, PartialEq, Eq)]
pub struct RemoteConfig {
    pub name: String,
    pub clone: Option<String>,
}

/// A URL read into plain values: its domain, its path segments and its debug text.
#[derive(Debug, Clone, PartialEq, Eq)]
pub struct UrlParts {
    pub domain: Option<String>,
    pub segments: Option<Vec<String>>,
    pub debug: String,
}

impl View for UrlParts {
    type V = (Option<Seq<char>>, Option<Seq<Seq<char>>>, Seq<char>);

    open spec fn view(&self) -> (Option<Seq<char>>, Option<Seq<Seq<char>>>, Seq<char>) {
        (opt_str(self.domain), opt_strs(self.segments), self.debug@)
    }
}

/// What `Url::parse` makes of `s`, read through the URL's domain, path
/// segments and debug text; none where `s` is no URL.
pub uninterp spec fn url_parts(s: Seq<char>) -> Option<(Option<Seq<char>>, Option<Seq<Seq<char>>>, Seq<char>)>;

/// `reqwest::Url::parse` (the `url` crate's), the URL read through `domain`,
/// `path_segments` and its `Debug` text. The contract names the result as a
/// function of `s`, and states what the crate documents of `path_segments`:
/// where there are segments, there is at least one.
#[verifier::external_body]
fn parse_url(s: &str) -> (r: Option<UrlParts>)
    ensures
        match r {
            Some(p) => url_parts(s@) == Some(p@),
            None => url_parts(s@) is None,
        },
        r matches Some(p) && p.segments matches Some(v) ==> v.len() > 0,
{
    match reqwest::Url::parse(s) {
        Ok(u) => Some(UrlParts {
            domain: u.domain().map(|d| d.to_string()),
            segments: u.path_segments().map(|it| it.map(|x| x.to_string()).collect()),
            debug: format!("{:?}", u),
        }),
        Err(_) => None,
    }
}

/// `k` is where the first `-` segment stands, or the end.
pub open spec fn is_first_dash(segs: Seq<Seq<char>>, k: int) -> bool {
    &&& 0 <= k <= segs.len()
    &&& (k == segs.len() || segs[k] == "-"@)
    &&& forall|j: int| 0 <= j < k ==> segs[j] != "-"@
}

pub open spec fn dash_pos(segs: Seq<Seq<char>>) -> int {
    choose|k: int| is_first_dash(segs, k)
}

/// The segments of a URL's path that name a repository: on GitLab those
/// before the first `-`, elsewhere the first two.
pub open spec fn repo_segments(segs: Seq<Seq<char>>, gitlab: bool) -> Seq<Seq<char>> {
    if gitlab {
        segs.take(dash_pos(segs))
    } else if segs.len() < 2 {
        segs
    } else {
        segs.take(2)
    }
}

pub open spec fn clones_from(r: RemoteConfig, d: Seq<char>) -> bool {
    opt_str(r.clone) == Some(d)
}

/// `k` is where the first remote cloning from `d` stands, or the end.
pub open spec fn is_first_remote(rs: Seq<RemoteConfig>, d: Seq<char>, k: int) -> bool {
    &&& 0 <= k <= rs.len()
    &&& (k == rs.len() || clones_from(rs[k], d))
    &&& forall|j: int| 0 <= j < k ==> !clones_from(rs[j], d)
}

pub open spec fn remote_pos(rs: Seq<RemoteConfig>, d: Seq<char>) -> int {
    choose|k: int| is_first_remote(rs, d, k)
}

/// What choosing by the URL `url` among `remotes` gives: the remote that
/// clones from the URL's domain, and the owner and name that the URL's
/// path names; or the error that says why there are none.
pub open spec fn url_target_result(
    url: (Option<Seq<char>>, Option<Seq<Seq<char>>>, Seq<char>),
    remotes: Seq<RemoteConfig>,
    r: Result<(String, String, String), Error>,
) -> bool {
    match url.0 {
        None => r matches Err(Error::NoUrlDomain(u)) && u@ == url.2,
        Some(d) => {
            let k = remote_pos(remotes, d);
            if k == remotes.len() {
                r matches Err(Error::NoRemoteForDomain(x)) && x@ == d
            } else {
                match url.1 {
                    None => r matches Err(Error::EmptyUrlPath(u)) && u@ == url.2,
                    Some(segs) => {
                        let rs = repo_segments(segs, d != "github.com"@);
                        if rs.len() < 2 {
                            r matches Err(Error::UrlNotInRepo(u)) && u@ == url.2
                        } else {
                            r matches Ok(t) && t.0@ == remotes[k].name@ && t.1@ == owner_and_name(
                                join(rs, "/"@),
                            ).0 && t.2@ == owner_and_name(join(rs, "/"@)).1
                        }
                    },
                }
            }
        },
    }
}

proof fn lemma_first_dash(segs: Seq<Seq<char>>, k: int)
    requires
        is_first_dash(segs, k),
    ensures
        dash_pos(segs) == k,
{
    let c = dash_pos(segs);
    assert(is_first_dash(segs, c));
    if c < k {
        assert(segs[c] != "-"@);
    }
    if k < c {
        assert(segs[k] != "-"@);
    }
}

proof fn lemma_first_remote(rs: Seq<RemoteConfig>, d: Seq<char>, k: int)
    requires
        is_first_remote(rs, d, k),
    ensures
        remote_pos(rs, d) == k,
{
    let c = remote_pos(rs, d);
    assert(is_first_remote(rs, d, c));
    if c < k {
        assert(!clones_from(rs[c], d));
    }
    if k < c {
        assert(!clones_from(rs[k], d));
    }
}

/// Where the first remote that clones from `d` stands.
fn remote_index(remotes: &Vec<RemoteConfig>, d: &str) -> (r: Option<usize>)
    ensures
        match r {
            Some(k) => k < remotes.len() && k == remote_pos(remotes@, d@),
            None => remote_pos(remotes@, d@) == remotes.len(),
        },
{
    let mut i: usize = 0;
    while i < remotes.len()
        invariant
            i <= remotes.len(),
            forall|j: int| 0 <= j < i ==> !clones_from(remotes@[j], d@),
        decreases remotes.len() - i,
    {
        if let Some(c) = &remotes[i].clone {
            if eq_str(c.as_str(), d) {
                proof {
                    lemma_first_remote(remotes@, d@, i as int);
                }
                return Some(i);
            }
        }
        i = i + 1;
    }
    proof {
        lemma_first_remote(remotes@, d@, i as int);
    }
    None
}

/// The segments of `segs` that name a repository.
fn repo_segments_of(segs: &Vec<String>, gitlab: bool) -> (r: Vec<String>)
    ensures
        strs(r@) == repo_segments(strs(segs@), gitlab),
{
    let mut r: Vec<String> = Vec::new();
    let mut i: usize = 0;
    while i < segs.len()
        invariant
            i <= segs.len(),
            strs(r@) == strs(segs@).take(i as int),
            gitlab ==> forall|j: int| 0 <= j < i ==> strs(segs@)[j] != "-"@,
            !gitlab ==> i <= 2,
        decreases segs.len() - i,
    {
        if gitlab {
            if eq_str(segs[i].as_str(), "-") {
                proof {
                    assert(strs(segs@)[i as int] == segs@[i as int]@);
                    lemma_first_dash(strs(segs@), i as int);
                }
                return r;
            }
        } else if i == 2 {
            return r;
        }
        let x = owned(segs[i].as_str());
        proof {
            assert(strs(segs@)[i as int] == segs@[i as int]@);
            crate::text::lemma_strs_push(r@, x);
            assert(strs(segs@).take(i + 1) =~= strs(segs@).take(i as int).push(x@));
        }
        r.push(x);
        i = i + 1;
    }
    proof {
        assert(strs(segs@).take(i as int) =~= strs(segs@));
        if gitlab {
            lemma_first_dash(strs(segs@), i as int);
        }
    }
    r
}

/// The remote, owner and name that the URL `url` points to, going by the
/// remote that clones from its domain. On GitHub the first two path segments
/// name the repository; on other remotes (GitLab) the segments before `-`.
pub fn url_target(url: &UrlParts, remotes: &Vec<RemoteConfig>) -> (r: Result<(String, String, String), Error>)
    ensures
        url_target_result(url@, remotes@, r),
{
    let d = match &url.domain {
        Some(d) => d,
        None => return Err(Error::NoUrlDomain(owned(url.debug.as_str()))),
    };
    let k = match remote_index(remotes, d.as_str()) {
        Some(k) => k,
        None => return Err(Error::NoRemoteForDomain(owned(d.as_str()))),
    };
    let gitlab = !eq_str(d.as_str(), "github.com");
    let segs = match &url.segments {
        Some(s) => s,
        None => return Err(Error::EmptyUrlPath(owned(url.debug.as_str()))),
    };
    let rs = repo_segments_of(segs, gitlab);
    if rs.len() < 2 {
        return Err(Error::UrlNotInRepo(owned(url.debug.as_str())));
    }
    let path = join_strs(&rs, "/");
    let (owner, name) = split_owner(path.as_str());
    Ok((owned(remotes[k].name.as_str()), owner, name))
}


/// The URL that a clone SSH address `git@host:path.git` stands for:
/// `https://host/path`.
pub open spec fn ssh_url(ssh: Seq<char>) -> Seq<char> {
    "https://"@ + replace_first(ssh.subrange(4, ssh.len() - 4), ':', '/')
}

proof fn lemma_ssh_len(ssh: Seq<char>)
    requires
        starts_with(ssh, "git@"@),
        ends_with(ssh, ".git"@),
    ensures
        ssh.len() >= 8,
{
    reveal_strlit("git@");
    reveal_strlit(".git");
    if ssh.len() < 8 {
        let k = ssh.len() - 4;
        assert(ssh.subrange(k, ssh.len() as int)[0] == '.');
        assert(ssh.subrange(0, 4)[k] == ssh[k]);
    }
}

/// The remote, owner and name that a clone SSH address points to: the
/// address is read as the URL that it stands for.
pub fn ssh_target(ssh: &str, remotes: &Vec<RemoteConfig>) -> (r: Result<(String, String, String), Error>)
    requires
        starts_with(ssh@, "git@"@),
        ends_with(ssh@, ".git"@),
    ensures
        match url_parts(ssh_url(ssh@)) {
            Some(p) => url_target_result(p, remotes@, r),
            None => r matches Err(Error::InvalidSsh(u, s)) && u@ == ssh_url(ssh@) && s@ == ssh@,
        },
{
    proof {
        lemma_ssh_len(ssh@);
    }
    let v = crate::text::chars_of(ssh);
    let full = crate::text::string_of(&v, 4, v.len() - 4);
    let full = replace_first_str(full.as_str(), ':', '/');
    let url = concat("https://", full.as_str());
    match parse_url(url.as_str()) {
        Some(p) => url_target(&p, remotes),
        None => Err(Error::InvalidSsh(url, owned(ssh))),
    }
}

/// How a lone head is read.
#[derive(Debug, Clone, PartialEq, Eq)]
pub enum SelectOneType {
    /// A URL.
    Url(UrlParts),
    /// A clone SSH address.
    Ssh,
    /// A remote name or a keyword.
    Direct,
}

/// How a lone head is read: ending in `.git`, as a clone URL where it starts
/// with `http` and as an SSH address where it starts with `git@`; otherwise as
/// a URL where it is one, else as a remote or keyword.
pub fn select_type(head: &str) -> (r: Result<SelectOneType, Error>)
    ensures
        ends_with(head@, ".git"@) && starts_with(head@, "http"@) ==> match url_parts(
            trim_end_matches(head@, ".git"@),
        ) {
            Some(p) => r matches Ok(SelectOneType::Url(u)) && u@ == p,
            None => r matches Err(Error::InvalidCloneUrl(x)) && x@ == trim_end_matches(head@, ".git"@),
        },
        ends_with(head@, ".git"@) && !starts_with(head@, "http"@) && starts_with(head@, "git@"@) ==> r
            matches Ok(SelectOneType::Ssh),
        !(ends_with(head@, ".git"@) && (starts_with(head@, "http"@) || starts_with(head@, "git@"@)))
            ==> match url_parts(head@) {
            Some(p) => r matches Ok(SelectOneType::Url(u)) && u@ == p,
            None => r matches Ok(SelectOneType::Direct),
        },
{
    if ends_with_str(head, ".git") {
        if starts_with_str(head, "http") {
            let url = trim_end_matches_str(head, ".git");
            return match parse_url(url.as_str()) {
                Some(p) => Ok(SelectOneType::Url(p)),
                None => Err(Error::InvalidCloneUrl(url)),
            };
        } else if starts_with_str(head, "git@") {
            return Ok(SelectOneType::Ssh);
        }
    }
    match parse_url(head) {
        Some(p) => Ok(SelectOneType::Url(p)),
        None => Ok(SelectOneType::Direct),
    }
}

/// What a lone head selects.
#[derive(Debug, Clone, PartialEq, Eq)]
pub enum HeadChoice {
    /// The repository visited last.
    Latest,
    /// The repository with this remote, owner and name.
    Repo(String, String, String),
    /// One of the repositories of the remote that the head names.
    Remote,
    /// One of the repositories that the head matches loosely.
    Fuzzy,
}

/// The remote, owner and name of a choice of one repository.
pub open spec fn as_target(r: Result<HeadChoice, Error>) -> Result<(String, String, String), Error> {
    match r {
        Ok(HeadChoice::Repo(a, o, n)) => Ok((a, o, n)),
        Ok(_) => Err(Error::HeadNotUrl),
        Err(e) => Err(e),
    }
}

pub open spec fn names_repo(r: Result<HeadChoice, Error>) -> bool {
    r is Err || r matches Ok(HeadChoice::Repo(..))
}

pub open spec fn has_remote_named(remotes: Seq<RemoteConfig>, h: Seq<char>) -> bool {
    exists|i: int| 0 <= i < remotes.len() && #[trigger] remotes[i].name@ == h
}

/// What the lone head `h` (other than `-`) selects among `remotes`.
pub open spec fn head_choice_result(
    h: Seq<char>,
    remotes: Seq<RemoteConfig>,
    remote_mode: bool,
    r: Result<HeadChoice, Error>,
) -> bool {
    if ends_with(h, ".git"@) && starts_with(h, "http"@) {
        let u = trim_end_matches(h, ".git"@);
        match url_parts(u) {
            None => r matches Err(Error::InvalidCloneUrl(x)) && x@ == u,
            Some(p) => names_repo(r) && url_target_result(p, remotes, as_target(r)),
        }
    } else if ends_with(h, ".git"@) && starts_with(h, "git@"@) {
        match url_parts(ssh_url(h)) {
            Some(p) => names_repo(r) && url_target_result(p, remotes, as_target(r)),
            None => r matches Err(Error::InvalidSsh(u, s)) && u@ == ssh_url(h) && s@ == h,
        }
    } else {
        match url_parts(h) {
            Some(p) => names_repo(r) && url_target_result(p, remotes, as_target(r)),
            None => if remote_mode {
                r == Err::<HeadChoice, Error>(Error::HeadNotUrl)
            } else if has_remote_named(remotes, h) {
                r == Ok::<HeadChoice, Error>(HeadChoice::Remote)
            } else {
                r == Ok::<HeadChoice, Error>(HeadChoice::Fuzzy)
            },
        }
    }
}

fn into_choice(t: Result<(String, String, String), Error>) -> (r: Result<HeadChoice, Error>)
    ensures
        names_repo(r),
        as_target(r) == t,
{
    match t {
        Ok((a, o, n)) => Ok(HeadChoice::Repo(a, o, n)),
        Err(e) => Err(e),
    }
}

fn has_remote(remotes: &Vec<RemoteConfig>, h: &str) -> (r: bool)
    ensures
        r == has_remote_named(remotes@, h@),
{
    let mut i: usize = 0;
    while i < remotes.len()
        invariant
            i <= remotes.len(),
            forall|j: int| 0 <= j < i ==> remotes@[j].name@ != h@,
        decreases remotes.len() - i,
    {
        if eq_str(remotes[i].name.as_str(), h) {
            return true;
        }
        i = i + 1;
    }
    false
}

impl RepoSelector {
    /// What the head selects when it is given alone: `-` the repository
    /// visited last (refused when selecting from a remote); a URL or SSH
    /// address the repository it points to; a remote name that remote; any
    /// other word a loose match. Selecting from a remote takes a URL or SSH
    /// address only.
    pub fn choose_from_head(&self, remotes: &Vec<RemoteConfig>, remote_mode: bool) -> (r: Result<HeadChoice, Error>)
        ensures
            self.head@ == "-"@ ==> r == (if remote_mode {
                Err::<HeadChoice, Error>(Error::LatestFromRemote)
            } else {
                Ok::<HeadChoice, Error>(HeadChoice::Latest)
            }),
            self.head@ != "-"@ ==> head_choice_result(self.head@, remotes@, remote_mode, r),
    {
        let head = self.head.as_str();
        if eq_str(head, "-") {
            if remote_mode {
                return Err(Error::LatestFromRemote);
            }
            return Ok(HeadChoice::Latest);
        }
        match select_type(head) {
            Err(e) => Err(e),
            Ok(SelectOneType::Url(p)) => into_choice(url_target(&p, remotes)),
            Ok(SelectOneType::Ssh) => into_choice(ssh_target(head, remotes)),
            Ok(SelectOneType::Direct) => {
                if remote_mode {
                    Err(Error::HeadNotUrl)
                } else if has_remote(remotes, head) {
                    Ok(HeadChoice::Remote)
                } else {
                    Ok(HeadChoice::Fuzzy)
                }
            },
        }
    }
}


/// The names of `s`, in order, that are (`inside`) or are not (`!inside`) among `other`.
pub open spec fn kept(s: Seq<Seq<char>>, other: Seq<Seq<char>>, inside: bool) -> Seq<Seq<char>>
    decreases s.len(),
{
    if s.len() == 0 {
        Seq::empty()
    } else {
        let d = kept(s.drop_last(), other, inside);
        if other.contains(s.last()) == inside {
            d.push(s.last())
        } else {
            d
        }
    }
}

fn keep_where(s: &Vec<String>, other: &Vec<String>, inside: bool, out: &mut Vec<String>)
    ensures
        strs(final(out)@) == strs(old(out)@) + kept(strs(s@), strs(other@), inside),
{
    let ghost start = strs(out@);
    let mut i: usize = 0;
    proof {
        assert(strs(s@).take(0) =~= Seq::<Seq<char>>::empty());
        assert(start + Seq::<Seq<char>>::empty() =~= start);
    }
    while i < s.len()
        invariant
            i <= s.len(),
            strs(out@) == start + kept(strs(s@).take(i as int), strs(other@), inside),
        decreases s.len() - i,
    {
        proof {
            assert(strs(s@).take(i + 1).drop_last() =~= strs(s@).take(i as int));
            assert(strs(s@)[i as int] == s@[i as int]@);
        }
        if crate::git::contains_string(other, s[i].as_str()) == inside {
            let x = owned(s[i].as_str());
            proof {
                crate::text::lemma_strs_push(out@, x);
            }
            out.push(x);
        }
        i = i + 1;
    }
    proof {
        assert(strs(s@).take(s.len() as int) =~= strs(s@));
    }
}

/// The names of `sorted` that are in `unsorted`, in their order, then the
/// names of `unsorted` that are not in `sorted`, in theirs.
pub fn merge_sorted(sorted: &Vec<String>, unsorted: &Vec<String>) -> (r: Vec<String>)
    ensures
        strs(r@) == kept(strs(sorted@), strs(unsorted@), true) + kept(strs(unsorted@), strs(sorted@), false),
{
    let mut r: Vec<String> = Vec::new();
    keep_where(sorted, unsorted, true, &mut r);
    keep_where(unsorted, sorted, false, &mut r);
    proof {
        assert(strs(Seq::<String>::empty()) =~= Seq::<Seq<char>>::empty());
        assert(Seq::<Seq<char>>::empty() + kept(strs(sorted@), strs(unsorted@), true) =~= kept(
            strs(sorted@),
            strs(unsorted@),
            true,
        ));
    }
    r
}


impl RepoSelector {
    /// The repositories of the owner on its remote that are not here yet,
    /// in the remote's order, to choose a new one from.
    pub fn remote_candidates(&self, remote_repos: &Vec<String>, locals: &Vec<String>) -> (r: Result<Vec<String>, Error>)
        ensures
            remote_repos.len() == 0 ==> (r matches Err(Error::NoRemoteRepo(o)) && o@ == self.owner@),
            remote_repos.len() > 0 && kept(strs(remote_repos@), strs(locals@), false).len() == 0 ==> (r matches Err(
                Error::AllReposLocal(o),
            ) && o@ == self.owner@),
            remote_repos.len() > 0 && kept(strs(remote_repos@), strs(locals@), false).len() > 0 ==> (r matches Ok(v)
                && strs(v@) == kept(strs(remote_repos@), strs(locals@), false)),
    {
        if remote_repos.len() == 0 {
            return Err(Error::NoRemoteRepo(owned(self.owner.as_str())));
        }
        let mut v: Vec<String> = Vec::new();
        keep_where(remote_repos, locals, false, &mut v);
        proof {
            assert(strs(Seq::<String>::empty()) + kept(strs(remote_repos@), strs(locals@), false) =~= kept(
                strs(remote_repos@),
                strs(locals@),
                false,
            ));
        }
        if v.len() == 0 {
            return Err(Error::AllReposLocal(owned(self.owner.as_str())));
        }
        Ok(v)
    }

    /// The names to choose a repository of the owner from: those here first,
    /// in their order, then the others of the remote.
    pub fn owner_candidates(&self, remote_repos: &Vec<String>, locals: &Vec<String>) -> (r: Result<Vec<String>, Error>)
        ensures
            remote_repos.len() == 0 ==> (r matches Err(Error::NoNewRepo(o)) && o@ == self.owner@),
            remote_repos.len() > 0 ==> (r matches Ok(v) && strs(v@) == kept(strs(locals@), strs(remote_repos@), true)
                + kept(strs(remote_repos@), strs(locals@), false)),
    {
        if remote_repos.len() == 0 {
            return Err(Error::NoNewRepo(owned(self.owner.as_str())));
        }
        Ok(merge_sorted(locals, remote_repos))
    }
}


/// The items of `s`, each once, in the order in which they first come.
pub open spec fn first_seen<T>(s: Seq<T>) -> Seq<T>
    decreases s.len(),
{
    if s.len() == 0 {
        Seq::empty()
    } else {
        let d = first_seen(s.drop_last());
        if d.contains(s.last()) {
            d
        } else {
            d.push(s.last())
        }
    }
}

/// The remote of each repository, in order.
pub open spec fn repo_remotes(rs: Seq<Repository>) -> Seq<Seq<char>> {
    rs.map_values(|r: Repository| r.remote@)
}

/// How many of `rs` are in `remote`.
pub open spec fn count_remote(rs: Seq<Repository>, remote: Seq<char>) -> nat
    decreases rs.len(),
{
    if rs.len() == 0 {
        0
    } else {
        count_remote(rs.drop_last(), remote) + if rs.last().remote@ == remote { 1nat } else { 0nat }
    }
}

/// The owners of the repositories of `rs` in `remote`, in order.
pub open spec fn owners_in(rs: Seq<Repository>, remote: Seq<char>) -> Seq<Seq<char>>
    decreases rs.len(),
{
    if rs.len() == 0 {
        Seq::empty()
    } else {
        let d = owners_in(rs.drop_last(), remote);
        if rs.last().remote@ == remote {
            d.push(rs.last().owner@)
        } else {
            d
        }
    }
}

/// The remote and owner of each repository of `rs` in `remote` (in any
/// remote where it is none), in order.
pub open spec fn repo_pairs(rs: Seq<Repository>, remote: Option<Seq<char>>) -> Seq<(Seq<char>, Seq<char>)>
    decreases rs.len(),
{
    if rs.len() == 0 {
        Seq::empty()
    } else {
        let d = repo_pairs(rs.drop_last(), remote);
        let r = rs.last();
        if remote is None || remote == Some(r.remote@) {
            d.push((r.remote@, r.owner@))
        } else {
            d
        }
    }
}

/// How many of `rs` are under `remote` and `owner`.
pub open spec fn count_pair(rs: Seq<Repository>, remote: Seq<char>, owner: Seq<char>) -> nat
    decreases rs.len(),
{
    if rs.len() == 0 {
        0
    } else {
        count_pair(rs.drop_last(), remote, owner) + if rs.last().remote@ == remote && rs.last().owner@ == owner {
            1nat
        } else {
            0nat
        }
    }
}

/// The first position of a page of `n` items: past `offset`.
pub open spec fn page_start(n: int, limit: LimitOptions) -> int {
    if limit.offset < n { limit.offset as int } else { n }
}

/// The end of a page of `n` items: at most `limit` items, all where `limit` is 0.
pub open spec fn page_end(n: int, limit: LimitOptions) -> int {
    let s = page_start(n, limit);
    if limit.limit == 0 || s + limit.limit > n { n } else { s + limit.limit }
}

proof fn lemma_counts_bounded(rs: Seq<Repository>, remote: Seq<char>, owner: Seq<char>)
    ensures
        count_remote(rs, remote) <= rs.len(),
        count_pair(rs, remote, owner) <= rs.len(),
        owners_in(rs, remote).len() <= rs.len(),
        repo_pairs(rs, None).len() <= rs.len(),
        repo_pairs(rs, Some(remote)).len() <= rs.len(),
    decreases rs.len(),
{
    if rs.len() > 0 {
        lemma_counts_bounded(rs.drop_last(), remote, owner);
    }
}

proof fn lemma_first_seen_len<T>(s: Seq<T>)
    ensures
        first_seen(s).len() <= s.len(),
    decreases s.len(),
{
    if s.len() > 0 {
        lemma_first_seen_len(s.drop_last());
    }
}

fn count_repos(repos: &Vec<Repository>, remote: &str) -> (r: u32)
    requires
        repos.len() <= u32::MAX,
    ensures
        r == count_remote(repos@, remote@),
{
    let mut n: u32 = 0;
    let mut i: usize = 0;
    while i < repos.len()
        invariant
            i <= repos.len(),
            repos.len() <= u32::MAX,
            n == count_remote(repos@.take(i as int), remote@),
        decreases repos.len() - i,
    {
        proof {
            assert(repos@.take(i + 1).drop_last() =~= repos@.take(i as int));
            lemma_counts_bounded(repos@.take(i as int), remote@, remote@);
        }
        if eq_str(repos[i].remote.as_str(), remote) {
            n = n + 1;
        }
        i = i + 1;
    }
    proof {
        assert(repos@.take(repos.len() as int) =~= repos@);
    }
    n
}

fn count_pair_repos(repos: &Vec<Repository>, remote: &str, owner: &str) -> (r: u32)
    requires
        repos.len() <= u32::MAX,
    ensures
        r == count_pair(repos@, remote@, owner@),
{
    let mut n: u32 = 0;
    let mut i: usize = 0;
    while i < repos.len()
        invariant
            i <= repos.len(),
            repos.len() <= u32::MAX,
            n == count_pair(repos@.take(i as int), remote@, owner@),
        decreases repos.len() - i,
    {
        proof {
            assert(repos@.take(i + 1).drop_last() =~= repos@.take(i as int));
            lemma_counts_bounded(repos@.take(i as int), remote@, owner@);
        }
        if eq_str(repos[i].remote.as_str(), remote) && eq_str(repos[i].owner.as_str(), owner) {
            n = n + 1;
        }
        i = i + 1;
    }
    proof {
        assert(repos@.take(repos.len() as int) =~= repos@);
    }
    n
}

/// The strings of `items` that are new get added, in order.
fn add_new(seen: &mut Vec<String>, x: &str)
    ensures
        strs(final(seen)@) == if strs(old(seen)@).contains(x@) {
            strs(old(seen)@)
        } else {
            strs(old(seen)@).push(x@)
        },
{
    if !crate::git::contains_string(seen, x) {
        let v = owned(x);
        proof {
            crate::text::lemma_strs_push(seen@, v);
        }
        seen.push(v);
    }
}

/// The remotes of `repos`, each once, in order of first appearance.
fn remote_order(repos: &Vec<Repository>) -> (r: Vec<String>)
    ensures
        strs(r@) == first_seen(repo_remotes(repos@)),
{
    let mut seen: Vec<String> = Vec::new();
    let mut i: usize = 0;
    proof {
        assert(repo_remotes(repos@.take(0)) =~= Seq::<Seq<char>>::empty());
        assert(strs(seen@) =~= Seq::<Seq<char>>::empty());
    }
    while i < repos.len()
        invariant
            i <= repos.len(),
            strs(seen@) == first_seen(repo_remotes(repos@.take(i as int))),
        decreases repos.len() - i,
    {
        proof {
            assert(repo_remotes(repos@.take(i + 1)) =~= repo_remotes(repos@.take(i as int)).push(repos@[i as int].remote@));
            assert(repo_remotes(repos@.take(i + 1)).drop_last() =~= repo_remotes(repos@.take(i as int)));
        }
        add_new(&mut seen, repos[i].remote.as_str());
        i = i + 1;
    }
    proof {
        assert(repos@.take(repos.len() as int) =~= repos@);
    }
    seen
}

/// How many owners `remote` has among `repos`.
fn count_owners(repos: &Vec<Repository>, remote: &str) -> (r: u32)
    requires
        repos.len() <= u32::MAX,
    ensures
        r == first_seen(owners_in(repos@, remote@)).len(),
{
    let mut seen: Vec<String> = Vec::new();
    let mut i: usize = 0;
    proof {
        assert(strs(seen@) =~= Seq::<Seq<char>>::empty());
    }
    while i < repos.len()
        invariant
            i <= repos.len(),
            strs(seen@) == first_seen(owners_in(repos@.take(i as int), remote@)),
        decreases repos.len() - i,
    {
        proof {
            assert(repos@.take(i + 1).drop_last() =~= repos@.take(i as int));
        }
        if eq_str(repos[i].remote.as_str(), remote) {
            proof {
                let o = owners_in(repos@.take(i as int), remote@);
                assert(o.push(repos@[i as int].owner@).drop_last() =~= o);
            }
            add_new(&mut seen, repos[i].owner.as_str());
        }
        i = i + 1;
    }
    proof {
        assert(repos@.take(repos.len() as int) =~= repos@);
        lemma_first_seen_len(owners_in(repos@, remote@));
        lemma_counts_bounded(repos@, remote@, remote@);
    }
    seen.len() as u32
}

pub open spec fn pair_views(v: Seq<(String, String)>) -> Seq<(Seq<char>, Seq<char>)> {
    v.map_values(|p: (String, String)| (p.0@, p.1@))
}

fn has_pair(v: &Vec<(String, String)>, r: &str, o: &str) -> (b: bool)
    ensures
        b == pair_views(v@).contains((r@, o@)),
{
    let mut i: usize = 0;
    while i < v.len()
        invariant
            i <= v.len(),
            forall|j: int| 0 <= j < i ==> pair_views(v@)[j] != (r@, o@),
        decreases v.len() - i,
    {
        if eq_str(v[i].0.as_str(), r) && eq_str(v[i].1.as_str(), o) {
            assert(pair_views(v@)[i as int] == (r@, o@));
            return true;
        }
        i = i + 1;
    }
    false
}

/// The remote and owner pairs of `repos` (in `remote` where given), each
/// once, in order of first appearance.
fn pair_order(repos: &Vec<Repository>, remote: &Option<String>) -> (r: Vec<(String, String)>)
    ensures
        pair_views(r@) == first_seen(repo_pairs(repos@, opt_str(*remote))),
{
    let mut seen: Vec<(String, String)> = Vec::new();
    let mut i: usize = 0;
    proof {
        assert(pair_views(seen@) =~= Seq::<(Seq<char>, Seq<char>)>::empty());
    }
    while i < repos.len()
        invariant
            i <= repos.len(),
            pair_views(seen@) == first_seen(repo_pairs(repos@.take(i as int), opt_str(*remote))),
        decreases repos.len() - i,
    {
        proof {
            assert(repos@.take(i + 1).drop_last() =~= repos@.take(i as int));
        }
        let rp = &repos[i];
        let inside = match remote {
            None => true,
            Some(x) => eq_str(x.as_str(), rp.remote.as_str()),
        };
        if inside {
            proof {
                let ps = repo_pairs(repos@.take(i as int), opt_str(*remote));
                assert(ps.push((rp.remote@, rp.owner@)).drop_last() =~= ps);
            }
            if !has_pair(&seen, rp.remote.as_str(), rp.owner.as_str()) {
                let x = (owned(rp.remote.as_str()), owned(rp.owner.as_str()));
                proof {
                    assert(pair_views(seen@.push(x)) =~= pair_views(seen@).push((x.0@, x.1@)));
                }
                seen.push(x);
            }
        }
        i = i + 1;
    }
    proof {
        assert(repos@.take(repos.len() as int) =~= repos@);
    }
    seen
}

/// The remotes of the repositories `repos` (listed latest visited first),
/// each with how many owners and repositories it has, in order of first
/// appearance, the page `limit` of them, and how many there are in all.
pub fn select_remotes(repos: &Vec<Repository>, limit: LimitOptions) -> (r: RemoteList)
    requires
        repos.len() <= u32::MAX,
    ensures
        ({
            let names = first_seen(repo_remotes(repos@));
            let s = page_start(names.len() as int, limit);
            let e = page_end(names.len() as int, limit);
            &&& r.total == names.len()
            &&& r.remotes.len() == e - s
            &&& forall|k: int| 0 <= k < r.remotes.len() ==> {
                &&& (#[trigger] r.remotes@[k]).remote@ == names[s + k]
                &&& r.remotes@[k].owner_count == first_seen(owners_in(repos@, names[s + k])).len()
                &&& r.remotes@[k].repo_count == count_remote(repos@, names[s + k])
            }
        }),
{
    let names = remote_order(repos);
    proof {
        lemma_first_seen_len(repo_remotes(repos@));
    }
    let n = names.len();
    let start: usize = if (limit.offset as usize) < n { limit.offset as usize } else { n };
    let end: usize = if limit.limit == 0 || (limit.limit as usize) > n - start { n } else { start + limit.limit as usize };
    let mut remotes: Vec<RemoteState> = Vec::new();
    let mut k: usize = start;
    while k < end
        invariant
            start <= k <= end <= n,
            n == names.len(),
            repos.len() <= u32::MAX,
            remotes.len() == k - start,
            forall|q: int| 0 <= q < remotes.len() ==> {
                &&& (#[trigger] remotes@[q]).remote@ == strs(names@)[start + q]
                &&& remotes@[q].owner_count == first_seen(owners_in(repos@, strs(names@)[start + q])).len()
                &&& remotes@[q].repo_count == count_remote(repos@, strs(names@)[start + q])
            },
        decreases end - k,
    {
        let name = names[k].as_str();
        proof {
            assert(strs(names@)[k as int] == names@[k as int]@);
        }
        let st = RemoteState {
            remote: owned(name),
            owner_count: count_owners(repos, name),
            repo_count: count_repos(repos, name),
        };
        remotes.push(st);
        k = k + 1;
    }
    RemoteList { remotes, total: n as u32 }
}

/// The owners of the repositories `repos` (listed latest visited first), in
/// `remote` where it is given, each with how many repositories it has, in
/// order of first appearance, the page `limit` of them, and how many there
/// are in all. The remote is shown where none is given.
pub fn select_owners(repos: &Vec<Repository>, remote: Option<String>, limit: LimitOptions) -> (r: OwnerList)
    requires
        repos.len() <= u32::MAX,
    ensures
        ({
            let pairs = first_seen(repo_pairs(repos@, opt_str(remote)));
            let s = page_start(pairs.len() as int, limit);
            let e = page_end(pairs.len() as int, limit);
            &&& r.show_remote == (remote is None)
            &&& r.total == pairs.len()
            &&& r.owners.len() == e - s
            &&& forall|k: int| 0 <= k < r.owners.len() ==> {
                &&& (#[trigger] r.owners@[k]).remote@ == pairs[s + k].0
                &&& r.owners@[k].owner@ == pairs[s + k].1
                &&& r.owners@[k].repo_count == count_pair(repos@, pairs[s + k].0, pairs[s + k].1)
            }
        }),
{
    let show_remote = remote.is_none();
    let pairs = pair_order(repos, &remote);
    proof {
        lemma_first_seen_len(repo_pairs(repos@, opt_str(remote)));
        lemma_counts_bounded(repos@, Seq::empty(), Seq::empty());
        match remote {
            Some(x) => lemma_counts_bounded(repos@, x@, x@),
            None => {},
        }
    }
    let n = pairs.len();
    let start: usize = if (limit.offset as usize) < n { limit.offset as usize } else { n };
    let end: usize = if limit.limit == 0 || (limit.limit as usize) > n - start { n } else { start + limit.limit as usize };
    let mut owners: Vec<OwnerState> = Vec::new();
    let mut k: usize = start;
    while k < end
        invariant
            start <= k <= end <= n,
            n == pairs.len(),
            repos.len() <= u32::MAX,
            owners.len() == k - start,
            forall|q: int| 0 <= q < owners.len() ==> {
                &&& (#[trigger] owners@[q]).remote@ == pair_views(pairs@)[start + q].0
                &&& owners@[q].owner@ == pair_views(pairs@)[start + q].1
                &&& owners@[q].repo_count == count_pair(repos@, pair_views(pairs@)[start + q].0, pair_views(pairs@)[start + q].1)
            },
        decreases end - k,
    {
        let (r0, o0) = (pairs[k].0.as_str(), pairs[k].1.as_str());
        proof {
            assert(pair_views(pairs@)[k as int] == (pairs@[k as int].0@, pairs@[k as int].1@));
        }
        let st = OwnerState {
            remote: owned(r0),
            owner: owned(o0),
            repo_count: count_pair_repos(repos, r0, o0),
        };
        owners.push(st);
        k = k + 1;
    }
    OwnerList { show_remote, owners, total: n as u32 }
}


/// Where the repository `r` lives: its own path, else
/// `workspace/remote/owner/name`.
pub open spec fn repo_path(workspace: Seq<char>, r: Repository) -> Seq<char> {
    match r.path {
        Some(p) => p@,
        None => workspace + "/"@ + r.remote@ + "/"@ + r.owner@ + "/"@ + r.name@,
    }
}

/// The current directory is the repository's own directory (component by component).
pub open spec fn is_repo_dir(workspace: Seq<char>, current_dir: Seq<char>, r: Repository) -> bool {
    crate::repo::path_parts(repo_path(workspace, r)) == crate::repo::path_parts(current_dir)
}

/// The current directory lies in the repository's directory.
pub open spec fn in_repo_dir(workspace: Seq<char>, current_dir: Seq<char>, r: Repository) -> bool {
    crate::repo::relative_parts(repo_path(workspace, r), current_dir) is Some
}

/// Going through `rs` in order: the position of the first repository the
/// current directory lies in (where that counts), or else the positions of
/// the repositories to choose from, leaving out the one that is the current
/// directory.
pub open spec fn scan_repos(
    rs: Seq<Repository>,
    workspace: Seq<char>,
    current_dir: Seq<char>,
    remote_empty: bool,
) -> (Option<int>, Seq<int>)
    decreases rs.len(),
{
    if rs.len() == 0 {
        (None, Seq::empty())
    } else {
        let p = scan_repos(rs.drop_last(), workspace, current_dir, remote_empty);
        let i = rs.len() - 1;
        let r = rs.last();
        if p.0 is Some {
            p
        } else if is_repo_dir(workspace, current_dir, r) {
            p
        } else if remote_empty && in_repo_dir(workspace, current_dir, r) {
            (Some(i), p.1)
        } else {
            (None, p.1.push(i))
        }
    }
}

proof fn lemma_scan_hit_stays(rs: Seq<Repository>, ws: Seq<char>, cur: Seq<char>, remote_empty: bool, k: int)
    requires
        0 <= k <= rs.len(),
        scan_repos(rs.take(k), ws, cur, remote_empty).0 is Some,
    ensures
        scan_repos(rs, ws, cur, remote_empty).0 == scan_repos(rs.take(k), ws, cur, remote_empty).0,
    decreases rs.len() - k,
{
    if k < rs.len() {
        assert(rs.take(k + 1).drop_last() =~= rs.take(k));
        lemma_scan_hit_stays(rs, ws, cur, remote_empty, k + 1);
    } else {
        assert(rs.take(k) =~= rs);
    }
}

/// Which repository of a database listing a choice takes.
#[derive(Debug, Clone, PartialEq, Eq)]
pub enum DbPick {
    /// The repository that the current directory lies in.
    Current(usize),
    /// The first one left, the one visited last.
    Latest(usize),
    /// The ones left, to choose from.
    Search(Vec<usize>),
}

fn parts_prefix(b: &Vec<String>, p: &Vec<String>) -> (r: bool)
    ensures
        r == (b.len() <= p.len() && strs(p@).take(b.len() as int) == strs(b@)),
{
    if b.len() > p.len() {
        return false;
    }
    let mut i: usize = 0;
    while i < b.len()
        invariant
            b.len() <= p.len(),
            i <= b.len(),
            strs(p@).take(i as int) == strs(b@).take(i as int),
        decreases b.len() - i,
    {
        if !eq_str(b[i].as_str(), p[i].as_str()) {
            assert(strs(p@).take(b.len() as int)[i as int] != strs(b@)[i as int]);
            return false;
        }
        assert(strs(p@).take(i + 1) =~= strs(p@).take(i as int).push(strs(p@)[i as int]));
        assert(strs(b@).take(i + 1) =~= strs(b@).take(i as int).push(strs(b@)[i as int]));
        i = i + 1;
    }
    assert(strs(b@).take(b.len() as int) =~= strs(b@));
    true
}

/// The choice among the repositories `repos` that a database listing gives,
/// in their order: never the repository that is the current directory; when
/// no remote narrows the listing, the first repository the current directory
/// lies in; else, of those left, the first when `latest`, or all of them to
/// choose from; an error when none is left.
pub fn pick_from_repos(
    repos: &Vec<Repository>,
    workspace: &str,
    current_dir: &str,
    remote_empty: bool,
    latest: bool,
) -> (r: Result<DbPick, Error>)
    ensures
        ({
            let p = scan_repos(repos@, workspace@, current_dir@, remote_empty);
            match p.0 {
                Some(i) => r == Ok::<DbPick, Error>(DbPick::Current(i as usize)),
                None => if p.1.len() == 0 {
                    r == Err::<DbPick, Error>(Error::NoRepoToSelect)
                } else if latest {
                    r == Ok::<DbPick, Error>(DbPick::Latest(p.1[0] as usize))
                } else {
                    r matches Ok(DbPick::Search(v)) && v@.map_values(|x: usize| x as int) == p.1
                },
            }
        }),
{
    let cur = crate::repo::path_parts_of(current_dir);
    let mut left: Vec<usize> = Vec::new();
    let mut i: usize = 0;
    proof {
        assert(repos@.take(0) =~= Seq::<Repository>::empty());
        assert(left@.map_values(|x: usize| x as int) =~= Seq::<int>::empty());
    }
    while i < repos.len()
        invariant
            i <= repos.len(),
            strs(cur@) == crate::repo::path_parts(current_dir@),
            scan_repos(repos@.take(i as int), workspace@, current_dir@, remote_empty).0 is None,
            left@.map_values(|x: usize| x as int) == scan_repos(repos@.take(i as int), workspace@, current_dir@, remote_empty).1,
            forall|q: int| 0 <= q < left.len() ==> left@[q] < i,
        decreases repos.len() - i,
    {
        let r = &repos[i];
        proof {
            assert(repos@.take(i + 1).drop_last() =~= repos@.take(i as int));
            assert(repos@.take(i + 1).last() == repos@[i as int]);
        }
        let path = crate::repo::database::get_path(workspace, &r.path, r.remote.as_str(), r.owner.as_str(), r.name.as_str());
        let parts = crate::repo::path_parts_of(path.as_str());
        let here = parts.len() == cur.len() && parts_prefix(&parts, &cur);
        proof {
            if here {
                assert(strs(cur@).take(parts.len() as int) =~= strs(cur@));
            }
            if strs(parts@) == strs(cur@) {
                assert(strs(cur@).take(parts.len() as int) =~= strs(cur@));
            }
        }
        if !here {
            if remote_empty && parts_prefix(&parts, &cur) {
                proof {
                    lemma_scan_hit_stays(repos@, workspace@, current_dir@, remote_empty, i + 1);
                }
                return Ok(DbPick::Current(i));
            }
            proof {
                assert(left@.push(i).map_values(|x: usize| x as int) =~= left@.map_values(|x: usize| x as int).push(i as int));
            }
            left.push(i);
        }
        i = i + 1;
    }
    proof {
        assert(repos@.take(repos.len() as int) =~= repos@);
    }
    if left.len() == 0 {
        return Err(Error::NoRepoToSelect);
    }
    if latest {
        return Ok(DbPick::Latest(left[0]));
    }
    Ok(DbPick::Search(left))
}


/// The filters of a listing of many repositories: a remote, an owner and a
/// name where the selection gives them.
#[derive(Debug, Clone, PartialEq, Eq)]
pub struct ManyQuery {
    pub remote: Option<String>,
    pub owner: Option<String>,
    pub name: Option<String>,
    pub level: DisplayLevel,
}

pub open spec fn word_filter(w: Seq<char>, x: Option<String>) -> bool {
    if w.len() == 0 { x is None } else { x matches Some(s) && s@ == w }
}

impl RepoSelector {
    /// What listing many repositories filters on: the head as remote, the
    /// owner and the name, each where it is given; shown at the level that
    /// [`RepoSelector::display_level`] gives.
    pub fn many_query(&self) -> (r: ManyQuery)
        ensures
            word_filter(self.head@, r.remote),
            word_filter(self.owner@, r.owner),
            word_filter(self.name@, r.name),
            r.level == (if self.owner@.len() > 0 { DisplayLevel::Name } else if self.head@.len() > 0 { DisplayLevel::Owner } else { DisplayLevel::Remote }),
    {
        let remote = if self.head.as_str().is_empty() { None } else { Some(owned(self.head.as_str())) };
        let owner = if self.owner.as_str().is_empty() { None } else { Some(owned(self.owner.as_str())) };
        let name = if self.name.as_str().is_empty() { None } else { Some(owned(self.name.as_str())) };
        ManyQuery { remote, owner, name, level: self.display_level() }
    }
}

} // verus!
