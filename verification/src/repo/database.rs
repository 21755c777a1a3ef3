//! How repositories are looked up and chosen.
use vstd::prelude::*;

use crate::text::owned;

pub mod bucket;

pub use bucket::{Bucket, Database, OwnerBucket, RemoteBucket, RepoBucket};

verus! {

/// Where a repository lives: its own path, else `workspace/remote/owner/name`.
pub fn get_path(workspace: &str, path: &Option<String>, remote: &str, owner: &str, name: &str) -> (r: String)
    ensures
        r@ == match *path {
            Some(p) => p@,
            None => workspace@ + "/"@ + remote@ + "/"@ + owner@ + "/"@ + name@,
        },
{
    match path {
        Some(p) => p.clone(),
        None => {
            let r = crate::text::concat(workspace, "/");
            let r = crate::text::concat(r.as_str(), remote);
            let r = crate::text::concat(r.as_str(), "/");
            let r = crate::text::concat(r.as_str(), owner);
            let r = crate::text::concat(r.as_str(), "/");
            crate::text::concat(r.as_str(), name)
        },
    }
}

/// Whether choosing among several repositories searches or matches fuzzily.
#[derive(Debug, Clone, Copy, PartialEq, Eq, Structural)]
pub enum SelectMode {
    Fuzzy,
    Search,
}

/// How a selector chooses and filters repositories.
#[derive(Debug, Clone, PartialEq, Eq)]
pub struct SelectOptions {
    pub mode: SelectMode,
    /// Build the remote's client without its cache.
    pub force_no_cache: bool,
    /// Look only at local repositories.
    pub force_local: bool,
    /// Look only at the remote, leaving local repositories out.
    pub force_remote: bool,
    /// Use this path instead of the workspace.
    pub repo_path: Option<String>,
    /// Let the user edit the list when several repositories are chosen.
    pub many_edit: bool,
    /// Keep only repositories with these labels.
    pub filter_labels: Option<Vec<String>>,
}

impl SelectOptions {
    /// Fuzzy matching, every other option off.
    pub fn new() -> (r: SelectOptions)
        ensures
            r.mode == SelectMode::Fuzzy,
            !r.force_no_cache && !r.force_local && !r.force_remote && !r.many_edit,
            r.repo_path is None,
            r.filter_labels is None,
    {
        SelectOptions {
            mode: SelectMode::Fuzzy,
            force_no_cache: false,
            force_local: false,
            force_remote: false,
            repo_path: None,
            many_edit: false,
            filter_labels: None,
        }
    }

    /// The same as `new`.
    pub fn default() -> (r: SelectOptions)
        ensures
            r.mode == SelectMode::Fuzzy,
            !r.force_no_cache && !r.force_local && !r.force_remote && !r.many_edit,
            r.repo_path is None,
            r.filter_labels is None,
    {
        Self::new()
    }

    /// Searching when `value`; the mode is left as it is otherwise.
    pub fn with_force_search(self, value: bool) -> (r: SelectOptions)
        ensures
            r == (SelectOptions { mode: if value { SelectMode::Search } else { self.mode }, ..self }),
    {
        if value {
            SelectOptions { mode: SelectMode::Search, ..self }
        } else {
            self
        }
    }

    pub fn with_force_no_cache(self, value: bool) -> (r: SelectOptions)
        ensures
            r == (SelectOptions { force_no_cache: value, ..self }),
    {
        SelectOptions { force_no_cache: value, ..self }
    }

    pub fn with_force_local(self, value: bool) -> (r: SelectOptions)
        ensures
            r == (SelectOptions { force_local: value, ..self }),
    {
        SelectOptions { force_local: value, ..self }
    }

    pub fn with_force_remote(self, value: bool) -> (r: SelectOptions)
        ensures
            r == (SelectOptions { force_remote: value, ..self }),
    {
        SelectOptions { force_remote: value, ..self }
    }

    pub fn with_repo_path(self, value: String) -> (r: SelectOptions)
        ensures
            r == (SelectOptions { repo_path: Some(value), ..self }),
    {
        SelectOptions { repo_path: Some(value), ..self }
    }

    pub fn with_many_edit(self, value: bool) -> (r: SelectOptions)
        ensures
            r == (SelectOptions { many_edit: value, ..self }),
    {
        SelectOptions { many_edit: value, ..self }
    }

    pub fn with_filter_labels(self, labels: Option<Vec<String>>) -> (r: SelectOptions)
        ensures
            r == (SelectOptions { filter_labels: labels, ..self }),
    {
        SelectOptions { filter_labels: labels, ..self }
    }
}

/// What the user asked for: a head (remote, keyword or URL) and a query.
#[derive(Debug, Clone, PartialEq, Eq)]
pub struct Selector {
    pub head: String,
    pub query: String,
    pub opts: SelectOptions,
}

impl Selector {
    pub fn new(head: &str, query: &str, opts: SelectOptions) -> (r: Selector)
        ensures
            r.head@ == head@,
            r.query@ == query@,
            r.opts == opts,
    {
        Selector { head: owned(head), query: owned(query), opts }
    }

    /// A selector from arguments that may be missing, each read as empty.
    pub fn from_args(head: &Option<String>, query: &Option<String>, opts: SelectOptions) -> (r: Selector)
        ensures
            r.head@ == match *head { Some(h) => h@, None => Seq::empty() },
            r.query@ == match *query { Some(q) => q@, None => Seq::empty() },
            r.opts == opts,
    {
        let h = match head { Some(h) => h.as_str(), None => "" };
        let q = match query { Some(q) => q.as_str(), None => "" };
        proof { reveal_strlit(""); }
        Self::new(h, q, opts)
    }
}

} // verus!
