//! Options of a repository query, and how a query names an owner.
use vstd::prelude::*;

use crate::error::Error;
use crate::text::{join, join_strs, owned, split_char, split_char_str, lemma_split_char_nonempty, strs};

verus! {

/// What a query may do to find a repository.
#[derive(Debug, Clone, Default, PartialEq, Eq)]
pub struct SelectOptions {
    /// Search rather than match fuzzily.
    pub search: bool,
    /// Ask the remote even when a local repository answers.
    pub force: bool,
    /// Use this path instead of the workspace.
    pub repo_path: Option<String>,
    /// Look only at local repositories.
    pub local_only: bool,
}

impl SelectOptions {
    /// All options off.
    pub fn new() -> (r: SelectOptions)
        ensures
            !r.search && !r.force && r.repo_path is None && !r.local_only,
    {
        SelectOptions { search: false, force: false, repo_path: None, local_only: false }
    }

    pub fn with_search(self, val: bool) -> (r: SelectOptions)
        ensures
            r == (SelectOptions { search: val, ..self }),
    {
        SelectOptions { search: val, ..self }
    }

    pub fn with_force(self, val: bool) -> (r: SelectOptions)
        ensures
            r == (SelectOptions { force: val, ..self }),
    {
        SelectOptions { force: val, ..self }
    }

    pub fn with_repo_path(self, path: String) -> (r: SelectOptions)
        ensures
            r == (SelectOptions { repo_path: Some(path), ..self }),
    {
        SelectOptions { repo_path: Some(path), ..self }
    }

    pub fn with_local_only(self, val: bool) -> (r: SelectOptions)
        ensures
            r == (SelectOptions { local_only: val, ..self }),
    {
        SelectOptions { local_only: val, ..self }
    }
}

/// The owner and the name in `path`: what precedes the last `/` and what
/// follows it; an empty owner when there is no `/`.
pub open spec fn owner_and_name(path: Seq<char>) -> (Seq<char>, Seq<char>) {
    let parts = split_char(path, '/');
    (join(parts.drop_last(), "/"@), parts.last())
}

/// Splits `path` into owner (which may itself hold `/`) and name.
pub fn parse_owner(path: &str) -> (r: (String, String))
    ensures
        r.0@ == owner_and_name(path@).0,
        r.1@ == owner_and_name(path@).1,
{
    let mut parts = split_char_str(path, '/');
    proof { lemma_split_char_nonempty(path@, '/'); }
    let ghost ps = strs(parts@);
    let last = parts.pop().unwrap();
    assert(strs(parts@) =~= ps.drop_last());
    let owner = join_strs(&parts, "/");
    (owner, last)
}

proof fn lemma_split_join(s: Seq<char>, c: char)
    ensures
        split_char(s, c).len() >= 1,
        join(split_char(s, c), seq![c]) == s,
        forall|i: int| 0 <= i < split_char(s, c).len() ==> !(#[trigger] split_char(s, c)[i]).contains(c),
        (split_char(s, c).len() == 1) == !s.contains(c),
    decreases s.len(),
{
    if s.len() == 0 {
        assert(split_char(s, c) =~= seq![Seq::<char>::empty()]);
    } else {
        let t = s.drop_last();
        let x = s.last();
        lemma_split_join(t, c);
        let r = split_char(t, c);
        assert(s =~= t.push(x));
        if x == c {
            let q = r.push(Seq::<char>::empty());
            assert(split_char(s, c) == q);
            assert(q.drop_last() =~= r);
            assert(join(q, seq![c]) =~= join(r, seq![c]) + seq![c] + Seq::<char>::empty());
            assert(s.contains(c)) by { assert(s[s.len() - 1] == c); }
            assert forall|i: int| 0 <= i < q.len() implies !(#[trigger] q[i]).contains(c) by {
                if i < r.len() { assert(q[i] == r[i]); }
            }
        } else {
            let k = r.len() - 1;
            let q = r.update(k, r.last().push(x));
            assert(split_char(s, c) == q);
            if r.len() == 1 {
                assert(join(q, seq![c]) == q[0]);
                assert(join(r, seq![c]) == r[0]);
                assert(q[0] =~= r[0].push(x));
            } else {
                assert(q.drop_last() =~= r.drop_last());
                assert(join(q, seq![c]) =~= join(r.drop_last(), seq![c]) + seq![c] + r.last().push(x));
                assert(join(r, seq![c]) == join(r.drop_last(), seq![c]) + seq![c] + r.last());
            }
            assert forall|i: int| 0 <= i < q.len() implies !(#[trigger] q[i]).contains(c) by {
                if i < k {
                    assert(q[i] == r[i]);
                } else {
                    assert(!r[k].contains(c));
                    if q[i].contains(c) {
                        let j = choose|j: int| 0 <= j < q[i].len() && q[i][j] == c;
                        if j < r[k].len() { assert(q[i][j] == r[k][j]); }
                    }
                }
            }
            assert(s.contains(c) == t.contains(c)) by {
                if s.contains(c) {
                    let j = choose|j: int| 0 <= j < s.len() && s[j] == c;
                    assert(j < t.len());
                    assert(t[j] == c);
                }
                if t.contains(c) {
                    let j = choose|j: int| 0 <= j < t.len() && t[j] == c;
                    assert(s[j] == c);
                }
            }
        }
    }
}

/// The owner and the name put back together with `/` give the path: the
/// name holds no `/`, and the owner is empty exactly when the path holds no `/`.
pub proof fn law_owner_and_name_reassemble(path: Seq<char>)
    ensures
        !owner_and_name(path).1.contains('/'),
        path.contains('/') ==> owner_and_name(path).0 + "/"@ + owner_and_name(path).1 == path,
        !path.contains('/') ==> owner_and_name(path).0 == Seq::<char>::empty() && owner_and_name(path).1 == path,
{
    lemma_split_join(path, '/');
    let parts = split_char(path, '/');
    reveal_strlit("/");
    assert("/"@ =~= seq!['/']);
    assert(parts.last() == parts[parts.len() - 1]);
    if parts.len() >= 2 {
        assert(join(parts, seq!['/']) == join(parts.drop_last(), seq!['/']) + seq!['/'] + parts.last());
    } else {
        assert(parts.drop_last() =~= Seq::<Seq<char>>::empty());
        assert(join(parts, seq!['/']) == parts[0]);
    }
}


/// What a query of the words `remote`, `query` asks for next.
#[derive(Debug, Clone, PartialEq, Eq)]
pub enum QueryStep {
    /// Search among all local repositories.
    SearchAll,
    /// The repository visited last.
    LatestAll,
    /// Search among the local repositories of this remote.
    SearchRemote(String),
    /// The repository of this remote visited last.
    LatestRemote(String),
    /// The local repository whose name holds this keyword, best scored.
    FuzzyAll(String),
    /// Search among the local repositories of this remote and owner.
    SearchOwner(String, String),
    /// Choose among the repositories that the remote's provider lists for this owner.
    ProviderOwner(String, String),
    /// The local repository of this remote whose name holds this keyword.
    FuzzyRemote(String, String),
    /// The repository with this remote, owner and name, made when it is missing.
    Repo(String, String, String),
}

/// A query step as plain values.
pub enum QueryStepView {
    SearchAll,
    LatestAll,
    SearchRemote(Seq<char>),
    LatestRemote(Seq<char>),
    FuzzyAll(Seq<char>),
    SearchOwner(Seq<char>, Seq<char>),
    ProviderOwner(Seq<char>, Seq<char>),
    FuzzyRemote(Seq<char>, Seq<char>),
    Repo(Seq<char>, Seq<char>, Seq<char>),
}

impl View for QueryStep {
    type V = QueryStepView;

    open spec fn view(&self) -> QueryStepView {
        match self {
            QueryStep::SearchAll => QueryStepView::SearchAll,
            QueryStep::LatestAll => QueryStepView::LatestAll,
            QueryStep::SearchRemote(r) => QueryStepView::SearchRemote(r@),
            QueryStep::LatestRemote(r) => QueryStepView::LatestRemote(r@),
            QueryStep::FuzzyAll(k) => QueryStepView::FuzzyAll(k@),
            QueryStep::SearchOwner(r, o) => QueryStepView::SearchOwner(r@, o@),
            QueryStep::ProviderOwner(r, o) => QueryStepView::ProviderOwner(r@, o@),
            QueryStep::FuzzyRemote(r, n) => QueryStepView::FuzzyRemote(r@, n@),
            QueryStep::Repo(r, o, n) => QueryStepView::Repo(r@, o@, n@),
        }
    }
}

/// What the words `q` ask for: none, the latest repository or a search of
/// all; one, a remote (its latest repository, or a search of it) or else a
/// keyword; two, a remote and then `owner/` (a search of the owner's local
/// repositories where only local ones count or the remote has no provider,
/// else the provider's list), a bare name (a keyword within the remote), or
/// `owner/name`. Two words whose first is no remote name that remote (`Err`).
pub open spec fn query_step_spec(
    q: Seq<Seq<char>>,
    search: bool,
    local_only: bool,
    first_is_remote: bool,
    has_provider: bool,
) -> Result<QueryStepView, Seq<char>> {
    if q.len() == 0 {
        Ok(if search { QueryStepView::SearchAll } else { QueryStepView::LatestAll })
    } else if q.len() == 1 {
        Ok(if !first_is_remote {
            QueryStepView::FuzzyAll(q[0])
        } else if search {
            QueryStepView::SearchRemote(q[0])
        } else {
            QueryStepView::LatestRemote(q[0])
        })
    } else if !first_is_remote {
        Err(q[0])
    } else {
        let w = q[1];
        if w.len() > 0 && w.last() == '/' {
            let owner = w.drop_last();
            Ok(if local_only || !has_provider {
                QueryStepView::SearchOwner(q[0], owner)
            } else {
                QueryStepView::ProviderOwner(q[0], owner)
            })
        } else {
            let (o, n) = owner_and_name(w);
            Ok(if o.len() == 0 {
                QueryStepView::FuzzyRemote(q[0], n)
            } else {
                QueryStepView::Repo(q[0], o, n)
            })
        }
    }
}

/// What the query `query` asks for next; `first_is_remote` tells whether its
/// first word names a configured remote, and `has_provider` whether that
/// remote has a provider to list repositories.
pub fn query_step(query: &Vec<String>, search: bool, local_only: bool, first_is_remote: bool, has_provider: bool) -> (r: Result<QueryStep, Error>)
    ensures
        match query_step_spec(strs(query@), search, local_only, first_is_remote, has_provider) {
            Ok(v) => r matches Ok(s) && s@ == v,
            Err(n) => r matches Err(Error::RemoteNotFound(x)) && x@ == n,
        },
{
    proof {
        if query.len() > 0 {
            assert(strs(query@)[0] == query@[0]@);
        }
        if query.len() > 1 {
            assert(strs(query@)[1] == query@[1]@);
        }
    }
    if query.len() == 0 {
        return Ok(if search { QueryStep::SearchAll } else { QueryStep::LatestAll });
    }
    let first = owned(query[0].as_str());
    if query.len() == 1 {
        return Ok(if !first_is_remote {
            QueryStep::FuzzyAll(first)
        } else if search {
            QueryStep::SearchRemote(first)
        } else {
            QueryStep::LatestRemote(first)
        });
    }
    if !first_is_remote {
        return Err(Error::RemoteNotFound(first));
    }
    let w = query[1].as_str();
    let v = crate::text::chars_of(w);
    if v.len() > 0 && v[v.len() - 1] == '/' {
        let owner = crate::text::string_of(&v, 0, v.len() - 1);
        proof {
            assert(owner@ =~= w@.drop_last());
        }
        return Ok(if local_only || !has_provider {
            QueryStep::SearchOwner(first, owner)
        } else {
            QueryStep::ProviderOwner(first, owner)
        });
    }
    let (o, n) = parse_owner(w);
    if o.as_str().is_empty() {
        Ok(QueryStep::FuzzyRemote(first, n))
    } else {
        Ok(QueryStep::Repo(first, o, n))
    }
}

} // verus!
