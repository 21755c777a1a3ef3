//! Repositories in the workspace: where they live and how they are chosen.
use vstd::prelude::*;

use crate::db::{unescape, Repository};
use crate::text::{chars_of, eq_str, lemma_split_char_nonempty, owned, split_char, split_char_str, strs};

pub mod hook;
pub mod ops;
pub mod disk_usage;
pub mod keywords;
pub mod mirror;
pub mod current;
pub mod query;
pub mod database;
pub mod select;
pub mod detect;
pub mod restore;
pub mod backup;
pub mod scan_orphans;
pub mod bytes;
pub mod create;
pub mod tmp_mark;
pub mod snapshot;



verus! {

/// The segments of a path that name something: neither empty nor `.`.
pub open spec fn keep_normal(ss: Seq<Seq<char>>) -> Seq<Seq<char>>
    decreases ss.len(),
{
    if ss.len() == 0 {
        Seq::empty()
    } else {
        let r = keep_normal(ss.drop_last());
        if ss.last().len() > 0 && ss.last() != seq!['.'] {
            r.push(ss.last())
        } else {
            r
        }
    }
}

/// The components of a Unix path as `Path::components` yields them, each as
/// its text: `/` for the root, `.` for a leading current directory, then the
/// named segments.
pub open spec fn path_parts(p: Seq<char>) -> Seq<Seq<char>> {
    let segs = split_char(p, '/');
    if p.len() > 0 && p[0] == '/' {
        seq![seq!['/']] + keep_normal(segs.skip(1))
    } else if segs[0] == seq!['.'] {
        seq![seq!['.']] + keep_normal(segs.skip(1))
    } else {
        keep_normal(segs)
    }
}

/// The components of `path` below `base`, when `base` is a prefix of it
/// component by component (`Path::strip_prefix`).
pub open spec fn relative_parts(base: Seq<char>, path: Seq<char>) -> Option<Seq<Seq<char>>> {
    let b = path_parts(base);
    let p = path_parts(path);
    if b.len() <= p.len() && p.take(b.len() as int) == b {
        Some(p.skip(b.len() as int))
    } else {
        None
    }
}

/// Remote, owner and name of the repository directory that `path` is in,
/// under `workspace/remote/owner/name`.
pub open spec fn workspace_repo(workspace: Seq<char>, path: Seq<char>) -> Option<(Seq<char>, Seq<char>, Seq<char>)> {
    match relative_parts(workspace, path) {
        Some(rel) => if rel.len() >= 3 {
            Some((unescape(rel[0]), unescape(rel[1]), rel[2]))
        } else {
            None
        },
        None => None,
    }
}

proof fn lemma_keep_normal_step(ss: Seq<Seq<char>>, a: int, i: int)
    requires
        0 <= a <= i < ss.len(),
    ensures
        keep_normal(ss.subrange(a, i + 1)) == if ss[i].len() > 0 && ss[i] != seq!['.'] {
            keep_normal(ss.subrange(a, i)).push(ss[i])
        } else {
            keep_normal(ss.subrange(a, i))
        },
{
    assert(ss.subrange(a, i + 1).drop_last() =~= ss.subrange(a, i));
}

/// The components of `p`, as `path_parts` gives them.
pub fn path_parts_of(p: &str) -> (r: Vec<String>)
    ensures
        strs(r@) == path_parts(p@),
{
    let segs = split_char_str(p, '/');
    let v = chars_of(p);
    proof {
        lemma_split_char_nonempty(p@, '/');
        reveal_strlit("/");
        reveal_strlit(".");
        assert("."@ =~= seq!['.']);
        assert("/"@ =~= seq!['/']);
    }
    let ghost ss = strs(segs@);
    let mut r: Vec<String> = Vec::new();
    let start: usize;
    if v.len() > 0 && v[0] == '/' {
        r.push(owned("/"));
        start = 1;
    } else if eq_str(segs[0].as_str(), ".") {
        r.push(owned("."));
        start = 1;
    } else {
        start = 0;
    }
    let ghost head = strs(r@);
    assert(ss[0] == segs@[0]@);
    assert(ss.subrange(start as int, start as int) =~= Seq::<Seq<char>>::empty());
    assert(strs(r@) =~= head + keep_normal(ss.subrange(start as int, start as int)));
    let mut i: usize = start;
    while i < segs.len()
        invariant
            ss == strs(segs@),
            ss.len() >= 1,
            start <= 1,
            start <= i <= segs.len(),
            strs(r@) == head + keep_normal(ss.subrange(start as int, i as int)),
        decreases segs.len() - i,
    {
        proof {
            lemma_keep_normal_step(ss, start as int, i as int);
            reveal_strlit(".");
            assert("."@ =~= seq!['.']);
        }
        assert(ss[i as int] == segs@[i as int]@);
        let s = segs[i].as_str();
        let ghost before = strs(r@);
        if !s.is_empty() && !eq_str(s, ".") {
            r.push(owned(s));
            assert(strs(r@) =~= before.push(s@));
        }
        assert(strs(r@) =~= head + keep_normal(ss.subrange(start as int, i + 1)));
        i += 1;
    }
    assert(ss.subrange(start as int, ss.len() as int) =~= ss.skip(start as int));
    assert(ss.skip(0) =~= ss);
    r
}

/// Remote, owner and name of the repository that `path` lies in, when it lies
/// at least three levels below `workspace`; the remote and the owner are read
/// back from their escaped directory names.
pub fn parse_workspace_path(workspace: &str, path: &str) -> (r: Option<(String, String, String)>)
    ensures
        match workspace_repo(workspace@, path@) {
            Some((remote, owner, name)) => r matches Some((a, b, c)) && a@ == remote && b@ == owner && c@ == name,
            None => r is None,
        },
{
    let b = path_parts_of(workspace);
    let p = path_parts_of(path);
    let ghost bs = strs(b@);
    let ghost ps = strs(p@);
    if b.len() > p.len() {
        assert(bs.len() > ps.len());
        return None;
    }
    let mut i: usize = 0;
    while i < b.len()
        invariant
            bs == strs(b@),
            ps == strs(p@),
            bs == path_parts(workspace@),
            ps == path_parts(path@),
            b.len() <= p.len(),
            i <= b.len(),
            ps.take(i as int) == bs.take(i as int),
        decreases b.len() - i,
    {
        if !eq_str(b[i].as_str(), p[i].as_str()) {
            assert(ps[i as int] == p@[i as int]@ && bs[i as int] == b@[i as int]@);
            assert(ps.take(bs.len() as int)[i as int] != bs[i as int]);
            assert(ps.take(bs.len() as int) != bs);
            return None;
        }
        assert(ps.take(i + 1) =~= ps.take(i as int).push(ps[i as int]));
        assert(bs.take(i + 1) =~= bs.take(i as int).push(bs[i as int]));
        i += 1;
    }
    assert(bs.take(bs.len() as int) =~= bs);
    let n = b.len();
    assert(ps.take(bs.len() as int) == bs);
    assert(relative_parts(workspace@, path@) == Some(ps.skip(n as int)));
    if p.len() - n < 3 {
        assert(ps.skip(n as int).len() < 3);
        return None;
    }
    let ghost rel = ps.skip(n as int);
    assert(rel[0] == p@[n as int]@ && rel[1] == p@[n + 1]@ && rel[2] == p@[n + 2]@);
    let remote = Repository::parse_escaped_path(p[n].as_str());
    let owner = Repository::parse_escaped_path(p[n + 1].as_str());
    let name = owned(p[n + 2].as_str());
    Some((remote, owner, name))
}

proof fn lemma_split_concat(a: Seq<char>, b: Seq<char>, c: char)
    ensures
        split_char(a + seq![c] + b, c) == split_char(a, c) + split_char(b, c),
    decreases b.len(),
{
    lemma_split_char_nonempty(a, c);
    lemma_split_char_nonempty(b, c);
    if b.len() == 0 {
        assert(a + seq![c] + b =~= a.push(c));
        assert((a + seq![c] + b).drop_last() =~= a);
        assert(split_char(b, c) =~= seq![Seq::<char>::empty()]);
        assert(split_char(a, c).push(Seq::<char>::empty()) =~= split_char(a, c) + split_char(b, c));
    } else {
        let b1 = b.drop_last();
        let x = b.last();
        lemma_split_concat(a, b1, c);
        lemma_split_char_nonempty(b1, c);
        let whole = a + seq![c] + b;
        assert(whole.drop_last() =~= a + seq![c] + b1);
        assert(whole.last() == x);
        let l = split_char(a, c);
        let r = split_char(b1, c);
        if x == c {
            assert((l + r).push(Seq::<char>::empty()) =~= l + r.push(Seq::<char>::empty()));
        } else {
            let lr = l + r;
            assert(lr.update(lr.len() - 1, lr.last().push(x)) =~= l + r.update(r.len() - 1, r.last().push(x)));
        }
    }
}

proof fn lemma_split_plain(x: Seq<char>, c: char)
    requires
        !x.contains(c),
    ensures
        split_char(x, c) == seq![x],
    decreases x.len(),
{
    if x.len() > 0 {
        let t = x.drop_last();
        assert(!t.contains(c)) by {
            if t.contains(c) {
                let j = choose|j: int| 0 <= j < t.len() && t[j] == c;
                assert(x[j] == c);
            }
        }
        lemma_split_plain(t, c);
        assert(x.last() != c) by { assert(x[x.len() - 1] == x.last()); }
        assert(x =~= t.push(x.last()));
        assert(seq![t].update(0, t.push(x.last())) =~= seq![x]);
    } else {
        assert(x =~= Seq::<char>::empty());
    }
}

proof fn lemma_keep_normal_concat(x: Seq<Seq<char>>, y: Seq<Seq<char>>)
    ensures
        keep_normal(x + y) == keep_normal(x) + keep_normal(y),
    decreases y.len(),
{
    if y.len() == 0 {
        assert(x + y =~= x);
        assert(keep_normal(x) + keep_normal(y) =~= keep_normal(x));
    } else {
        lemma_keep_normal_concat(x, y.drop_last());
        assert((x + y).drop_last() =~= x + y.drop_last());
        assert((x + y).last() == y.last());
        let ky = keep_normal(y.drop_last());
        assert((keep_normal(x) + ky).push(y.last()) =~= keep_normal(x) + ky.push(y.last()));
    }
}

proof fn lemma_unescape_escape(s: Seq<char>)
    requires
        !s.contains('.'),
    ensures
        unescape(crate::db::escape(s)) == s,
        !crate::db::escape(s).contains('/'),
        !crate::db::escape(s).contains('.') || s.contains('/'),
{
    let e = crate::db::escape(s);
    assert forall|i: int| 0 <= i < s.len() implies unescape(e)[i] == s[i] by {
        assert(s[i] != '.');
    }
    assert(unescape(e) =~= s);
    if e.contains('/') {
        let j = choose|j: int| 0 <= j < e.len() && e[j] == '/';
    }
    if e.contains('.') {
        let j = choose|j: int| 0 <= j < e.len() && e[j] == '.';
        assert(s[j] == '/' || s[j] == '.');
    }
}

/// A repository's directory in the workspace leads back to it:
/// `workspace/remote/owner/name`, with `/` in the remote and the owner
/// written as `.`, is read back as that remote, owner and name. This holds
/// for a non-empty workspace and non-empty parts, where the remote and the
/// owner hold no `.` and are not `/`, and the name holds no `/` and is not `.`.
pub proof fn law_workspace_path_round_trip(workspace: Seq<char>, remote: Seq<char>, owner: Seq<char>, name: Seq<char>)
    requires
        workspace.len() > 0,
        remote.len() > 0 && !remote.contains('.') && remote != seq!['/'],
        owner.len() > 0 && !owner.contains('.') && owner != seq!['/'],
        name.len() > 0 && !name.contains('/') && name != seq!['.'],
    ensures
        workspace_repo(workspace, workspace + "/"@ + crate::db::escape(remote) + "/"@ + crate::db::escape(owner) + "/"@ + name)
            == Some((remote, owner, name)),
{
    reveal_strlit("/");
    let er = crate::db::escape(remote);
    let eo = crate::db::escape(owner);
    lemma_unescape_escape(remote);
    lemma_unescape_escape(owner);
    let path = workspace + "/"@ + er + "/"@ + eo + "/"@ + name;
    let rest = er + seq!['/'] + eo + seq!['/'] + name;
    assert(path =~= workspace + seq!['/'] + rest);
    lemma_split_concat(er + seq!['/'] + eo, name, '/');
    lemma_split_concat(er, eo, '/');
    lemma_split_plain(er, '/');
    lemma_split_plain(eo, '/');
    lemma_split_plain(name, '/');
    let parts = seq![er, eo, name];
    assert(split_char(rest, '/') =~= parts);
    assert(er.len() > 0 && er != seq!['.']) by {
        assert(er.len() == remote.len());
        if er == seq!['.'] {
            assert(er[0] == '.');
            assert(remote[0] != '.') by { if remote[0] == '.' { assert(remote.contains('.')); } }
            assert(remote[0] == '/');
            assert(remote =~= seq!['/']);
        }
    }
    assert(eo.len() > 0 && eo != seq!['.']) by {
        assert(eo.len() == owner.len());
        if eo == seq!['.'] {
            assert(eo[0] == '.');
            assert(owner[0] != '.') by { if owner[0] == '.' { assert(owner.contains('.')); } }
            assert(owner[0] == '/');
            assert(owner =~= seq!['/']);
        }
    }
    assert(keep_normal(parts) =~= parts) by {
        reveal_with_fuel(keep_normal, 4);
        assert(parts.drop_last() =~= seq![er, eo]);
        assert(parts.drop_last().drop_last() =~= seq![er]);
        assert(parts.drop_last().drop_last().drop_last() =~= Seq::<Seq<char>>::empty());
    }
    lemma_split_concat(workspace, rest, '/');
    lemma_split_char_nonempty(workspace, '/');
    let sw = split_char(workspace, '/');
    let sp = split_char(path, '/');
    assert(sp == sw + parts);
    assert(path[0] == workspace[0]);
    if workspace[0] == '/' {
        assert(sp.skip(1) =~= sw.skip(1) + parts);
        lemma_keep_normal_concat(sw.skip(1), parts);
    } else if sw[0] == seq!['.'] {
        assert(sp[0] == sw[0]);
        assert(sp.skip(1) =~= sw.skip(1) + parts);
        lemma_keep_normal_concat(sw.skip(1), parts);
    } else {
        assert(sp[0] == sw[0]);
        lemma_keep_normal_concat(sw, parts);
    }
    let pw = path_parts(workspace);
    let pp = path_parts(path);
    assert(pp =~= pw + parts);
    assert(pp.take(pw.len() as int) =~= pw);
    assert(pp.skip(pw.len() as int) =~= parts);
}

} // verus!
