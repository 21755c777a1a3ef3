//! The hooks that run once a repository has been created.
use vstd::prelude::*;

use crate::error::Error;
use crate::exec::bash;
use crate::exec::{Cmd, CmdConfig, CmdHint};
use crate::repo::database::bucket::{distinct_keys, find_key, has_key, lookup, lemma_lookup_at};
use crate::text::{concat, owned, strs};

verus! {

/// `c` runs the hook script `file` with the shell `cfg` in `path`, with
/// `REPO_REMOTE`, `REPO_NAME` and `REPO_OWNER` set, announced as the hook
/// `hook` unless `mute`.
pub open spec fn hook_cmd(
    c: Cmd,
    cfg: CmdConfig,
    path: Seq<char>,
    file: Seq<char>,
    hook: Seq<char>,
    remote: Seq<char>,
    owner: Seq<char>,
    name: Seq<char>,
    mute: bool,
) -> bool {
    &&& c.program@ == cfg.name@
    &&& strs(c.args@) == strs(cfg.args@).push(file)
    &&& c.dir matches Some(d) && d@ == path
    &&& c.input is None
    &&& mute ==> c.hint == CmdHint::Silent
    &&& !mute ==> (c.hint matches CmdHint::Message(m) && m@ == "Running create hook: "@ + hook)
    &&& c.envs@.len() == 3
    &&& c.envs@[0].0@ == "REPO_REMOTE"@ && c.envs@[0].1@ == remote
    &&& c.envs@[1].0@ == "REPO_NAME"@ && c.envs@[1].1@ == name
    &&& c.envs@[2].0@ == "REPO_OWNER"@ && c.envs@[2].1@ == owner
}

/// `m` is where the first hook of `on_create` that `hooks` lacks stands, or the end.
pub open spec fn first_missing(on_create: Seq<String>, hooks: Seq<(String, String)>, m: int) -> bool {
    &&& 0 <= m <= on_create.len()
    &&& (m == on_create.len() || !has_key(hooks, on_create[m]@))
    &&& forall|k: int| 0 <= k < m ==> has_key(hooks, (#[trigger] on_create[k])@)
}

/// The commands that run the creation hooks `on_create` of the repository
/// `remote:owner/name` in `path`, each the script that `hooks` gives for its
/// name, in order; they stop at the first name that `hooks` lacks, and then
/// the error says which. (Hooks before that name still run, as they did.)
pub fn create_hooks(
    cfg: &CmdConfig,
    path: &str,
    on_create: &Vec<String>,
    hooks: &Vec<(String, String)>,
    remote: &str,
    owner: &str,
    name: &str,
    mute: bool,
) -> (r: (Vec<Cmd>, Option<Error>))
    requires
        distinct_keys(hooks@),
    ensures
        first_missing(on_create@, hooks@, r.0.len() as int),
        r.0.len() < on_create.len() ==> (r.1 matches Some(Error::HookNotFound(h)) && h@ == on_create@[r.0.len() as int]@),
        r.0.len() == on_create.len() ==> r.1 is None,
        forall|k: int| 0 <= k < r.0.len() ==> hook_cmd(
            #[trigger] r.0@[k],
            *cfg,
            path@,
            lookup(hooks@, on_create@[k]@)->0@,
            on_create@[k]@,
            remote@,
            owner@,
            name@,
            mute,
        ),
{
    let mut cmds: Vec<Cmd> = Vec::new();
    let mut i: usize = 0;
    while i < on_create.len()
        invariant
            i <= on_create.len(),
            distinct_keys(hooks@),
            cmds.len() == i,
            forall|k: int| 0 <= k < i ==> has_key(hooks@, (#[trigger] on_create@[k])@),
            forall|k: int| 0 <= k < cmds.len() ==> hook_cmd(
                #[trigger] cmds@[k],
                *cfg,
                path@,
                lookup(hooks@, on_create@[k]@)->0@,
                on_create@[k]@,
                remote@,
                owner@,
                name@,
                mute,
            ),
        decreases on_create.len() - i,
    {
        let hook = on_create[i].as_str();
        let j = match find_key(hooks, hook) {
            Some(j) => j,
            None => {
                return (cmds, Some(Error::HookNotFound(owned(hook))));
            },
        };
        proof {
            lemma_lookup_at(hooks@, j as int);
        }
        let message = concat("Running create hook: ", hook);
        let envs: [(&str, &str); 3] = [("REPO_REMOTE", remote), ("REPO_NAME", name), ("REPO_OWNER", owner)];
        let c = bash::run(cfg, path, hooks[j].1.as_str(), envs.as_slice(), message.as_str(), mute);
        proof {
            reveal_strlit("REPO_REMOTE");
            reveal_strlit("REPO_NAME");
            reveal_strlit("REPO_OWNER");
        }
        cmds.push(c);
        i = i + 1;
    }
    (cmds, None)
}

} // verus!
