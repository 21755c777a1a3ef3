//! Git commands of a repository and the reading of their output.
pub mod branch;
pub mod commit;
pub mod remote;
pub mod tag;

use vstd::prelude::*;

use crate::exec::{strs_of, Cmd, CmdConfig, CmdHint};
use crate::text::{owned, strs, concat};
use vstd::string::StringSliceAdditionalSpecFns;

verus! {

/// Git, run in a repository's directory.
#[derive(Debug, Clone)]
pub struct GitCmd {
    pub cmd_cfg: CmdConfig,
    pub work_dir: String,
    pub mute: bool,
}

/// Longest commit message shown in full.
pub const MAX_COMMIT_MESSAGE_LEN: usize = 40;

/// The display form of a commit message: whole when it holds at most
/// `MAX_COMMIT_MESSAGE_LEN` bytes, otherwise its first bytes followed by `...`.
pub open spec fn short_message_spec(m: &str, r: Seq<char>) -> bool {
    if m.spec_bytes().len() > MAX_COMMIT_MESSAGE_LEN {
        exists|head: Seq<char>|
            vstd::utf8::encode_utf8(head) == m.spec_bytes().take(MAX_COMMIT_MESSAGE_LEN as int) && r == head + "..."@
    } else {
        r == m@
    }
}

/// `c` is the git command with arguments `args`, run in the work directory of
/// `g` and announced by `message` (or silent when `g` is muted).
pub open spec fn git_cmd_spec(g: GitCmd, args: Seq<Seq<char>>, message: Seq<char>, c: Cmd) -> bool {
    &&& c.program@ == g.cmd_cfg.name@
    &&& strs(c.args@) == strs(g.cmd_cfg.args@) + args
    &&& c.dir matches Some(d) && d@ == g.work_dir@
    &&& c.input is None
    &&& c.envs@.len() == 0
    &&& g.mute ==> c.hint == CmdHint::Silent
    &&& !g.mute ==> (c.hint matches CmdHint::Message(m) && m@ == message)
}

impl GitCmd {
    pub fn new(cfg: &CmdConfig, work_dir: &str, mute: bool) -> (g: GitCmd)
        ensures
            g.cmd_cfg.name@ == cfg.name@,
            strs(g.cmd_cfg.args@) == strs(cfg.args@),
            g.work_dir@ == work_dir@,
            g.mute == mute,
    {
        GitCmd {
            cmd_cfg: CmdConfig { name: cfg.name.clone(), args: crate::exec::clone_strings(&cfg.args) },
            work_dir: owned(work_dir),
            mute,
        }
    }

    /// The git command with these arguments, in the work directory, announced
    /// by `message` (or silent when muted).
    pub fn cmd(&self, args: &[&str], message: &str) -> (c: Cmd)
        ensures
            git_cmd_spec(*self, strs_of(args@), message@, c),
    {
        let c = self.cmd_cfg.new_cmd().args(args).message(message).current_dir(self.work_dir.as_str());
        if self.mute {
            return c.mute();
        }
        c
    }
}

/// A commit message shortened for display.
pub fn short_message(message: &str) -> (r: String)
    requires
        message.spec_bytes().len() <= usize::MAX,
        message.spec_bytes().len() > MAX_COMMIT_MESSAGE_LEN ==> vstd::utf8::is_char_boundary(
            message.spec_bytes(),
            MAX_COMMIT_MESSAGE_LEN as int,
        ),
    ensures
        short_message_spec(message, r@),
{
    if message.len() > MAX_COMMIT_MESSAGE_LEN {
        let (head, _) = message.split_at(MAX_COMMIT_MESSAGE_LEN);
        let r = concat(head, "...");
        assert(vstd::utf8::encode_utf8(head@) == message.spec_bytes().take(MAX_COMMIT_MESSAGE_LEN as int));
        assert(r@ == head@ + "..."@);
        assert(exists|h: Seq<char>|
            vstd::utf8::encode_utf8(h) == message.spec_bytes().take(MAX_COMMIT_MESSAGE_LEN as int) && r@ == h + "..."@);
        r
    } else {
        owned(message)
    }
}

} // verus!
