//! Running a bash script for a repository.
use vstd::prelude::*;

use crate::exec::{strs_of, Cmd, CmdConfig, CmdHint};
use crate::text::strs;

verus! {

/// The command that runs the script `file` with the configured shell in `path`,
/// with the given environment; announced by `message`, or silent when `mute`.
pub fn run(cfg: &CmdConfig, path: &str, file: &str, envs: &[(&str, &str)], message: &str, mute: bool) -> (c: Cmd)
    ensures
        c.program@ == cfg.name@,
        strs(c.args@) == strs(cfg.args@).push(file@),
        c.dir matches Some(d) && d@ == path@,
        c.input is None,
        mute ==> c.hint == CmdHint::Silent,
        !mute ==> (c.hint matches CmdHint::Message(m) && m@ == message@),
        c.envs@.len() == envs@.len(),
        forall|i: int| 0 <= i < envs@.len() ==> (#[trigger] c.envs@[i]).0@ == envs@[i].0@ && c.envs@[i].1@ == envs@[i].1@,
{
    let a: &[&str] = &[file];
    assert(strs_of(a@) =~= seq![file@]);
    let mut cmd = cfg.new_cmd().args(a).current_dir(path);
    assert(strs(cmd.args@) =~= strs(cfg.args@).push(file@));
    if mute {
        cmd = cmd.mute();
    } else {
        cmd = cmd.message(message);
    }
    let mut i: usize = 0;
    while i < envs.len()
        invariant
            i <= envs.len(),
            cmd.program@ == cfg.name@,
            strs(cmd.args@) == strs(cfg.args@).push(file@),
            cmd.dir matches Some(d) && d@ == path@,
            cmd.input is None,
            mute ==> cmd.hint == CmdHint::Silent,
            !mute ==> (cmd.hint matches CmdHint::Message(m) && m@ == message@),
            cmd.envs@.len() == i,
            forall|j: int| 0 <= j < i ==> (#[trigger] cmd.envs@[j]).0@ == envs@[j].0@ && cmd.envs@[j].1@ == envs@[j].1@,
        decreases envs.len() - i,
    {
        let (k, v) = envs[i];
        let ghost prev = cmd.envs@;
        cmd = cmd.env(k, v);
        assert forall|j: int| 0 <= j < i + 1 implies (#[trigger] cmd.envs@[j]).0@ == envs@[j].0@ && cmd.envs@[j].1@ == envs@[j].1@ by {
            if j < i {
                assert(cmd.envs@.drop_last()[j] == prev[j]);
            }
        }
        i += 1;
    }
    cmd
}

} // verus!
