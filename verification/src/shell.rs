//! Workflows: scripts and files applied to a repository step by step.
use vstd::prelude::*;

use crate::db::Repository;
use crate::error::Error;
use crate::exec::{Cmd, CmdHint};
use crate::text::{concat, eq_str, starts_with};

verus! {

/// One step of a workflow: run a script, or write a file with this name.
#[derive(Debug, Clone, Default, PartialEq, Eq)]
pub struct WorkflowStep {
    pub name: String,
    pub run: Option<String>,
    pub file: Option<String>,
}

/// A workflow found by its name.
#[derive(Debug, Clone, PartialEq, Eq)]
pub struct Workflow {
    pub name: String,
    pub steps: Vec<WorkflowStep>,
}

/// What a step of a workflow does in a repository.
#[derive(Debug)]
pub enum WorkflowAction {
    /// Run this command.
    Run(Cmd),
    /// Write this content to this path.
    CreateFile(String, String),
}

/// `s` with each occurrence of `pat`, from left to right and not
/// overlapping, replaced by `to` (`str::replace` with a non-empty pattern).
pub open spec fn replace(s: Seq<char>, pat: Seq<char>, to: Seq<char>) -> Seq<char>
    decreases s.len(),
{
    if s.len() == 0 || pat.len() == 0 {
        s
    } else if starts_with(s, pat) {
        to + replace(s.skip(pat.len() as int), pat, to)
    } else {
        seq![s[0]] + replace(s.skip(1), pat, to)
    }
}

/// `str::replace` with a non-empty pattern.
pub fn replace_str(s: &str, pat: &str, to: &str) -> (r: String)
    ensures
        r@ == replace(s@, pat@, to@),
{
    let v = crate::text::chars_of(s);
    let p = crate::text::chars_of(pat);
    let mut r = String::new();
    if p.len() == 0 {
        return crate::text::owned(s);
    }
    let mut i: usize = 0;
    assert(v@.skip(0) =~= v@);
    while i < v.len()
        invariant
            v@ == s@,
            p@ == pat@,
            p.len() > 0,
            i <= v.len(),
            r@ + replace(v@.skip(i as int), pat@, to@) == replace(s@, pat@, to@),
        decreases v.len() - i,
    {
        let ghost rest = v@.skip(i as int);
        let mut k: usize = 0;
        let mut hit = p.len() <= v.len() - i;
        while hit && k < p.len()
            invariant
                k <= p.len(),
                i + p.len() <= v.len() || !hit,
                hit ==> forall|j: int| 0 <= j < k ==> v@[i + j] == p@[j],
                !hit ==> !starts_with(v@.skip(i as int), p@),
            decreases p.len() - k,
        {
            if v[i + k] != p[k] {
                hit = false;
                assert(v@.skip(i as int).subrange(0, p@.len() as int)[k as int] != p@[k as int]);
            }
            k += 1;
        }
        if hit {
            assert(v@.skip(i as int).subrange(0, p@.len() as int) =~= p@);
            assert(v@.skip(i as int).skip(p@.len() as int) =~= v@.skip((i + p.len()) as int));
            let ghost r0 = r@;
            r = concat(r.as_str(), to);
            assert(r0 + (to@ + replace(v@.skip((i + p.len()) as int), pat@, to@)) =~= r@ + replace(v@.skip((i + p.len()) as int), pat@, to@));
            i = i + p.len();
        } else {
            assert(v@.skip(i as int).skip(1) =~= v@.skip(i + 1));
            let ghost r0 = r@;
            crate::text::push_char(&mut r, v[i]);
            assert(r0 + (seq![v@[i as int]] + replace(v@.skip(i + 1), pat@, to@)) =~= r@ + replace(v@.skip(i + 1), pat@, to@));
            i = i + 1;
        }
    }
    assert(v@.skip(v.len() as int) =~= Seq::<char>::empty());
    assert(r@ + Seq::<char>::empty() =~= r@);
    r
}

/// The command that runs `script` with `sh` in `dir`, its standard output
/// sent to standard error, with the repository in its environment.
pub open spec fn workflow_cmd_spec(script: Seq<char>, dir: Seq<char>, repo: Repository, desc: Seq<char>, c: Cmd) -> bool {
    &&& c.program@ == "sh"@
    &&& crate::text::strs(c.args@) == seq!["-c"@, script + " > /dev/stderr"@]
    &&& c.dir matches Some(d) && d@ == dir
    &&& c.input is None
    &&& c.envs@.len() == 5
    &&& c.envs@[0].0@ == "REPO_NAME"@ && c.envs@[0].1@ == repo.name@
    &&& c.envs@[1].0@ == "REPO_OWNER"@ && c.envs@[1].1@ == repo.owner@
    &&& c.envs@[2].0@ == "REMOTE"@ && c.envs@[2].1@ == repo.remote@
    &&& c.envs@[3].0@ == "REPO_LONG"@ && c.envs@[3].1@ == repo.owner@ + "/"@ + repo.name@
    &&& c.envs@[4].0@ == "REPO_FULL"@ && c.envs@[4].1@ == repo.remote@ + ":"@ + repo.owner@ + "/"@ + repo.name@
    &&& c.hint matches CmdHint::Message(m) && m@ == desc
}

/// What the steps do in `repo` at `dir`, in order: a script runs with its
/// lines joined by `;`; a file is written under `dir` with `\t` written as a
/// tab; a step with neither does nothing.
pub open spec fn workflow_actions_spec(steps: Seq<WorkflowStep>, repo: Repository, dir: Seq<char>, r: Seq<WorkflowAction>) -> bool {
    exists|idx: Seq<int>| {
        &&& idx.len() == r.len()
        &&& forall|a: int, b: int| 0 <= a < b < idx.len() ==> idx[a] < idx[b]
        &&& forall|a: int| 0 <= a < idx.len() ==> 0 <= #[trigger] idx[a] < steps.len() && step_action(steps[idx[a]], repo, dir, r[a])
        &&& forall|j: int| 0 <= j < steps.len() && (steps[j].run is Some || steps[j].file is Some) ==> exists|a: int| 0 <= a < idx.len() && #[trigger] idx[a] == j
    }
}

/// What one step does.
pub open spec fn step_action(step: WorkflowStep, repo: Repository, dir: Seq<char>, a: WorkflowAction) -> bool {
    match step.run {
        Some(run) => a matches WorkflowAction::Run(c) && workflow_cmd_spec(replace(run@, "\n"@, ";"@), dir, repo, "Run "@ + step.name@, c),
        None => match step.file {
            Some(content) => a matches WorkflowAction::CreateFile(path, text) && path@ == dir + "/"@ + step.name@
                && text@ == replace(content@, "\\t"@, "\t"@),
            None => false,
        },
    }
}

impl WorkflowStep {
    /// A copy with the same fields.
    pub fn duplicate(&self) -> (r: WorkflowStep)
        ensures
            r == *self,
    {
        WorkflowStep {
            name: self.name.clone(),
            run: match &self.run { Some(x) => Some(x.clone()), None => None },
            file: match &self.file { Some(x) => Some(x.clone()), None => None },
        }
    }
}

fn copy_steps(v: &Vec<WorkflowStep>) -> (r: Vec<WorkflowStep>)
    ensures
        r@ == v@,
{
    let mut r: Vec<WorkflowStep> = Vec::new();
    let mut i: usize = 0;
    while i < v.len()
        invariant
            i <= v.len(),
            r@ == v@.take(i as int),
        decreases v.len() - i,
    {
        r.push(v[i].duplicate());
        i += 1;
        assert(r@ =~= v@.take(i as int));
    }
    assert(v@.take(v.len() as int) =~= v@);
    r
}

impl Workflow {
    /// The workflow named `name` among the configured ones.
    pub fn new(name: &str, workflows: &Vec<Workflow>) -> (r: Result<Workflow, Error>)
        ensures
            match r {
                Ok(w) => w.name@ == name@ && exists|i: int| 0 <= i < workflows@.len() && #[trigger] workflows@[i].name@ == name@
                    && w.steps@ == workflows@[i].steps@,
                Err(e) => (e matches Error::Message(m) && m@ == "Could not find workeflow "@ + name@)
                    && forall|i: int| 0 <= i < workflows@.len() ==> (#[trigger] workflows@[i]).name@ != name@,
            },
    {
        let mut i: usize = 0;
        while i < workflows.len()
            invariant
                i <= workflows.len(),
                forall|k: int| 0 <= k < i ==> (#[trigger] workflows@[k]).name@ != name@,
            decreases workflows.len() - i,
        {
            if eq_str(workflows[i].name.as_str(), name) {
                let w = Workflow { name: crate::text::owned(name), steps: copy_steps(&workflows[i].steps) };
                return Ok(w);
            }
            i += 1;
        }
        Err(Error::Message(concat("Could not find workeflow ", name)))
    }

    /// What the workflow does in `repo` at `dir`.
    pub fn repo_actions(&self, repo: &Repository, dir: &str) -> (r: Vec<WorkflowAction>)
        ensures
            workflow_actions_spec(self.steps@, *repo, dir@, r@),
    {
        let mut r: Vec<WorkflowAction> = Vec::new();
        let ghost mut idx: Seq<int> = Seq::empty();
        let mut i: usize = 0;
        while i < self.steps.len()
            invariant
                i <= self.steps.len(),
                idx.len() == r@.len(),
                forall|a: int, b: int| 0 <= a < b < idx.len() ==> idx[a] < idx[b],
                forall|a: int| 0 <= a < idx.len() ==> 0 <= #[trigger] idx[a] < i && step_action(self.steps@[idx[a]], *repo, dir@, r@[a]),
                forall|j: int| 0 <= j < i && (self.steps@[j].run is Some || self.steps@[j].file is Some) ==> exists|a: int| 0 <= a < idx.len() && #[trigger] idx[a] == j,
            decreases self.steps.len() - i,
        {
            let step = &self.steps[i];
            let ghost ib = idx;
            let ghost rb = r@;
            match &step.run {
                Some(run) => {
                    let script = replace_str(run.as_str(), "\n", ";");
                    let full = concat(script.as_str(), " > /dev/stderr");
                    let args = ["-c", full.as_str()];
                    let long = concat(repo.owner.as_str(), "/");
                    let long = concat(long.as_str(), repo.name.as_str());
                    let fname = repo.full_name();
                    let desc = concat("Run ", step.name.as_str());
                    let c = Cmd::new("sh").args(&args).current_dir(dir).env("REPO_NAME", repo.name.as_str())
                        .env("REPO_OWNER", repo.owner.as_str()).env("REMOTE", repo.remote.as_str())
                        .env("REPO_LONG", long.as_str()).env("REPO_FULL", fname.as_str()).message(desc.as_str());
                    proof {
                        assert(crate::exec::strs_of(args@) =~= seq!["-c"@, full@]);
                        assert(crate::text::strs(c.args@) =~= seq!["-c"@, full@]);
                    }
                    r.push(WorkflowAction::Run(c));
                    proof { idx = idx.push(i as int); }
                },
                None => {
                    match &step.file {
                        Some(content) => {
                            let text = replace_str(content.as_str(), "\\t", "\t");
                            let path = concat(dir, "/");
                            let path = concat(path.as_str(), step.name.as_str());
                            r.push(WorkflowAction::CreateFile(path, text));
                            proof { idx = idx.push(i as int); }
                        },
                        None => {},
                    }
                },
            }
            proof {
                assert forall|a: int| 0 <= a < idx.len() implies 0 <= #[trigger] idx[a] < i + 1 && step_action(self.steps@[idx[a]], *repo, dir@, r@[a]) by {
                    if a < ib.len() {
                        assert(idx[a] == ib[a] && r@[a] == rb[a]);
                    }
                }
                assert forall|j: int| 0 <= j < i + 1 && (self.steps@[j].run is Some || self.steps@[j].file is Some) implies exists|a: int| 0 <= a < idx.len() && #[trigger] idx[a] == j by {
                    if j < i {
                        let a = choose|a: int| 0 <= a < ib.len() && #[trigger] ib[a] == j;
                        assert(idx[a] == j);
                    } else {
                        assert(idx[ib.len() as int] == j);
                    }
                }
            }
            i += 1;
        }
        r
    }
}

} // verus!
