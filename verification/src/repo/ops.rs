//! What is done to a repository: creating it, cloning it, syncing its branches.
use vstd::prelude::*;

use crate::db::{escape, Repository};
use crate::exec::git::branch::{Branch, BranchStatus};
use crate::exec::git::{git_cmd_spec, GitCmd};
use crate::exec::{strs_of, Cmd};
use crate::text::{concat, eq_str, owned};

verus! {

/// How a repository came to be on disk.
#[derive(Debug, Clone, Copy, PartialEq, Eq, Structural)]
pub enum CreateResult {
    /// Created as an empty repository.
    Created,
    /// Cloned from its remote.
    Cloned,
    /// It was there already.
    Exists,
}

/// What the configuration says of a remote.
#[derive(Debug, Clone, Default, PartialEq, Eq)]
pub struct RemoteConfig {
    pub name: String,
    /// The domain to clone from; none when the remote cannot be cloned from.
    pub clone: Option<String>,
}

/// What the configuration says of an owner under a remote.
#[derive(Debug, Clone, Default, PartialEq, Eq)]
pub struct OwnerConfig {
    /// Clone over ssh rather than https.
    pub ssh: bool,
    pub user: Option<String>,
    pub email: Option<String>,
}

/// What to do to a branch when syncing.
#[derive(Debug, Clone, Copy, PartialEq, Eq, Structural)]
pub enum BranchAction {
    Push,
    Pull,
    Delete,
}

/// A branch and what to do to it.
#[derive(Debug, Clone, PartialEq, Eq)]
pub struct BranchTask {
    pub branch: String,
    pub action: BranchAction,
}

/// What a sync did.
#[derive(Debug, Clone, Default, PartialEq, Eq)]
pub struct SyncResult {
    pub name: String,
    pub uncommitted: usize,
    pub pushed: Vec<String>,
    pub pulled: Vec<String>,
    pub deleted: Vec<String>,
    pub conflect: Vec<String>,
    pub detached: Vec<String>,
}

/// The branches to handle, and the branch to come back to.
#[derive(Debug)]
pub struct SyncPlan {
    pub tasks: Vec<BranchTask>,
    /// The branch checked out before the sync.
    pub current: String,
    /// The branch to check out after the sync.
    pub back: String,
    pub conflect: Vec<String>,
    pub detached: Vec<String>,
}

/// Options of a rebase onto a target branch.
#[derive(Debug, Clone, PartialEq, Eq)]
pub struct RebaseOptions {
    pub target: String,
    pub upstream: bool,
    pub force_no_cache: bool,
}

/// Options of a squash of the commits since a target branch.
#[derive(Debug, Clone, PartialEq, Eq)]
pub struct SquashOptions {
    pub target: String,
    pub upstream: bool,
    pub force_no_cache: bool,
    pub message: Option<String>,
}

/// The clone URL of `owner/name` on `domain`, over ssh or https.
pub open spec fn clone_url(domain: Seq<char>, owner: Seq<char>, name: Seq<char>, ssh: bool) -> Seq<char> {
    if ssh {
        "git@"@ + domain + ":"@ + owner + "/"@ + name + ".git"@
    } else {
        "https://"@ + domain + "/"@ + owner + "/"@ + name + ".git"@
    }
}

/// Where a repository lives: its own path, or its place in the workspace.
pub open spec fn repo_path(workspace: Seq<char>, repo: Repository) -> Seq<char> {
    match repo.path {
        Some(p) => p@,
        None => workspace + "/"@ + escape(repo.remote@) + "/"@ + escape(repo.owner@) + "/"@ + repo.name@,
    }
}

impl Repository {
    /// The clone URL of `owner/name` on `domain`.
    pub fn get_clone_url_raw(domain: &str, owner: &str, name: &str, ssh: bool) -> (r: String)
        ensures
            r@ == clone_url(domain@, owner@, name@, ssh),
    {
        let r = if ssh { concat("git@", domain) } else { concat("https://", domain) };
        let r = if ssh { concat(r.as_str(), ":") } else { concat(r.as_str(), "/") };
        let r = concat(r.as_str(), owner);
        let r = concat(r.as_str(), "/");
        let r = concat(r.as_str(), name);
        concat(r.as_str(), ".git")
    }

    /// The clone URL of this repository on `domain`.
    pub fn get_clone_url(&self, domain: &str, ssh: bool) -> (r: String)
        ensures
            r@ == clone_url(domain@, self.owner@, self.name@, ssh),
    {
        Self::get_clone_url_raw(domain, self.owner.as_str(), self.name.as_str(), ssh)
    }

    /// Where the repository lives.
    pub fn get_path(&self, workspace: &str) -> (r: String)
        ensures
            r@ == repo_path(workspace@, *self),
    {
        match &self.path {
            Some(p) => p.clone(),
            None => {
                let r = concat(workspace, "/");
                let e = Self::escaped_path(self.remote.as_str());
                let r = concat(r.as_str(), e.as_str());
                let r = concat(r.as_str(), "/");
                let e = Self::escaped_path(self.owner.as_str());
                let r = concat(r.as_str(), e.as_str());
                let r = concat(r.as_str(), "/");
                concat(r.as_str(), self.name.as_str())
            },
        }
    }
}

/// A git step: its arguments and the message it is announced with.
pub type Step = (Seq<Seq<char>>, Seq<char>);

/// What to do to a branch, by its status: push what is ahead, pull what is
/// behind, delete what is gone upstream unless it is the default branch.
pub open spec fn action_of(b: Branch, default: Seq<char>) -> Option<BranchAction> {
    match b.status {
        BranchStatus::Ahead => Some(BranchAction::Push),
        BranchStatus::Behind => Some(BranchAction::Pull),
        BranchStatus::Gone => if b.name@ == default { None } else { Some(BranchAction::Delete) },
        _ => None,
    }
}

/// The branches to handle, in order, with what to do to each.
pub open spec fn sync_tasks(bs: Seq<Branch>, default: Seq<char>) -> Seq<(Seq<char>, BranchAction)>
    decreases bs.len(),
{
    if bs.len() == 0 {
        Seq::empty()
    } else {
        let r = sync_tasks(bs.drop_last(), default);
        match action_of(bs.last(), default) {
            Some(a) => r.push((bs.last().name@, a)),
            None => r,
        }
    }
}

/// The names of the branches with status `st`, in order.
pub open spec fn names_with(bs: Seq<Branch>, st: BranchStatus) -> Seq<Seq<char>>
    decreases bs.len(),
{
    if bs.len() == 0 {
        Seq::empty()
    } else {
        let r = names_with(bs.drop_last(), st);
        if bs.last().status == st { r.push(bs.last().name@) } else { r }
    }
}

/// The branch checked out: the last one marked current, or empty.
pub open spec fn current_of(bs: Seq<Branch>) -> Seq<char>
    decreases bs.len(),
{
    if bs.len() == 0 {
        Seq::empty()
    } else if bs.last().current {
        bs.last().name@
    } else {
        current_of(bs.drop_last())
    }
}

/// The branch to come back to: the checked-out branch when it is not gone
/// upstream, else the default branch.
pub open spec fn back_of(bs: Seq<Branch>, default: Seq<char>) -> Seq<char>
    decreases bs.len(),
{
    if bs.len() == 0 {
        default
    } else if bs.last().current && bs.last().status != BranchStatus::Gone {
        bs.last().name@
    } else {
        back_of(bs.drop_last(), default)
    }
}

/// The names of the tasks with action `a`, in order.
pub open spec fn names_for(ts: Seq<(Seq<char>, BranchAction)>, a: BranchAction) -> Seq<Seq<char>>
    decreases ts.len(),
{
    if ts.len() == 0 {
        Seq::empty()
    } else {
        let r = names_for(ts.drop_last(), a);
        if ts.last().1 == a { r.push(ts.last().0) } else { r }
    }
}

/// The steps for one task when `current` is checked out, and what is
/// checked out after them. Pushing or pulling checks the branch out first;
/// deleting the checked-out branch checks the default branch out first.
pub open spec fn task_steps(name: Seq<char>, action: BranchAction, current: Seq<char>, default: Seq<char>) -> (Seq<Step>, Seq<char>) {
    if action == BranchAction::Delete {
        let pre: Seq<Step> = if current == name {
            seq![(seq!["checkout"@, default], "Checkout to default branch "@ + default)]
        } else {
            Seq::empty()
        };
        (pre.push((seq!["branch"@, "-D"@, name], "Deleting branch "@ + name)), current)
    } else {
        let pre: Seq<Step> = if current != name {
            seq![(seq!["checkout"@, name], "Checkout to branch "@ + name)]
        } else {
            Seq::empty()
        };
        let op = if action == BranchAction::Push { "push"@ } else { "pull"@ };
        let title = if action == BranchAction::Push { "Pushing"@ } else { "Pulling"@ };
        (pre.push((seq![op, "origin"@, name], title + " branch "@ + name)), name)
    }
}

/// The steps for the tasks in order, starting with `current` checked out,
/// and what is checked out after them.
pub open spec fn steps_from(ts: Seq<(Seq<char>, BranchAction)>, current: Seq<char>, default: Seq<char>) -> (Seq<Step>, Seq<char>)
    decreases ts.len(),
{
    if ts.len() == 0 {
        (Seq::empty(), current)
    } else {
        let (s, c) = task_steps(ts[0].0, ts[0].1, current, default);
        let (rest, last) = steps_from(ts.skip(1), c, default);
        (s + rest, last)
    }
}

/// All the steps of a sync: none when there is no task, else the tasks'
/// steps and, unless it is checked out already, a checkout of `back`.
pub open spec fn sync_steps(ts: Seq<(Seq<char>, BranchAction)>, current: Seq<char>, back: Seq<char>, default: Seq<char>) -> Seq<Step> {
    if ts.len() == 0 {
        Seq::empty()
    } else {
        let (s, c) = steps_from(ts, current, default);
        if c != back {
            s.push((seq!["checkout"@, back], "Checkout to backup branch "@ + back))
        } else {
            s
        }
    }
}

impl SyncPlan {
    /// The tasks as plain values.
    pub open spec fn task_views(&self) -> Seq<(Seq<char>, BranchAction)> {
        self.tasks@.map_values(|t: BranchTask| (t.branch@, t.action))
    }
}

/// The plan for the branches `bs` of a clean repository whose default branch is `default`.
pub fn plan_sync(bs: &Vec<Branch>, default: &str) -> (r: SyncPlan)
    ensures
        r.task_views() == sync_tasks(bs@, default@),
        r.current@ == current_of(bs@),
        r.back@ == back_of(bs@, default@),
        crate::text::strs(r.conflect@) == names_with(bs@, BranchStatus::Conflict),
        crate::text::strs(r.detached@) == names_with(bs@, BranchStatus::Detached),
{
    let mut tasks: Vec<BranchTask> = Vec::new();
    let mut conflect: Vec<String> = Vec::new();
    let mut detached: Vec<String> = Vec::new();
    let mut current = String::new();
    let mut back = owned(default);
    let mut i: usize = 0;
    while i < bs.len()
        invariant
            i <= bs.len(),
            tasks@.map_values(|t: BranchTask| (t.branch@, t.action)) == sync_tasks(bs@.take(i as int), default@),
            current@ == current_of(bs@.take(i as int)),
            back@ == back_of(bs@.take(i as int), default@),
            crate::text::strs(conflect@) == names_with(bs@.take(i as int), BranchStatus::Conflict),
            crate::text::strs(detached@) == names_with(bs@.take(i as int), BranchStatus::Detached),
        decreases bs.len() - i,
    {
        let b = &bs[i];
        proof {
            assert(bs@.take(i + 1).drop_last() =~= bs@.take(i as int));
            assert(bs@.take(i + 1).last() == bs@[i as int]);
        }
        if b.current {
            current = b.name.clone();
            if b.status != BranchStatus::Gone {
                back = b.name.clone();
            }
        }
        let ghost tb = tasks@;
        let ghost cb = conflect@;
        let ghost db = detached@;
        match b.status {
            BranchStatus::Ahead => {
                tasks.push(BranchTask { branch: b.name.clone(), action: BranchAction::Push });
            },
            BranchStatus::Behind => {
                tasks.push(BranchTask { branch: b.name.clone(), action: BranchAction::Pull });
            },
            BranchStatus::Gone => {
                if !eq_str(b.name.as_str(), default) {
                    tasks.push(BranchTask { branch: b.name.clone(), action: BranchAction::Delete });
                }
            },
            BranchStatus::Conflict => {
                conflect.push(b.name.clone());
            },
            BranchStatus::Detached => {
                detached.push(b.name.clone());
            },
            BranchStatus::Sync => {},
        }
        proof {
            assert(tasks@.map_values(|t: BranchTask| (t.branch@, t.action)) =~= sync_tasks(bs@.take(i + 1), default@)) by {
                if tasks@.len() > tb.len() {
                    assert(tasks@.drop_last() == tb);
                }
            }
            assert(crate::text::strs(conflect@) =~= names_with(bs@.take(i + 1), BranchStatus::Conflict)) by {
                if conflect@.len() > cb.len() {
                    assert(conflect@.drop_last() == cb);
                }
            }
            assert(crate::text::strs(detached@) =~= names_with(bs@.take(i + 1), BranchStatus::Detached)) by {
                if detached@.len() > db.len() {
                    assert(detached@.drop_last() == db);
                }
            }
        }
        i += 1;
    }
    assert(bs@.take(bs.len() as int) =~= bs@);
    SyncPlan { tasks, current, back, conflect, detached }
}

/// The git commands of one step.
fn step_cmd(git: &GitCmd, args: &[&str], message: &str) -> (c: Cmd)
    ensures
        git_cmd_spec(*git, strs_of(args@), message@, c),
{
    git.cmd(args, message)
}

proof fn lemma_steps_unfold(ts: Seq<(Seq<char>, BranchAction)>, i: int, current: Seq<char>, default: Seq<char>)
    requires
        0 <= i < ts.len(),
    ensures
        steps_from(ts.skip(i), current, default) == ({
            let (s, c) = task_steps(ts[i].0, ts[i].1, current, default);
            let (rest, last) = steps_from(ts.skip(i + 1), c, default);
            (s + rest, last)
        }),
{
    assert(ts.skip(i).skip(1) =~= ts.skip(i + 1));
    assert(ts.skip(i)[0] == ts[i]);
}

/// The git commands that carry out `plan`, in order, in the repository that
/// `git` runs in.
pub fn sync_cmds(git: &GitCmd, plan: &SyncPlan, default: &str) -> (r: Vec<Cmd>)
    ensures
        ({
            let steps = sync_steps(plan.task_views(), plan.current@, plan.back@, default@);
            &&& r@.len() == steps.len()
            &&& forall|k: int| 0 <= k < r@.len() ==> git_cmd_spec(*git, steps[k].0, steps[k].1, #[trigger] r@[k])
        }),
{
    let ghost ts = plan.task_views();
    let mut r: Vec<Cmd> = Vec::new();
    if plan.tasks.len() == 0 {
        return r;
    }
    let ghost mut acc: Seq<Step> = Seq::empty();
    let mut current = plan.current.clone();
    let mut i: usize = 0;
    proof {
        reveal_strlit("checkout");
        reveal_strlit("origin");
        reveal_strlit("push");
        reveal_strlit("pull");
        reveal_strlit("branch");
        reveal_strlit("-D");
        assert(ts.skip(0) =~= ts);
        assert(acc + steps_from(ts.skip(0), current@, default@).0 =~= steps_from(ts, plan.current@, default@).0);
    }
    while i < plan.tasks.len()
        invariant
            ts == plan.task_views(),
            ts.len() == plan.tasks.len(),
            i <= plan.tasks.len(),
            acc + steps_from(ts.skip(i as int), current@, default@).0 == steps_from(ts, plan.current@, default@).0,
            steps_from(ts.skip(i as int), current@, default@).1 == steps_from(ts, plan.current@, default@).1,
            r@.len() == acc.len(),
            forall|k: int| 0 <= k < r@.len() ==> git_cmd_spec(*git, acc[k].0, acc[k].1, #[trigger] r@[k]),
        decreases plan.tasks.len() - i,
    {
        let t = &plan.tasks[i];
        let name = t.branch.as_str();
        assert(ts[i as int] == (name@, t.action));
        proof { lemma_steps_unfold(ts, i as int, current@, default@); }
        let ghost ab = acc;
        let ghost ts_i = task_steps(name@, t.action, current@, default@);
        if t.action == BranchAction::Delete {
            if eq_str(current.as_str(), name) {
                let msg = concat("Checkout to default branch ", default);
                let args = ["checkout", default];
                assert(strs_of(args@) =~= seq!["checkout"@, default@]);
                r.push(step_cmd(git, &args, msg.as_str()));
                proof { acc = acc.push((seq!["checkout"@, default@], msg@)); }
            }
            let msg = concat("Deleting branch ", name);
            let args = ["branch", "-D", name];
            assert(strs_of(args@) =~= seq!["branch"@, "-D"@, name@]);
            r.push(step_cmd(git, &args, msg.as_str()));
            proof {
                acc = acc.push((seq!["branch"@, "-D"@, name@], msg@));
                assert(acc =~= ab + ts_i.0);
            }
        } else {
            if !eq_str(current.as_str(), name) {
                let msg = concat("Checkout to branch ", name);
                let args = ["checkout", name];
                assert(strs_of(args@) =~= seq!["checkout"@, name@]);
                r.push(step_cmd(git, &args, msg.as_str()));
                proof { acc = acc.push((seq!["checkout"@, name@], msg@)); }
                current = t.branch.clone();
            }
            let (op, title) = if t.action == BranchAction::Push { ("push", "Pushing branch ") } else { ("pull", "Pulling branch ") };
            proof {
                reveal_strlit("Pushing branch ");
                reveal_strlit("Pulling branch ");
                reveal_strlit("Pushing");
                reveal_strlit("Pulling");
                reveal_strlit(" branch ");
                assert("Pushing branch "@ =~= "Pushing"@ + " branch "@);
                assert("Pulling branch "@ =~= "Pulling"@ + " branch "@);
            }
            let msg = concat(title, name);
            let args = [op, "origin", name];
            assert(strs_of(args@) =~= seq![op@, "origin"@, name@]);
            r.push(step_cmd(git, &args, msg.as_str()));
            proof {
                acc = acc.push((seq![op@, "origin"@, name@], msg@));
                assert(acc =~= ab + ts_i.0);
                assert(current@ == ts_i.1);
            }
        }
        proof {
            assert(ab + (ts_i.0 + steps_from(ts.skip(i + 1), ts_i.1, default@).0) =~= acc + steps_from(ts.skip(i + 1), ts_i.1, default@).0);
        }
        i += 1;
    }
    proof {
        assert(ts.skip(ts.len() as int) =~= Seq::<(Seq<char>, BranchAction)>::empty());
        assert(acc =~= steps_from(ts, plan.current@, default@).0);
    }
    if !eq_str(current.as_str(), plan.back.as_str()) {
        let msg = concat("Checkout to backup branch ", plan.back.as_str());
        let args = ["checkout", plan.back.as_str()];
        assert(strs_of(args@) =~= seq!["checkout"@, plan.back@]);
        r.push(step_cmd(git, &args, msg.as_str()));
        proof { acc = acc.push((seq!["checkout"@, plan.back@], msg@)); }
    }
    r
}

/// What a sync that carried out `plan` did, for the repository `name`.
pub fn sync_result(name: &str, plan: &SyncPlan) -> (r: SyncResult)
    ensures
        r.name@ == name@,
        r.uncommitted == 0,
        crate::text::strs(r.pushed@) == names_for(plan.task_views(), BranchAction::Push),
        crate::text::strs(r.pulled@) == names_for(plan.task_views(), BranchAction::Pull),
        crate::text::strs(r.deleted@) == names_for(plan.task_views(), BranchAction::Delete),
        crate::text::strs(r.conflect@) == crate::text::strs(plan.conflect@),
        crate::text::strs(r.detached@) == crate::text::strs(plan.detached@),
{
    let ghost ts = plan.task_views();
    let mut pushed: Vec<String> = Vec::new();
    let mut pulled: Vec<String> = Vec::new();
    let mut deleted: Vec<String> = Vec::new();
    let mut i: usize = 0;
    while i < plan.tasks.len()
        invariant
            ts == plan.task_views(),
            i <= plan.tasks.len(),
            crate::text::strs(pushed@) == names_for(ts.take(i as int), BranchAction::Push),
            crate::text::strs(pulled@) == names_for(ts.take(i as int), BranchAction::Pull),
            crate::text::strs(deleted@) == names_for(ts.take(i as int), BranchAction::Delete),
        decreases plan.tasks.len() - i,
    {
        let t = &plan.tasks[i];
        proof {
            assert(ts.take(i + 1).drop_last() =~= ts.take(i as int));
            assert(ts.take(i + 1).last() == (t.branch@, t.action));
        }
        let ghost (pb, lb, db) = (pushed@, pulled@, deleted@);
        match t.action {
            BranchAction::Push => pushed.push(t.branch.clone()),
            BranchAction::Pull => pulled.push(t.branch.clone()),
            BranchAction::Delete => deleted.push(t.branch.clone()),
        }
        proof {
            assert(crate::text::strs(pushed@) =~= names_for(ts.take(i + 1), BranchAction::Push)) by {
                if pushed@.len() > pb.len() { assert(pushed@.drop_last() == pb); }
            }
            assert(crate::text::strs(pulled@) =~= names_for(ts.take(i + 1), BranchAction::Pull)) by {
                if pulled@.len() > lb.len() { assert(pulled@.drop_last() == lb); }
            }
            assert(crate::text::strs(deleted@) =~= names_for(ts.take(i + 1), BranchAction::Delete)) by {
                if deleted@.len() > db.len() { assert(deleted@.drop_last() == db); }
            }
        }
        i += 1;
    }
    assert(ts.take(plan.tasks.len() as int) =~= ts);
    SyncResult {
        name: owned(name),
        uncommitted: 0,
        pushed,
        pulled,
        deleted,
        conflect: crate::exec::clone_strings(&plan.conflect),
        detached: crate::exec::clone_strings(&plan.detached),
    }
}

/// What a sync of a repository with `uncommitted` uncommitted changes ends
/// with before it touches any branch: with changes, the result that reports
/// them and nothing else; with none, nothing (the branches are synced).
pub fn dirty_result(name: &str, uncommitted: usize) -> (r: Option<SyncResult>)
    ensures
        uncommitted == 0 ==> r is None,
        uncommitted > 0 ==> (r matches Some(x) && x.name@ == name@ && x.uncommitted == uncommitted && x.pushed.len() == 0
            && x.pulled.len() == 0 && x.deleted.len() == 0 && x.conflect.len() == 0 && x.detached.len() == 0),
{
    if uncommitted == 0 {
        return None;
    }
    Some(
        SyncResult {
            name: owned(name),
            uncommitted,
            pushed: Vec::new(),
            pulled: Vec::new(),
            deleted: Vec::new(),
            conflect: Vec::new(),
            detached: Vec::new(),
        },
    )
}

/// The names of the branches gone upstream, in order, but for the default branch.
pub open spec fn gone_names(bs: Seq<Branch>, default: Seq<char>) -> Seq<Seq<char>>
    decreases bs.len(),
{
    if bs.len() == 0 {
        Seq::empty()
    } else {
        let r = gone_names(bs.drop_last(), default);
        if bs.last().status == BranchStatus::Gone && bs.last().name@ != default { r.push(bs.last().name@) } else { r }
    }
}

/// A sync pushes the branches ahead of upstream, pulls those behind it and
/// deletes those gone upstream but for the default branch, each in the order
/// of the branch list.
pub proof fn law_sync_result_names(bs: Seq<Branch>, default: Seq<char>)
    ensures
        names_for(sync_tasks(bs, default), BranchAction::Push) == names_with(bs, BranchStatus::Ahead),
        names_for(sync_tasks(bs, default), BranchAction::Pull) == names_with(bs, BranchStatus::Behind),
        names_for(sync_tasks(bs, default), BranchAction::Delete) == gone_names(bs, default),
    decreases bs.len(),
{
    if bs.len() > 0 {
        let t = bs.drop_last();
        law_sync_result_names(t, default);
        let r = sync_tasks(t, default);
        match action_of(bs.last(), default) {
            Some(a) => {
                assert(sync_tasks(bs, default).drop_last() =~= r);
            },
            None => {},
        }
    }
}

/// What creating a repository takes.
#[derive(Debug)]
pub enum CreateAction {
    /// Nothing: it is there.
    Exists,
    /// Run this clone, then set the user.
    Clone(Cmd),
    /// Make this directory, then run this init in it.
    Init(String, Cmd),
}

/// `c` is git run outside any repository with arguments `args`, announced
/// by `message` (or silent when muted).
pub open spec fn plain_git_spec(cfg: crate::exec::CmdConfig, mute: bool, args: Seq<Seq<char>>, message: Seq<char>, c: Cmd) -> bool {
    &&& c.program@ == cfg.name@
    &&& crate::text::strs(c.args@) == crate::text::strs(cfg.args@) + args
    &&& c.dir is None
    &&& c.input is None
    &&& c.envs@.len() == 0
    &&& mute ==> c.hint == crate::exec::CmdHint::Silent
    &&& !mute ==> (c.hint matches crate::exec::CmdHint::Message(m) && m@ == message)
}

fn plain_git(cfg: &crate::exec::CmdConfig, mute: bool, args: &[&str], message: &str) -> (c: Cmd)
    ensures
        plain_git_spec(*cfg, mute, strs_of(args@), message@, c),
{
    let c = cfg.new_cmd().args(args).message(message);
    if mute {
        return c.mute();
    }
    c
}

/// A repository with the configuration of its remote and owner, and where it lives.
pub struct RepoOperator {
    pub remote: RemoteConfig,
    pub owner: OwnerConfig,
    pub repo: Repository,
    pub path: String,
    /// Git as configured, run outside any repository.
    pub git_cfg: crate::exec::CmdConfig,
    /// Git run in the repository.
    pub git: GitCmd,
    pub mute: bool,
}

impl RepoOperator {
    /// An operator for `repo` at `path`.
    pub fn new(remote: RemoteConfig, owner: OwnerConfig, repo: Repository, path: String, git_cfg: crate::exec::CmdConfig, mute: bool) -> (r: RepoOperator)
        ensures
            r.remote == remote,
            r.owner == owner,
            r.repo == repo,
            r.path == path,
            r.git_cfg == git_cfg,
            r.mute == mute,
            r.git.work_dir@ == path@,
            r.git.cmd_cfg.name@ == git_cfg.name@,
            crate::text::strs(r.git.cmd_cfg.args@) == crate::text::strs(git_cfg.args@),
            r.git.mute == mute,
    {
        let git = GitCmd::new(&git_cfg, path.as_str(), mute);
        RepoOperator { remote, owner, repo, path, git_cfg, git, mute }
    }

    /// An operator for `repo` where it lives under `workspace`.
    pub fn load(workspace: &str, remote: RemoteConfig, owner: OwnerConfig, repo: Repository, git_cfg: crate::exec::CmdConfig, mute: bool) -> (r: RepoOperator)
        ensures
            r.remote == remote,
            r.owner == owner,
            r.repo == repo,
            r.path@ == repo_path(workspace@, repo),
            r.git.work_dir@ == repo_path(workspace@, repo),
            r.git_cfg == git_cfg,
            r.mute == mute,
            r.git.mute == mute,
    {
        let path = repo.get_path(workspace);
        Self::new(remote, owner, repo, path, git_cfg, mute)
    }

    /// The URL to clone from, when the remote can be cloned from.
    pub fn get_clone_url(&self) -> (r: Option<String>)
        ensures
            match self.remote.clone {
                Some(d) => r matches Some(u) && u@ == clone_url(d@, self.repo.owner@, self.repo.name@, self.owner.ssh),
                None => r is None,
            },
    {
        match &self.remote.clone {
            Some(d) => Some(self.repo.get_clone_url(d.as_str(), self.owner.ssh)),
            None => None,
        }
    }

    /// Where the repository lives.
    pub fn path(&self) -> (r: &str)
        ensures
            r@ == self.path@,
    {
        self.path.as_str()
    }

    /// The configuration of the repository's remote.
    pub fn remote(&self) -> (r: &RemoteConfig)
        ensures
            *r == self.remote,
    {
        &self.remote
    }

    /// The configuration of the repository's owner.
    pub fn owner(&self) -> (r: &OwnerConfig)
        ensures
            *r == self.owner,
    {
        &self.owner
    }

    /// The directory to remove to remove the repository.
    pub fn remove(&self) -> (r: String)
        ensures
            r@ == self.path@,
    {
        self.path.clone()
    }

    /// The git commands that set the configured user name and email, in that order.
    pub fn ensure_user(&self) -> (r: Vec<Cmd>)
        ensures
            ({
                let n = if self.owner.user is Some { 1int } else { 0 };
                &&& r@.len() == n + if self.owner.email is Some { 1int } else { 0 }
                &&& (self.owner.user matches Some(u) ==> git_cmd_spec(self.git, seq!["config"@, "user.name"@, u@],
                    "Set user to "@ + crate::error::debug_quoted(u@), r@[0]))
                &&& (self.owner.email matches Some(e) ==> git_cmd_spec(self.git, seq!["config"@, "user.email"@, e@],
                    "Set email to "@ + crate::error::debug_quoted(e@), r@[n]))
            }),
    {
        let mut r: Vec<Cmd> = Vec::new();
        if let Some(u) = &self.owner.user {
            let q = crate::error::debug_str(u.as_str());
            let msg = concat("Set user to ", q.as_str());
            let args = ["config", "user.name", u.as_str()];
            assert(strs_of(args@) =~= seq!["config"@, "user.name"@, u@]);
            r.push(self.git.cmd(&args, msg.as_str()));
        }
        if let Some(e) = &self.owner.email {
            let q = crate::error::debug_str(e.as_str());
            let msg = concat("Set email to ", q.as_str());
            let args = ["config", "user.email", e.as_str()];
            assert(strs_of(args@) =~= seq!["config"@, "user.email"@, e@]);
            r.push(self.git.cmd(&args, msg.as_str()));
        }
        r
    }

    /// What creating the repository takes: nothing when it `exists`; else a
    /// clone from `clone_url`, or from the remote's URL, shallow when `thin`;
    /// else, when there is no URL, an empty repository on `default_branch`.
    pub fn ensure_create(&self, exists: bool, thin: bool, clone_url: Option<String>, default_branch: &str) -> (r: CreateAction)
        ensures
            exists ==> r is Exists,
            !exists ==> {
                let url: Option<Seq<char>> = match clone_url {
                    Some(u) => Some(u@),
                    None => match self.remote.clone {
                        Some(d) => Some(crate::repo::ops::clone_url(d@, self.repo.owner@, self.repo.name@, self.owner.ssh)),
                        None => None,
                    },
                };
                match url {
                    Some(u) => r matches CreateAction::Clone(c) && plain_git_spec(self.git_cfg, self.mute,
                        if thin { seq!["clone"@, "--depth"@, "1"@, u, self.path@] } else { seq!["clone"@, u, self.path@] },
                        "Cloning from "@ + u, c),
                    None => r matches CreateAction::Init(dir, c) && dir@ == self.path@ && git_cmd_spec(self.git,
                        seq!["init"@, "-b"@, default_branch@], "Initializing empty git repository"@, c),
                }
            },
    {
        if exists {
            return CreateAction::Exists;
        }
        let url = match clone_url {
            Some(u) => Some(u),
            None => self.get_clone_url(),
        };
        match url {
            Some(u) => {
                let msg = concat("Cloning from ", u.as_str());
                let c = if thin {
                    let args = ["clone", "--depth", "1", u.as_str(), self.path.as_str()];
                    assert(strs_of(args@) =~= seq!["clone"@, "--depth"@, "1"@, u@, self.path@]);
                    plain_git(&self.git_cfg, self.mute, &args, msg.as_str())
                } else {
                    let args = ["clone", u.as_str(), self.path.as_str()];
                    assert(strs_of(args@) =~= seq!["clone"@, u@, self.path@]);
                    plain_git(&self.git_cfg, self.mute, &args, msg.as_str())
                };
                CreateAction::Clone(c)
            },
            None => {
                let args = ["init", "-b", default_branch];
                assert(strs_of(args@) =~= seq!["init"@, "-b"@, default_branch@]);
                let c = self.git.cmd(&args, "Initializing empty git repository");
                CreateAction::Init(self.path.clone(), c)
            },
        }
    }

    /// The git command that makes `origin` point at the remote's URL, given
    /// the URL `origin` has now (none when there is no `origin`); nothing
    /// when the remote cannot be cloned from or the URL is right already.
    pub fn ensure_remote(&self, origin_url: Option<String>) -> (r: Option<Cmd>)
        ensures
            match self.remote.clone {
                None => r is None,
                Some(d) => {
                    let url = clone_url(d@, self.repo.owner@, self.repo.name@, self.owner.ssh);
                    match origin_url {
                        None => r matches Some(c) && git_cmd_spec(self.git, seq!["remote"@, "add"@, "origin"@, url],
                            "Add origin remote: "@ + url, c),
                        Some(o) => if o@ == url {
                            r is None
                        } else {
                            r matches Some(c) && git_cmd_spec(self.git, seq!["remote"@, "set-url"@, "origin"@, url],
                                "Set origin remote: "@ + url, c)
                        },
                    }
                },
            },
    {
        let url = match self.get_clone_url() {
            Some(u) => u,
            None => return None,
        };
        match origin_url {
            None => {
                let msg = concat("Add origin remote: ", url.as_str());
                let args = ["remote", "add", "origin", url.as_str()];
                assert(strs_of(args@) =~= seq!["remote"@, "add"@, "origin"@, url@]);
                Some(self.git.cmd(&args, msg.as_str()))
            },
            Some(o) => {
                if eq_str(o.as_str(), url.as_str()) {
                    None
                } else {
                    let msg = concat("Set origin remote: ", url.as_str());
                    let args = ["remote", "set-url", "origin", url.as_str()];
                    assert(strs_of(args@) =~= seq!["remote"@, "set-url"@, "origin"@, url@]);
                    Some(self.git.cmd(&args, msg.as_str()))
                }
            },
        }
    }
}

/// No two branches share a name (as git keeps them).
pub open spec fn names_unique(bs: Seq<Branch>) -> bool {
    forall|i: int, j: int| 0 <= i < j < bs.len() ==> bs[i].name@ != bs[j].name@
}

/// Every task of a sync comes from a branch whose status asks for it, and
/// the default branch is never deleted.
pub proof fn law_sync_tasks_follow_status(bs: Seq<Branch>, default: Seq<char>)
    ensures
        forall|i: int| 0 <= i < sync_tasks(bs, default).len() ==> exists|j: int| 0 <= j < bs.len()
            && bs[j].name@ == (#[trigger] sync_tasks(bs, default)[i]).0 && action_of(bs[j], default) == Some(sync_tasks(bs, default)[i].1),
        forall|i: int| 0 <= i < sync_tasks(bs, default).len() && (#[trigger] sync_tasks(bs, default)[i]).1 == BranchAction::Delete
            ==> sync_tasks(bs, default)[i].0 != default,
    decreases bs.len(),
{
    if bs.len() > 0 {
        let t = bs.drop_last();
        law_sync_tasks_follow_status(t, default);
        let r = sync_tasks(t, default);
        let ts = sync_tasks(bs, default);
        assert forall|i: int| 0 <= i < ts.len() implies exists|j: int| 0 <= j < bs.len()
            && bs[j].name@ == (#[trigger] ts[i]).0 && action_of(bs[j], default) == Some(ts[i].1) by {
            if i < r.len() {
                assert(ts[i] == r[i]);
                let j = choose|j: int| 0 <= j < t.len() && t[j].name@ == (#[trigger] r[i]).0 && action_of(t[j], default) == Some(r[i].1);
                assert(bs[j] == t[j]);
            } else {
                assert(bs[bs.len() - 1] == bs.last());
            }
        }
        assert forall|i: int| 0 <= i < ts.len() && (#[trigger] ts[i]).1 == BranchAction::Delete implies ts[i].0 != default by {
            let j = choose|j: int| 0 <= j < bs.len() && bs[j].name@ == (#[trigger] ts[i]).0 && action_of(bs[j], default) == Some(ts[i].1);
        }
    }
}

/// The branch checked out after the steps, starting from `start`: the
/// target of the last `checkout`, if any.
pub open spec fn checked_out_after(steps: Seq<Step>, start: Seq<char>) -> Seq<char>
    decreases steps.len(),
{
    if steps.len() == 0 {
        start
    } else {
        let st = steps.last();
        if st.0.len() == 2 && st.0[0] == "checkout"@ {
            st.0[1]
        } else {
            checked_out_after(steps.drop_last(), start)
        }
    }
}

proof fn lemma_checked_out_concat(s1: Seq<Step>, s2: Seq<Step>, start: Seq<char>)
    ensures
        checked_out_after(s1 + s2, start) == checked_out_after(s2, checked_out_after(s1, start)),
    decreases s2.len(),
{
    if s2.len() == 0 {
        assert(s1 + s2 =~= s1);
    } else {
        assert((s1 + s2).drop_last() =~= s1 + s2.drop_last());
        assert((s1 + s2).last() == s2.last());
        lemma_checked_out_concat(s1, s2.drop_last(), start);
    }
}

/// What is checked out (`a`) and what the sync takes to be checked out (`c`)
/// differ only after the branch `c` was deleted, and then the default branch
/// is checked out.
pub open spec fn in_step(a: Seq<char>, c: Seq<char>, default: Seq<char>, deleted: Set<Seq<char>>) -> bool {
    a == c || (a == default && deleted.contains(c))
}

proof fn lemma_steps_in_step(ts: Seq<(Seq<char>, BranchAction)>, c: Seq<char>, a: Seq<char>, default: Seq<char>, deleted: Set<Seq<char>>)
    requires
        in_step(a, c, default, deleted),
        forall|i: int| 0 <= i < ts.len() ==> ((#[trigger] ts[i]).1 == BranchAction::Delete <==> deleted.contains(ts[i].0)),
    ensures
        in_step(checked_out_after(steps_from(ts, c, default).0, a), steps_from(ts, c, default).1, default, deleted),
    decreases ts.len(),
{
    reveal_strlit("checkout");
    if ts.len() > 0 {
        let (name, action) = ts[0];
        let (s1, c1) = task_steps(name, action, c, default);
        let a1 = checked_out_after(s1, a);
        assert(s1.len() >= 1);
        assert(s1.drop_last().len() <= 1);
        if action == BranchAction::Delete {
            assert(deleted.contains(name));
            if c == name {
                assert(s1.drop_last() =~= seq![(seq!["checkout"@, default], "Checkout to default branch "@ + default)]);
                assert(checked_out_after(s1.drop_last(), a) == default);
                assert(a1 == default);
            } else {
                assert(s1.drop_last() =~= Seq::<Step>::empty());
                assert(s1.last().0.len() == 3);
                assert(checked_out_after(s1.drop_last(), a) == a);
                assert(a1 == a);
            }
            assert(in_step(a1, c1, default, deleted));
        } else {
            assert(!deleted.contains(name));
            if c != name {
                assert(s1.drop_last() =~= seq![(seq!["checkout"@, name], "Checkout to branch "@ + name)]);
                assert(checked_out_after(s1.drop_last(), a) == name);
                assert(a1 == name);
            } else {
                assert(s1.drop_last() =~= Seq::<Step>::empty());
                assert(s1.last().0.len() == 3);
                assert(checked_out_after(s1.drop_last(), a) == a);
                assert(a1 == a);
            }
            assert(in_step(a1, c1, default, deleted));
        }
        let rest = ts.skip(1);
        assert forall|i: int| 0 <= i < rest.len() implies ((#[trigger] rest[i]).1 == BranchAction::Delete <==> deleted.contains(rest[i].0)) by {
            assert(rest[i] == ts[i + 1]);
        }
        lemma_steps_in_step(rest, c1, a1, default, deleted);
        lemma_checked_out_concat(s1, steps_from(rest, c1, default).0, a);
    }
}

proof fn lemma_back_of(bs: Seq<Branch>, default: Seq<char>)
    ensures
        back_of(bs, default) == default || exists|k: int| 0 <= k < bs.len() && (#[trigger] bs[k]).current
            && bs[k].status != BranchStatus::Gone && bs[k].name@ == back_of(bs, default),
    decreases bs.len(),
{
    if bs.len() > 0 {
        lemma_back_of(bs.drop_last(), default);
        if !(bs.last().current && bs.last().status != BranchStatus::Gone) && back_of(bs, default) != default {
            let k = choose|k: int| 0 <= k < bs.drop_last().len() && (#[trigger] bs.drop_last()[k]).current
                && bs.drop_last()[k].status != BranchStatus::Gone && bs.drop_last()[k].name@ == back_of(bs.drop_last(), default);
            assert(bs[k] == bs.drop_last()[k]);
        } else if bs.last().current && bs.last().status != BranchStatus::Gone {
            assert(bs[bs.len() - 1] == bs.last());
        }
    }
}

/// When a sync has anything to do, the branch checked out at its end is the
/// one it comes back to: the branch checked out before, or the default
/// branch when that one was gone upstream.
pub proof fn law_sync_ends_on_back(bs: Seq<Branch>, default: Seq<char>)
    requires
        names_unique(bs),
        sync_tasks(bs, default).len() > 0,
    ensures
        checked_out_after(sync_steps(sync_tasks(bs, default), current_of(bs), back_of(bs, default), default), current_of(bs))
            == back_of(bs, default),
{
    reveal_strlit("checkout");
    let ts = sync_tasks(bs, default);
    let cur = current_of(bs);
    let back = back_of(bs, default);
    let deleted = Set::new(|n: Seq<char>| exists|j: int| 0 <= j < bs.len() && (#[trigger] bs[j]).status == BranchStatus::Gone
        && bs[j].name@ == n && n != default);
    law_sync_tasks_follow_status(bs, default);
    assert forall|i: int| 0 <= i < ts.len() implies ((#[trigger] ts[i]).1 == BranchAction::Delete <==> deleted.contains(ts[i].0)) by {
        let j = choose|j: int| 0 <= j < bs.len() && bs[j].name@ == (#[trigger] ts[i]).0 && action_of(bs[j], default) == Some(ts[i].1);
        if ts[i].1 == BranchAction::Delete {
            assert(bs[j].status == BranchStatus::Gone && bs[j].name@ != default);
        } else if deleted.contains(ts[i].0) {
            let j2 = choose|j2: int| 0 <= j2 < bs.len() && (#[trigger] bs[j2]).status == BranchStatus::Gone
                && bs[j2].name@ == ts[i].0 && ts[i].0 != default;
            if j < j2 { assert(bs[j].name@ != bs[j2].name@); } else if j2 < j { assert(bs[j2].name@ != bs[j].name@); }
        }
    }
    lemma_steps_in_step(ts, cur, cur, default, deleted);
    let (s, c2) = steps_from(ts, cur, default);
    let a2 = checked_out_after(s, cur);
    if c2 != back {
        let full = s.push((seq!["checkout"@, back], "Checkout to backup branch "@ + back));
        assert(full.drop_last() =~= s);
        assert(checked_out_after(full, cur) == back);
    } else if a2 != c2 {
        assert(deleted.contains(c2));
        let j = choose|j: int| 0 <= j < bs.len() && (#[trigger] bs[j]).status == BranchStatus::Gone && bs[j].name@ == c2 && c2 != default;
        lemma_back_of(bs, default);
        let k = choose|k: int| 0 <= k < bs.len() && (#[trigger] bs[k]).current && bs[k].status != BranchStatus::Gone && bs[k].name@ == back;
        if j < k { assert(bs[j].name@ != bs[k].name@); } else if k < j { assert(bs[k].name@ != bs[j].name@); }
    }
}

/// What a sync does to a branch: it pushes a branch ahead of its upstream,
/// pulls one behind it, deletes one gone upstream unless it is the default
/// branch, and leaves every other branch alone.
pub proof fn law_branch_actions(b: Branch, default: Seq<char>)
    ensures
        b.status == BranchStatus::Ahead ==> action_of(b, default) == Some(BranchAction::Push),
        b.status == BranchStatus::Behind ==> action_of(b, default) == Some(BranchAction::Pull),
        b.status == BranchStatus::Gone && b.name@ != default ==> action_of(b, default) == Some(BranchAction::Delete),
        b.status == BranchStatus::Gone && b.name@ == default ==> action_of(b, default) is None,
        b.status == BranchStatus::Sync || b.status == BranchStatus::Conflict || b.status == BranchStatus::Detached
            ==> action_of(b, default) is None,
{
}

/// Each branch behind its upstream is pulled, each one ahead is pushed,
/// and each one gone upstream, the default branch aside, is deleted.
pub proof fn law_every_branch_handled(bs: Seq<Branch>, default: Seq<char>, i: int)
    requires
        0 <= i < bs.len(),
    ensures
        bs[i].status == BranchStatus::Behind ==> sync_tasks(bs, default).contains((bs[i].name@, BranchAction::Pull)),
        bs[i].status == BranchStatus::Ahead ==> sync_tasks(bs, default).contains((bs[i].name@, BranchAction::Push)),
        bs[i].status == BranchStatus::Gone && bs[i].name@ != default ==> sync_tasks(bs, default).contains(
            (bs[i].name@, BranchAction::Delete),
        ),
    decreases bs.len(),
{
    let t = bs.drop_last();
    let r = sync_tasks(t, default);
    let ts = sync_tasks(bs, default);
    if i < bs.len() - 1 {
        law_every_branch_handled(t, default, i);
        assert(t[i] == bs[i]);
        assert forall|p: (Seq<char>, BranchAction)| r.contains(p) implies ts.contains(p) by {
            let k = choose|k: int| 0 <= k < r.len() && r[k] == p;
            match action_of(bs.last(), default) {
                Some(a) => {
                    assert(ts[k] == p);
                },
                None => {},
            }
        }
    } else {
        match action_of(bs.last(), default) {
            Some(a) => {
                assert(ts[r.len() as int] == (bs.last().name@, a));
            },
            None => {},
        }
    }
}

/// The clone URLs, character by character: over ssh the scp-like
/// `git@host:owner/name.git`, where a `:` parts the host from the owner;
/// over https `https://host/owner/name.git`.
pub proof fn law_clone_url_forms(domain: Seq<char>, owner: Seq<char>, name: Seq<char>)
    ensures
        clone_url(domain, owner, name, true) == seq!['g', 'i', 't', '@'] + domain + seq![':'] + owner + seq!['/'] + name
            + seq!['.', 'g', 'i', 't'],
        clone_url(domain, owner, name, false) == seq!['h', 't', 't', 'p', 's', ':', '/', '/'] + domain + seq!['/'] + owner
            + seq!['/'] + name + seq!['.', 'g', 'i', 't'],
        clone_url(domain, owner, name, true)[4 + domain.len() as int] == ':',
{
    reveal_strlit("git@");
    reveal_strlit(":");
    reveal_strlit("/");
    reveal_strlit(".git");
    reveal_strlit("https://");
    assert("git@"@ =~= seq!['g', 'i', 't', '@']);
    assert(":"@ =~= seq![':']);
    assert("/"@ =~= seq!['/']);
    assert(".git"@ =~= seq!['.', 'g', 'i', 't']);
    assert("https://"@ =~= seq!['h', 't', 't', 'p', 's', ':', '/', '/']);
    let u = clone_url(domain, owner, name, true);
    assert(u[4 + domain.len() as int] == (seq!['g', 'i', 't', '@'] + domain + seq![':'])[4 + domain.len() as int]);
}

} // verus!
