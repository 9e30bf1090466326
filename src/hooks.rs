//! The hook pipeline: named hooks, each scoped to stages, run in registration
//! order and stopped at the first failure.
use vstd::prelude::*;

verus! {

/// A point in the materialization timeline.
#[derive(Clone, Copy, Debug, PartialEq, Eq, Structural)]
pub enum Stage {
    PreClone,
    PostClone,
}

/// Removes the template's `.git` directory, if there is one.
#[derive(Clone, Copy, Debug, PartialEq, Eq, Structural)]
pub struct RemoveGit;

/// Substitutes the placeholders in names and contents.
#[derive(Clone, Copy, Debug, PartialEq, Eq, Structural)]
pub struct ReplacePlaceholders;

/// Runs the recipe's shell commands in the project directory.
#[derive(Clone, Copy, Debug, PartialEq, Eq, Structural)]
pub struct RunCommands;

impl RemoveGit {
    pub fn name(&self) -> (r: &'static str)
        ensures
            r@ == hook_name(Hook::RemoveGit(*self)),
    {
        "Remove .git directory from template"
    }

    pub fn stage(&self) -> (r: Vec<Stage>)
        ensures
            r@ == Hook::RemoveGit(*self).stages(),
    {
        vec![Stage::PostClone]
    }
}

impl ReplacePlaceholders {
    pub fn name(&self) -> (r: &'static str)
        ensures
            r@ == hook_name(Hook::ReplacePlaceholders(*self)),
    {
        "Replace Placeholders"
    }

    pub fn stage(&self) -> (r: Vec<Stage>)
        ensures
            r@ == Hook::ReplacePlaceholders(*self).stages(),
    {
        vec![Stage::PostClone]
    }
}

impl RunCommands {
    pub fn name(&self) -> (r: &'static str)
        ensures
            r@ == hook_name(Hook::RunCommands(*self)),
    {
        "Run Commands"
    }

    pub fn stage(&self) -> (r: Vec<Stage>)
        ensures
            r@ == Hook::RunCommands(*self).stages(),
    {
        vec![Stage::PostClone]
    }
}

/// The hooks of this system, dispatched by variant.
#[derive(Clone, Copy, Debug, PartialEq, Eq, Structural)]
pub enum Hook {
    RemoveGit(RemoveGit),
    ReplacePlaceholders(ReplacePlaceholders),
    RunCommands(RunCommands),
}

impl Hook {
    /// The stages at which the hook runs: every hook of this system runs
    /// after the clone.
    pub open spec fn stages(self) -> Seq<Stage> {
        seq![Stage::PostClone]
    }

    /// Whether the hook runs at `stage`.
    pub open spec fn runs_at(self, stage: Stage) -> bool {
        self.stages().contains(stage)
    }

    /// The stages at which the hook runs.
    pub fn stage(&self) -> (r: Vec<Stage>)
        ensures
            r@ == self.stages(),
    {
        match self {
            Hook::RemoveGit(h) => h.stage(),
            Hook::ReplacePlaceholders(h) => h.stage(),
            Hook::RunCommands(h) => h.stage(),
        }
    }

    /// Tells whether the hook runs at `stage`.
    pub fn is_at(&self, stage: Stage) -> (r: bool)
        ensures
            r == self.runs_at(stage),
    {
        let stages = self.stage();
        let mut i: usize = 0;
        while i < stages.len()
            invariant
                stages@ == self.stages(),
                i <= stages@.len(),
                forall|j: int| 0 <= j < i ==> stages@[j] != stage,
            decreases stages@.len() - i,
        {
            if stages[i] == stage {
                assert(stages@[i as int] == stage);
                return true;
            }
            i = i + 1;
        }
        false
    }

    /// The display name, shown when the hook fails.
    pub fn name(&self) -> (r: &'static str)
        ensures
            r@ == hook_name(*self),
    {
        match self {
            Hook::RemoveGit(h) => h.name(),
            Hook::ReplacePlaceholders(h) => h.name(),
            Hook::RunCommands(h) => h.name(),
        }
    }
}

/// The display name of each hook.
pub open spec fn hook_name(h: Hook) -> Seq<char> {
    match h {
        Hook::RemoveGit(_) => "Remove .git directory from template"@,
        Hook::ReplacePlaceholders(_) => "Replace Placeholders"@,
        Hook::RunCommands(_) => "Run Commands"@,
    }
}

/// The hooks of a run, in registration order.
pub struct Registry {
    hooks: Vec<Hook>,
}

impl Registry {
    pub closed spec fn view(&self) -> Seq<Hook> {
        self.hooks@
    }

    /// An empty registry.
    pub fn new() -> (r: Registry)
        ensures
            r@ == Seq::<Hook>::empty(),
    {
        Registry { hooks: Vec::new() }
    }

    /// The default pipeline: remove `.git`, replace placeholders, run commands.
    pub fn with_defaults() -> (r: Registry)
        ensures
            r@ == seq![
                Hook::RemoveGit(RemoveGit),
                Hook::ReplacePlaceholders(ReplacePlaceholders),
                Hook::RunCommands(RunCommands),
            ],
    {
        let mut registry = Registry::new();
        registry.register(Hook::RemoveGit(RemoveGit));
        registry.register(Hook::ReplacePlaceholders(ReplacePlaceholders));
        registry.register(Hook::RunCommands(RunCommands));
        assert(registry@ =~= seq![
            Hook::RemoveGit(RemoveGit),
            Hook::ReplacePlaceholders(ReplacePlaceholders),
            Hook::RunCommands(RunCommands),
        ]);
        registry
    }

    /// Adds a hook after those registered so far.
    pub fn register(&mut self, hook: Hook)
        ensures
            final(self)@ == old(self)@.push(hook),
    {
        self.hooks.push(hook);
    }

    /// The hooks that run at `stage`, in registration order.
    pub fn hooks_at(&self, stage: Stage) -> (r: Vec<Hook>)
        ensures
            r@ == self@.filter(|h: Hook| h.runs_at(stage)),
    {
        let mut out: Vec<Hook> = Vec::new();
        let mut i: usize = 0;
        while i < self.hooks.len()
            invariant
                i <= self@.len(),
                out@ == self@.subrange(0, i as int).filter(|h: Hook| h.runs_at(stage)),
            decreases self@.len() - i,
        {
            let h = self.hooks[i];
            proof {
                let s = self@.subrange(0, i + 1);
                assert(s.drop_last() =~= self@.subrange(0, i as int));
                assert(s.last() == h);
                reveal(Seq::filter);
            }
            if h.is_at(stage) {
                out.push(h);
            }
            i = i + 1;
        }
        assert(self@.subrange(0, self@.len() as int) =~= self@);
        out
    }
}

/// How a shell command failed.
#[derive(Clone, Copy, Debug, PartialEq, Eq, Structural)]
pub enum CommandFailure {
    /// It exited with this non-zero code.
    ExitCode(i32),
    /// A signal ended it.
    Signal,
}

/// The outcome of a command from its exit status: success, else the exit code
/// where there is one, else termination by a signal.
pub fn command_outcome(success: bool, code: Option<i32>) -> (r: Result<(), CommandFailure>)
    ensures
        success ==> r is Ok,
        !success ==> r == (match code {
            Some(c) => Err::<(), CommandFailure>(CommandFailure::ExitCode(c)),
            None => Err(CommandFailure::Signal),
        }),
{
    if success {
        Ok(())
    } else {
        match code {
            Some(c) => Err(CommandFailure::ExitCode(c)),
            None => Err(CommandFailure::Signal),
        }
    }
}

/// Where a run stands: how many hooks succeeded, and whether the next one failed.
pub open spec fn step(order_len: nat, state: (nat, bool), succeeded: bool) -> (nat, bool) {
    if state.1 || state.0 >= order_len {
        state
    } else if succeeded {
        (state.0 + 1, false)
    } else {
        (state.0, true)
    }
}

/// The state after each outcome in turn, from the start.
pub open spec fn after(order_len: nat, outcomes: Seq<bool>) -> (nat, bool)
    decreases outcomes.len(),
{
    if outcomes.len() == 0 {
        (0, false)
    } else {
        step(order_len, after(order_len, outcomes.drop_last()), outcomes.last())
    }
}

/// The run of one stage's hooks: it hands them out in order and stops at the
/// first failure.
pub struct HookRun {
    order: Vec<Hook>,
    done: usize,
    failed: bool,
}

impl HookRun {
    /// The hooks of the stage, in the order they run.
    pub closed spec fn order(&self) -> Seq<Hook> {
        self.order@
    }

    /// How many hooks succeeded, and whether the one after them failed.
    pub closed spec fn state(&self) -> (nat, bool) {
        (self.done as nat, self.failed)
    }

    pub closed spec fn wf(&self) -> bool {
        self.done <= self.order@.len() && (self.failed ==> self.done < self.order@.len())
    }

    /// The hook to run next, if any.
    pub open spec fn pending(&self) -> Option<Hook> {
        if !self.state().1 && self.state().0 < self.order().len() {
            Some(self.order()[self.state().0 as int])
        } else {
            None
        }
    }

    /// Starts the run of the hooks registered for `stage`.
    pub fn start(registry: &Registry, stage: Stage) -> (r: HookRun)
        ensures
            r.wf(),
            r.order() == registry@.filter(|h: Hook| h.runs_at(stage)),
            r.state() == (0nat, false),
    {
        HookRun { order: registry.hooks_at(stage), done: 0, failed: false }
    }

    /// The hook to run next; `None` once all succeeded or one failed.
    pub fn next_hook(&self) -> (r: Option<Hook>)
        requires
            self.wf(),
        ensures
            r == self.pending(),
    {
        if !self.failed && self.done < self.order.len() {
            Some(self.order[self.done])
        } else {
            None
        }
    }

    /// Records how the pending hook ended.
    pub fn record(&mut self, succeeded: bool)
        requires
            old(self).wf(),
        ensures
            final(self).wf(),
            final(self).order() == old(self).order(),
            final(self).state() == step(old(self).order().len(), old(self).state(), succeeded),
    {
        if !self.failed && self.done < self.order.len() {
            if succeeded {
                self.done = self.done + 1;
            } else {
                self.failed = true;
            }
        }
    }

    /// The hook that failed, if one did.
    pub fn failure(&self) -> (r: Option<Hook>)
        requires
            self.wf(),
        ensures
            r == (if self.state().1 {
                Some(self.order()[self.state().0 as int])
            } else {
                None::<Hook>
            }),
    {
        if self.failed {
            Some(self.order[self.done])
        } else {
            None
        }
    }
}

/// The steps of one materialization, in order.
#[derive(Clone, Copy, Debug, PartialEq, Eq, Structural)]
pub enum Phase {
    /// The hooks registered for `Stage::PreClone`.
    PreCloneHooks,
    /// The clone of the template into the project directory.
    Clone,
    /// The hooks registered for `Stage::PostClone`.
    PostCloneHooks,
    /// Every step succeeded.
    Done,
    /// A step failed; nothing after it runs.
    Failed,
}

/// The phase that follows `p` once its step ended.
pub open spec fn phase_after(p: Phase, succeeded: bool) -> Phase {
    match p {
        Phase::Done => Phase::Done,
        Phase::Failed => Phase::Failed,
        _ => if !succeeded {
            Phase::Failed
        } else {
            match p {
                Phase::PreCloneHooks => Phase::Clone,
                Phase::Clone => Phase::PostCloneHooks,
                _ => Phase::Done,
            }
        },
    }
}

/// The phase after each outcome in turn, from `p`.
pub open spec fn phases_from(p: Phase, outcomes: Seq<bool>) -> Phase
    decreases outcomes.len(),
{
    if outcomes.len() == 0 {
        p
    } else {
        phases_from(phase_after(p, outcomes[0]), outcomes.drop_first())
    }
}

/// The phase that follows `phase` once its step ended.
pub fn advance(phase: Phase, succeeded: bool) -> (r: Phase)
    ensures
        r == phase_after(phase, succeeded),
{
    match phase {
        Phase::Done => Phase::Done,
        Phase::Failed => Phase::Failed,
        _ => if !succeeded {
            Phase::Failed
        } else {
            match phase {
                Phase::PreCloneHooks => Phase::Clone,
                Phase::Clone => Phase::PostCloneHooks,
                _ => Phase::Done,
            }
        },
    }
}

/// A failure is final: whatever comes after it, no later step runs.
pub proof fn lemma_failure_is_final(outcomes: Seq<bool>)
    ensures
        phases_from(Phase::Failed, outcomes) == Phase::Failed,
    decreases outcomes.len(),
{
    if outcomes.len() > 0 {
        lemma_failure_is_final(outcomes.drop_first());
    }
}

/// Hooks run in registration order filtered by stage, and a failure stops the
/// run: after outcomes whose first failure is at `f`, exactly the hooks before
/// `f` succeeded, the one at `f` failed, and none is pending.
pub proof fn lemma_fail_fast(order_len: nat, outcomes: Seq<bool>, f: int)
    requires
        0 <= f < outcomes.len(),
        f < order_len,
        !outcomes[f],
        forall|k: int| 0 <= k < f ==> outcomes[k],
    ensures
        after(order_len, outcomes) == (f as nat, true),
    decreases outcomes.len(),
{
    if outcomes.len() > f + 1 {
        lemma_fail_fast(order_len, outcomes.drop_last(), f);
    } else {
        lemma_all_succeed(order_len, outcomes.drop_last());
    }
}

/// While every hook succeeds, they run one after another in order.
pub proof fn lemma_all_succeed(order_len: nat, outcomes: Seq<bool>)
    requires
        outcomes.len() <= order_len,
        forall|k: int| 0 <= k < outcomes.len() ==> outcomes[k],
    ensures
        after(order_len, outcomes) == (outcomes.len(), false),
    decreases outcomes.len(),
{
    if outcomes.len() > 0 {
        lemma_all_succeed(order_len, outcomes.drop_last());
    }
}

} // verus!
