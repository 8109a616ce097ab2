//! The stage runner: a fail-fast state machine over the stages of a run-book.
//!
//! The runner decides; its caller performs the remote calls. `start` resolves
//! the first stage, and each `report` of a stage's answers either halts the
//! run or moves on and resolves the next stage.
use vstd::prelude::*;
use crate::dispatch::{
    aggregate_responses, first_failure_of, invocation_outcome, lemma_all_succeeded,
    lemma_first_failure_in_input_order, stage_outcomes, InvocationError, InvocationFailure,
};
use crate::name_index::{lemma_resolve_characterized, names_to_ids, resolve, views, NameIndex};
use crate::runbook::{namespace_of, Action, Namespace, Stage};

verus! {

/// Why a run stopped before its last stage completed.
#[derive(Clone, Debug, PartialEq, Eq)]
pub enum RunError {
    /// A target name of the stage is absent from the applicable index.
    NameNotFound { stage: String, name: String },
    /// An invocation of the stage failed: the first failure in target order.
    Invocation { stage: String, error: InvocationError },
}

/// Where a run stands.
#[derive(Clone, Debug, PartialEq, Eq)]
pub enum Phase {
    /// The current stage is next to be resolved.
    Pending,
    /// The current stage's invocations are out; their answers are awaited.
    Running,
    /// The run stopped at the current stage.
    Failed(RunError),
    /// Every stage completed.
    Completed,
}

/// What the runner asks its caller to do next.
#[derive(Debug, PartialEq, Eq)]
pub enum Command {
    /// Invoke `action` on each identifier concurrently, wait for all of them,
    /// and report the answers in the order of `ids`.
    Dispatch { action: Action, ids: Vec<String> },
    /// The run is over, with this result.
    Finish(Result<(), RunError>),
}

/// The index that serves an action's namespace.
pub open spec fn index_for(
    action: Action,
    builds: Map<Seq<char>, Seq<char>>,
    deployments: Map<Seq<char>, Seq<char>>,
) -> Map<Seq<char>, Seq<char>> {
    match namespace_of(action) {
        Namespace::Builds => builds,
        Namespace::Deployments => deployments,
    }
}

/// The resolution of a stage's targets in the index of its action's namespace.
pub open spec fn stage_resolution(
    stage: Stage,
    builds: Map<Seq<char>, Seq<char>>,
    deployments: Map<Seq<char>, Seq<char>>,
) -> Result<Seq<Seq<char>>, Seq<char>> {
    resolve(views(stage.targets@), index_for(stage.action, builds, deployments))
}

/// Runs the stages of a run-book in order against two name snapshots, one
/// for builds and one for deployments.
pub struct StageRunner {
    stages: Vec<Stage>,
    builds: NameIndex,
    deployments: NameIndex,
    current: usize,
    phase: Phase,
    dispatched: Vec<String>,
}

impl StageRunner {
    /// The stages, in order.
    pub closed spec fn stages(&self) -> Seq<Stage> {
        self.stages@
    }

    /// The snapshot of build names.
    pub closed spec fn builds(&self) -> Map<Seq<char>, Seq<char>> {
        self.builds@
    }

    /// The snapshot of deployment names.
    pub closed spec fn deployments(&self) -> Map<Seq<char>, Seq<char>> {
        self.deployments@
    }

    /// The position of the stage the run is at.
    pub closed spec fn current(&self) -> int {
        self.current as int
    }

    /// Where the run stands.
    pub closed spec fn phase(&self) -> Phase {
        self.phase
    }

    /// The identifiers whose answers are awaited, in dispatch order.
    pub closed spec fn dispatched(&self) -> Seq<String> {
        self.dispatched@
    }

    /// The runner's invariant.
    pub open spec fn wf(&self) -> bool {
        &&& 0 <= self.current() <= self.stages().len()
        &&& self.phase() is Pending ==> self.current() < self.stages().len()
        &&& self.phase() is Running ==> {
            &&& self.current() < self.stages().len()
            &&& stage_resolution(self.stages()[self.current()], self.builds(), self.deployments())
                == Ok::<Seq<Seq<char>>, Seq<char>>(views(self.dispatched()))
        }
        &&& self.phase() is Failed ==> self.current() < self.stages().len()
        &&& self.phase() is Completed ==> self.current() == self.stages().len()
    }

    /// Whether a caller may still be asked to dispatch, now or later.
    pub open spec fn live(&self) -> bool {
        self.phase() is Pending || self.phase() is Running
    }

    /// `next` and `cmd` are what entering stage `k` leads to: past the last
    /// stage the run completes; otherwise the stage's targets are resolved and
    /// either dispatched or, at the first missing name, the run fails.
    pub open spec fn entered(&self, next: StageRunner, cmd: Command, k: int) -> bool {
        &&& next.stages() == self.stages()
        &&& next.builds() == self.builds()
        &&& next.deployments() == self.deployments()
        &&& next.current() == k
        &&& if k == self.stages().len() {
            next.phase() is Completed && cmd == Command::Finish(Ok(()))
        } else {
            let stage = self.stages()[k];
            match stage_resolution(stage, self.builds(), self.deployments()) {
                Ok(ids) => {
                    &&& next.phase() is Running
                    &&& views(next.dispatched()) == ids
                    &&& cmd matches Command::Dispatch { action, ids: v }
                    &&& action == stage.action
                    &&& views(v@) == ids
                },
                Err(missing) => {
                    &&& next.phase() matches Phase::Failed(e)
                    &&& e matches RunError::NameNotFound { stage: s, name }
                    &&& s == stage.name
                    &&& name@ == missing
                    &&& cmd == Command::Finish(Err(e))
                },
            }
        }
    }

    /// `next` and `cmd` are what the answers `responses` to the current
    /// stage's invocations lead to: the first failure in identifier order
    /// stops the run at this stage; otherwise the next stage is entered.
    pub open spec fn reported(
        &self,
        responses: Seq<Result<bool, String>>,
        next: StageRunner,
        cmd: Command,
    ) -> bool {
        let stage = self.stages()[self.current()];
        match first_failure_of(stage_outcomes(stage.action, self.dispatched(), responses)) {
            Err(error) => {
                let e = RunError::Invocation { stage: stage.name, error };
                &&& next.stages() == self.stages()
                &&& next.builds() == self.builds()
                &&& next.deployments() == self.deployments()
                &&& next.current() == self.current()
                &&& next.phase() == Phase::Failed(e)
                &&& cmd == Command::Finish(Err(e))
            },
            Ok(()) => self.entered(next, cmd, self.current() + 1),
        }
    }

    /// A runner at the first stage, or already completed when there is none.
    pub fn new(stages: Vec<Stage>, builds: NameIndex, deployments: NameIndex) -> (r: StageRunner)
        ensures
            r.wf(),
            r.stages() == stages@,
            r.builds() == builds@,
            r.deployments() == deployments@,
            r.current() == 0,
            r.phase() == (if stages.len() == 0 {
                Phase::Completed
            } else {
                Phase::Pending
            }),
    {
        let phase = if stages.len() == 0 {
            Phase::Completed
        } else {
            Phase::Pending
        };
        StageRunner { stages, builds, deployments, current: 0, phase, dispatched: Vec::new() }
    }

    /// Moves to stage `k` and resolves it.
    fn enter(&mut self, k: usize) -> (cmd: Command)
        requires
            k <= old(self).stages().len(),
        ensures
            final(self).wf(),
            old(self).entered(*final(self), cmd, k as int),
    {
        self.current = k;
        if k == self.stages.len() {
            self.phase = Phase::Completed;
            return Command::Finish(Ok(()));
        }
        let action = self.stages[k].action;
        let resolved = match action.namespace() {
            Namespace::Builds => names_to_ids(&self.stages[k].targets, &self.builds),
            Namespace::Deployments => names_to_ids(&self.stages[k].targets, &self.deployments),
        };
        match resolved {
            Ok(ids) => {
                self.dispatched = copy_strings(&ids);
                self.phase = Phase::Running;
                Command::Dispatch { action, ids }
            },
            Err(missing) => {
                let e = RunError::NameNotFound {
                    stage: self.stages[k].name.clone(),
                    name: missing.name,
                };
                self.phase = Phase::Failed(copy_error(&e));
                Command::Finish(Err(e))
            },
        }
    }

    /// Begins the run: resolves the first stage, or finishes at once when
    /// there are no stages.
    pub fn start(&mut self) -> (cmd: Command)
        requires
            old(self).wf(),
            old(self).phase() is Pending || old(self).phase() is Completed,
        ensures
            final(self).wf(),
            old(self).entered(*final(self), cmd, old(self).current()),
    {
        let k = self.current;
        self.enter(k)
    }

    /// Takes the answers to the current stage's invocations, in the order of
    /// the identifiers that were dispatched: each is the success flag of the
    /// service's answer, or a transport error.
    pub fn report(&mut self, responses: &Vec<Result<bool, String>>) -> (cmd: Command)
        requires
            old(self).wf(),
            old(self).phase() is Running,
            responses.len() == old(self).dispatched().len(),
        ensures
            final(self).wf(),
            old(self).reported(responses@, *final(self), cmd),
    {
        let k = self.current;
        let n = self.stages.len();
        assert(k < n);
        let action = self.stages[k].action;
        match aggregate_responses(action, &self.dispatched, responses) {
            Err(error) => {
                let e = RunError::Invocation { stage: self.stages[k].name.clone(), error };
                self.phase = Phase::Failed(copy_error(&e));
                Command::Finish(Err(e))
            },
            Ok(()) => self.enter(k + 1),
        }
    }

    /// Whether the runner awaits the answers to a dispatch.
    pub fn awaits_report(&self) -> (r: bool)
        ensures
            r == (self.phase() is Running),
    {
        match self.phase {
            Phase::Running => true,
            _ => false,
        }
    }

    /// How many answers the awaited report must hold.
    pub fn dispatched_count(&self) -> (r: usize)
        ensures
            r == self.dispatched().len(),
    {
        self.dispatched.len()
    }

    /// The position of the stage the run is at.
    pub fn current_stage(&self) -> (r: usize)
        ensures
            r == self.current(),
    {
        self.current
    }
}

/// A copy of a sequence of strings.
fn copy_strings(v: &Vec<String>) -> (r: Vec<String>)
    ensures
        r@ == v@,
{
    let mut r: Vec<String> = Vec::new();
    let mut i: usize = 0;
    while i < v.len()
        invariant
            i <= v.len(),
            r@ == v@.subrange(0, i as int),
        decreases v.len() - i,
    {
        r.push(v[i].clone());
        assert(r@ =~= v@.subrange(0, i + 1));
        i = i + 1;
    }
    assert(r@ =~= v@);
    r
}

/// A copy of a run error.
fn copy_error(e: &RunError) -> (r: RunError)
    ensures
        r == *e,
{
    match e {
        RunError::NameNotFound { stage, name } => RunError::NameNotFound {
            stage: stage.clone(),
            name: name.clone(),
        },
        RunError::Invocation { stage, error } => RunError::Invocation {
            stage: stage.clone(),
            error: InvocationError {
                action: error.action,
                id: error.id.clone(),
                cause: match &error.cause {
                    InvocationFailure::Transport(t) => InvocationFailure::Transport(t.clone()),
                    InvocationFailure::Unsuccessful => InvocationFailure::Unsuccessful,
                },
            },
        },
    }
}

/// A run-book without stages completes successfully at once: nothing is
/// dispatched.
pub proof fn lemma_empty_runbook_completes(r: StageRunner, next: StageRunner, cmd: Command)
    requires
        r.wf(),
        r.stages().len() == 0,
        r.entered(next, cmd, r.current()),
    ensures
        cmd == Command::Finish(Ok(())),
        next.phase() is Completed,
{
}

/// When every target name of a stage is in the applicable index, entering
/// the stage dispatches the action on the resolved identifiers, in order.
pub proof fn lemma_resolvable_stage_dispatches(r: StageRunner, next: StageRunner, cmd: Command, k: int)
    requires
        0 <= k < r.stages().len(),
        forall|i: int|
            0 <= i < r.stages()[k].targets.len() ==> index_for(
                r.stages()[k].action,
                r.builds(),
                r.deployments(),
            ).contains_key(#[trigger] r.stages()[k].targets@[i]@),
        r.entered(next, cmd, k),
    ensures
        next.phase() is Running,
        cmd matches Command::Dispatch { action, ids } && action == r.stages()[k].action && ids.len()
            == r.stages()[k].targets.len() && forall|i: int|
            0 <= i < ids.len() ==> #[trigger] ids@[i]@ == index_for(
                r.stages()[k].action,
                r.builds(),
                r.deployments(),
            )[r.stages()[k].targets@[i]@],
{
    let stage = r.stages()[k];
    let index = index_for(stage.action, r.builds(), r.deployments());
    let names = views(stage.targets@);
    lemma_resolve_characterized(names, index);
    assert forall|i: int| 0 <= i < names.len() implies index.contains_key(#[trigger] names[i]) by {
        assert(names[i] == stage.targets@[i]@);
    }
    if let Command::Dispatch { action, ids } = cmd {
        assert(views(ids@).len() == ids@.len());
        assert forall|i: int| 0 <= i < ids.len() implies #[trigger] ids@[i]@ == index[
            stage.targets@[i]@] by {
            assert(views(ids@)[i] == ids@[i]@);
            assert(names[i] == stage.targets@[i]@);
        }
    }
}

/// When every invocation of the current stage reports success, the stage
/// completes: the run moves to the next stage, and after the last stage it
/// completes successfully.
pub proof fn lemma_successful_stage_advances(
    r: StageRunner,
    responses: Seq<Result<bool, String>>,
    next: StageRunner,
    cmd: Command,
)
    requires
        r.wf(),
        r.phase() is Running,
        responses.len() == r.dispatched().len(),
        forall|i: int| 0 <= i < responses.len() ==> #[trigger] responses[i] == Ok::<bool, String>(true),
        r.reported(responses, next, cmd),
    ensures
        next.current() == r.current() + 1,
        next.current() == r.stages().len() ==> next.phase() is Completed && cmd == Command::Finish(
            Ok(()),
        ),
{
    let stage = r.stages()[r.current()];
    let outcomes = stage_outcomes(stage.action, r.dispatched(), responses);
    assert forall|j: int| 0 <= j < outcomes.len() implies outcomes[j] is Ok by {
        assert(responses[j] == Ok::<bool, String>(true));
    }
    lemma_all_succeeded(outcomes);
}

/// When a target name of a stage is absent from the applicable index, the run
/// fails at that stage with a missing-name error and nothing is dispatched;
/// the name reported is the first absent one in target order.
pub proof fn lemma_missing_name_fails(r: StageRunner, next: StageRunner, cmd: Command, k: int, j: int)
    requires
        0 <= k < r.stages().len(),
        0 <= j < r.stages()[k].targets.len(),
        !index_for(r.stages()[k].action, r.builds(), r.deployments()).contains_key(
            r.stages()[k].targets@[j]@,
        ),
        r.entered(next, cmd, k),
    ensures
        next.phase() is Failed,
        next.current() == k,
        cmd matches Command::Finish(Err(RunError::NameNotFound { stage, name })) && stage
            == r.stages()[k].name && (exists|m: int|
            0 <= m < r.stages()[k].targets.len() && !index_for(
                r.stages()[k].action,
                r.builds(),
                r.deployments(),
            ).contains_key(#[trigger] r.stages()[k].targets@[m]@) && name@ == r.stages()[k].targets@[m]@),
        (forall|i: int|
            0 <= i < j ==> index_for(r.stages()[k].action, r.builds(), r.deployments()).contains_key(
                #[trigger] r.stages()[k].targets@[i]@,
            )) ==> (cmd matches Command::Finish(Err(RunError::NameNotFound { name, .. })) && name@
            == r.stages()[k].targets@[j]@),
{
    let stage = r.stages()[k];
    let index = index_for(stage.action, r.builds(), r.deployments());
    let names = views(stage.targets@);
    lemma_resolve_characterized(names, index);
    assert(names[j] == stage.targets@[j]@);
    let m = choose|m: int|
        0 <= m < names.len() && !index.contains_key(names[m]) && (forall|i: int|
            0 <= i < m ==> index.contains_key(#[trigger] names[i])) && resolve(names, index)->Err_0
            == names[m];
    assert(names[m] == stage.targets@[m]@);
    if forall|i: int| 0 <= i < j ==> index.contains_key(#[trigger] stage.targets@[i]@) {
        if m < j {
            assert(index.contains_key(stage.targets@[m]@));
        }
        if m > j {
            assert(index.contains_key(names[j]));
        }
    }
}

/// A failing stage ends the run: the runner tells its caller to finish with
/// the error and is left in a phase that neither `start` nor `report`
/// accepts, so no later stage is ever dispatched.
pub proof fn lemma_failure_halts_run(
    r: StageRunner,
    responses: Seq<Result<bool, String>>,
    next: StageRunner,
    cmd: Command,
    k: int,
)
    requires
        r.entered(next, cmd, k) || (r.phase() is Running && r.reported(responses, next, cmd)),
        next.phase() is Failed,
    ensures
        next.stages() == r.stages(),
        cmd matches Command::Finish(Err(e)) && next.phase() == Phase::Failed(e),
        !next.live(),
        !(next.phase() is Completed),
{
}

/// The failure reported for a stage is that of the first identifier, in
/// dispatch order, whose invocation failed, whatever the others answered.
pub proof fn lemma_report_names_first_failure(
    r: StageRunner,
    responses: Seq<Result<bool, String>>,
    next: StageRunner,
    cmd: Command,
    j: int,
)
    requires
        r.wf(),
        r.phase() is Running,
        responses.len() == r.dispatched().len(),
        0 <= j < responses.len(),
        responses[j] != Ok::<bool, String>(true),
        forall|i: int| 0 <= i < j ==> #[trigger] responses[i] == Ok::<bool, String>(true),
        r.reported(responses, next, cmd),
    ensures
        cmd == Command::Finish(
            Err(
                RunError::Invocation {
                    stage: r.stages()[r.current()].name,
                    error: invocation_outcome(
                        r.stages()[r.current()].action,
                        r.dispatched()[j],
                        responses[j],
                    )->Err_0,
                },
            ),
        ),
        next.current() == r.current(),
{
    let stage = r.stages()[r.current()];
    let outcomes = stage_outcomes(stage.action, r.dispatched(), responses);
    assert forall|i: int| 0 <= i < j implies outcomes[i] is Ok by {
        assert(responses[i] == Ok::<bool, String>(true));
    }
    lemma_first_failure_in_input_order(outcomes, j);
}

} // verus!
