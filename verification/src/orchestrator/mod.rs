//! The orchestration kernel: which tasks of a run start when, and how the
//! run ends.
//!
//! A [`tracker::RunTracker`] follows one run. It is told what happened to
//! the run's containers and answers with what to ask of the scheduler next;
//! the program around this library carries both. After every step the
//! tracker's state meets [`TrackerView::wf`]: the rules of the run.
//! [`active::ActiveRuns`] holds the trackers of the runs that are running
//! and keeps the store in step with them.

pub mod active;
pub mod tracker;
pub mod variables;

use crate::graph::{acyclic, dependencies_known, task_graph};
use crate::models::{
    RequiredParentStatus, RunFailureReason, RunState, RunStatus, RunView, TaskRunState,
    TaskRunView, TaskView,
};
use crate::string_map::{distinct_keys, key_index};
use vstd::prelude::*;

verus! {

/// Whether the outcome of a task is what a task that depends on it asks for.
pub open spec fn satisfies(required: RequiredParentStatus, status: RunStatus) -> bool {
    match required {
        RequiredParentStatus::Any => true,
        RequiredParentStatus::Success => status == RunStatus::Successful,
        RequiredParentStatus::Failure => status == RunStatus::Failed,
        RequiredParentStatus::Unknown => false,
    }
}

/// Decides [`satisfies`].
pub fn is_satisfied(required: RequiredParentStatus, status: RunStatus) -> (r: bool)
    ensures
        r == satisfies(required, status),
{
    match required {
        RequiredParentStatus::Any => true,
        RequiredParentStatus::Success => status == RunStatus::Successful,
        RequiredParentStatus::Failure => status == RunStatus::Failed,
        RequiredParentStatus::Unknown => false,
    }
}

/// The task run exists and is over.
pub open spec fn over(t: Option<TaskRunView>) -> bool {
    t matches Some(r) && r.state.terminal()
}

/// The task run exists and is not over.
pub open spec fn live(t: Option<TaskRunView>) -> bool {
    t matches Some(r) && !r.state.terminal()
}

/// How the task run ended; unknown where there is none or it is not over.
pub open spec fn outcome_of(t: Option<TaskRunView>) -> RunStatus {
    match t {
        Some(r) => r.state.outcome(),
        None => RunStatus::Unknown,
    }
}

/// The place of the `d`-th task that task `i` depends on.
pub open spec fn parent(tasks: Seq<(Seq<char>, TaskView)>, i: int, d: int) -> int {
    key_index(tasks, tasks[i].1.depends_on[d].0)
}

/// The task run was stopped on behalf of a user or an administrator.
pub open spec fn stopped(t: Option<TaskRunView>) -> bool {
    t matches Some(r) && r.state == TaskRunState::Cancelled && !r.skipped()
}

/// The task run failed.
pub open spec fn failed(t: Option<TaskRunView>) -> bool {
    t matches Some(r) && r.state == TaskRunState::Failed
}

/// The reason of the first of `task_runs` that failed; unknown where none
/// failed or the first that failed gives no reason.
pub open spec fn first_failure(task_runs: Seq<Option<TaskRunView>>) -> RunFailureReason
    decreases task_runs.len(),
{
    if task_runs.len() == 0 {
        RunFailureReason::Unknown
    } else if failed(task_runs[0]) {
        match task_runs[0]->Some_0.failure {
            Some(f) => f.reason,
            None => RunFailureReason::Unknown,
        }
    } else {
        first_failure(task_runs.drop_first())
    }
}

/// What a tracker holds: the run, the tasks of its pipeline, the task run
/// of each task that has one, and who cancelled the run if anyone did.
pub struct TrackerView {
    pub run: RunView,
    pub tasks: Seq<(Seq<char>, TaskView)>,
    /// For each task, in the order of `tasks`, its task run.
    pub task_runs: Seq<Option<TaskRunView>>,
    pub cancelled: Option<RunFailureReason>,
    /// The seconds a container is given to stop of its own.
    pub grace: i64,
}

impl TrackerView {
    /// Every task that task `i` depends on has a task run that is over.
    pub open spec fn parents_over(self, i: int) -> bool {
        forall|d: int|
            0 <= d < self.tasks[i].1.depends_on.len() ==> over(
                self.task_runs[#[trigger] parent(self.tasks, i, d)],
            )
    }

    /// Every task that task `i` depends on ended as task `i` asks.
    pub open spec fn parents_satisfied(self, i: int) -> bool {
        forall|d: int|
            0 <= d < self.tasks[i].1.depends_on.len() ==> satisfies(
                self.tasks[i].1.depends_on[d].1,
                outcome_of(self.task_runs[#[trigger] parent(self.tasks, i, d)]),
            )
    }

    /// Task `i` can start: it has no task run, and every task it depends on
    /// is over and ended as task `i` asks.
    pub open spec fn ready(self, i: int) -> bool {
        self.task_runs[i] is None && self.parents_over(i) && self.parents_satisfied(i)
    }

    /// Task `i` waits for a task whose task run is missing or not over.
    pub open spec fn waiting(self, i: int) -> bool {
        exists|d: int|
            0 <= d < self.tasks[i].1.depends_on.len() && !over(
                self.task_runs[#[trigger] parent(self.tasks, i, d)],
            )
    }

    /// What holds of the task run `t` of task `i`: it is the task's own, its
    /// times are in order, the tasks it depends on are over, and it was set
    /// aside exactly if one of them did not end as the task asks.
    pub open spec fn task_run_ok(self, i: int, t: TaskRunView) -> bool {
        &&& t.id == self.tasks[i].0
        &&& t.namespace == self.run.namespace
        &&& t.pipeline == self.run.pipeline
        &&& t.run == self.run.id
        &&& t.state != TaskRunState::Unknown
        &&& t.times_in_order()
        &&& self.parents_over(i)
        &&& t.skipped() <==> !self.parents_satisfied(i)
    }

    /// Task `id` has a task run.
    pub open spec fn has_run_of(self, id: Seq<char>) -> bool {
        exists|i: int|
            0 <= i < self.task_runs.len() && (#[trigger] self.task_runs[i]) is Some
                && self.tasks[i].0 == id
    }

    /// The run lists the task runs there are: the identifier of every task
    /// that has a task run, and no other.
    pub open spec fn listed(self) -> bool {
        &&& forall|i: int|
            0 <= i < self.task_runs.len() && (#[trigger] self.task_runs[i]) is Some
                ==> self.run.task_runs.contains(self.tasks[i].0)
        &&& forall|k: int|
            0 <= k < self.run.task_runs.len() ==> self.has_run_of(#[trigger] self.run.task_runs[k])
    }

    /// Every task run there is is over.
    pub open spec fn all_over(self) -> bool {
        forall|i: int|
            0 <= i < self.task_runs.len() ==> (#[trigger] self.task_runs[i]) is Some ==> over(
                self.task_runs[i],
            )
    }

    /// The tasks are runnable, there is a place for the task run of each,
    /// every task run is in order, a cancelled run names the user or the
    /// administrator, and the run lists its task runs.
    pub open spec fn base_wf(self) -> bool {
        &&& distinct_keys(self.tasks)
        &&& dependencies_known(self.tasks)
        &&& acyclic(task_graph(self.tasks))
        &&& self.task_runs.len() == self.tasks.len()
        &&& forall|i: int|
            0 <= i < self.task_runs.len() ==> ((#[trigger] self.task_runs[i]) matches Some(t)
                ==> self.task_run_ok(i, t))
        &&& self.cancelled matches Some(by) ==> by == RunFailureReason::UserCancelled || by
            == RunFailureReason::AdminCancelled
        &&& self.listed()
    }

    /// Unless the run is cancelled, no task is left that could start or be
    /// set aside: every task without a task run waits.
    pub open spec fn settled(self) -> bool {
        self.cancelled is None ==> forall|i: int|
            0 <= i < self.task_runs.len() && (#[trigger] self.task_runs[i]) is None
                ==> self.waiting(i)
    }

    /// Some task has no task run.
    pub open spec fn some_missing(self) -> bool {
        exists|i: int| 0 <= i < self.task_runs.len() && (#[trigger] self.task_runs[i]) is None
    }

    /// How the run ends: cancelled if a task run was stopped, or the run was
    /// cancelled before every task had a task run; else failed if a task
    /// run failed; else successful.
    pub open spec fn outcome(self) -> RunStatus {
        if (exists|i: int| 0 <= i < self.task_runs.len() && stopped(#[trigger] self.task_runs[i]))
            || (self.cancelled is Some && self.some_missing()) {
            RunStatus::Cancelled
        } else if exists|i: int|
            0 <= i < self.task_runs.len() && failed(#[trigger] self.task_runs[i]) {
            RunStatus::Failed
        } else {
            RunStatus::Successful
        }
    }

    /// Why the run did not succeed: who cancelled it, the administrator
    /// where nobody is named; or the reason of the first task run that
    /// failed.
    pub open spec fn failure_reason(self) -> RunFailureReason {
        if self.outcome() == RunStatus::Cancelled {
            match self.cancelled {
                Some(by) => by,
                None => RunFailureReason::AdminCancelled,
            }
        } else {
            first_failure(self.task_runs)
        }
    }

    /// The run is written up as its task runs say: complete exactly if every
    /// task run there is is over, and then with its outcome and, unless it
    /// succeeded, the reason; running otherwise, without an outcome.
    pub open spec fn written_up(self) -> bool {
        &&& (self.run.state == RunState::Complete) == self.all_over()
        &&& self.run.state == RunState::Complete || self.run.state == RunState::Running
        &&& if self.run.state == RunState::Complete {
            &&& self.run.status == self.outcome()
            &&& self.run.started <= self.run.ended
            &&& if self.outcome() == RunStatus::Successful {
                self.run.failure_info is None
            } else {
                self.run.failure_info matches Some(f) && f.reason == self.failure_reason()
            }
        } else {
            self.run.status == RunStatus::Unknown && self.run.failure_info is None
        }
    }

    /// The rules of a tracked run.
    pub open spec fn wf(self) -> bool {
        self.base_wf() && self.settled() && self.written_up()
    }
}

/// A task run starts only when every task it depends on is over and ended
/// as the task asks: a task run that was not set aside has such parents
/// only.
pub proof fn lemma_starts_after_parents(v: TrackerView, i: int)
    requires
        v.base_wf(),
        0 <= i < v.task_runs.len(),
        v.task_runs[i] matches Some(t) && !t.skipped(),
    ensures
        v.parents_over(i),
        v.parents_satisfied(i),
{
}

/// After every step of a run that is not cancelled, no task is left that
/// can start: whatever can start has been started.
pub proof fn lemma_nothing_left_ready(v: TrackerView, i: int)
    requires
        v.wf(),
        v.cancelled is None,
        0 <= i < v.task_runs.len(),
    ensures
        !v.ready(i),
{
    if v.task_runs[i] is None {
        assert(v.waiting(i));
    }
}

/// In a run that is not cancelled, a task has a task run exactly if every
/// task it depends on is over: no task is given a task run too early, and
/// none is kept waiting.
pub proof fn lemma_task_run_iff_parents_over(v: TrackerView, i: int)
    requires
        v.wf(),
        v.cancelled is None,
        0 <= i < v.task_runs.len(),
    ensures
        v.task_runs[i] is Some <==> v.parents_over(i),
{
    if v.task_runs[i] is None {
        assert(v.waiting(i));
    } else {
        assert(v.task_run_ok(i, v.task_runs[i]->Some_0));
    }
}

/// A run is complete exactly if every one of its task runs is over.
pub proof fn lemma_complete_iff_all_over(v: TrackerView)
    requires
        v.wf(),
    ensures
        (v.run.state == RunState::Complete) <==> (forall|i: int|
            0 <= i < v.task_runs.len() && (#[trigger] v.task_runs[i]) is Some
                ==> v.task_runs[i]->Some_0.state.terminal()),
{
    if v.run.state == RunState::Complete {
        assert forall|i: int| 0 <= i < v.task_runs.len() && (#[trigger] v.task_runs[i]) is Some implies v.task_runs[i]->Some_0.state.terminal() by {
            assert(over(v.task_runs[i]));
        }
    }
}

/// Of every task run, the start does not come after the end where both
/// are set.
pub proof fn lemma_times_in_order(v: TrackerView, i: int)
    requires
        v.base_wf(),
        0 <= i < v.task_runs.len(),
        v.task_runs[i] is Some,
    ensures
        v.task_runs[i]->Some_0.times_in_order(),
{
}

/// A run that is complete and was not cancelled has left no task out:
/// every task has a task run.
pub proof fn lemma_complete_leaves_nothing(v: TrackerView)
    requires
        v.wf(),
        v.run.state == RunState::Complete,
        v.cancelled is None,
    ensures
        forall|i: int| 0 <= i < v.task_runs.len() ==> (#[trigger] v.task_runs[i]) is Some,
{
    let g = task_graph(v.tasks);
    let placed = Seq::new(v.task_runs.len(), |i: int| v.task_runs[i] is Some);
    assert forall|i: int| 0 <= i < g.len() && !#[trigger] placed[i] implies crate::graph::waits(
        g,
        placed,
        i,
    ) by {
        assert(v.task_runs[i] is None);
        assert(v.waiting(i));
        let d = choose|d: int|
            0 <= d < v.tasks[i].1.depends_on.len() && !over(
                v.task_runs[#[trigger] parent(v.tasks, i, d)],
            );
        let p = parent(v.tasks, i, d);
        assert(crate::string_map::has_key(v.tasks, v.tasks[i].1.depends_on[d].0));
        assert(g[i][d] == p);
        assert(0 <= p < v.tasks.len());
        if v.task_runs[p] is Some {
            assert(over(v.task_runs[p]));
        }
        assert(!placed[g[i][d]]);
    }
    assert(crate::graph::stuck(g, placed));
    if crate::graph::unplaced(placed) > 0 {
        crate::graph::lemma_stuck_has_cycle(g, placed);
    }
    crate::graph::lemma_none_unplaced(placed);
    assert forall|i: int| 0 <= i < v.task_runs.len() implies (#[trigger] v.task_runs[i]) is Some by {
        assert(placed[i]);
    }
}

} // verus!
