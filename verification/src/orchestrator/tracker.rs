//! Following one run: from the tasks that can start at once to the outcome.

use crate::graph::{
    closed_graph, dependency_places, graph_of, lemma_place_one, lemma_task_graph_closed,
    runnable, task_graph, topological_order, unplaced,
};
use crate::models::{
    Run, RunFailureInfo, RunFailureReason, RunState, RunStatus, Task, TaskRun, TaskRunState,
    TaskRunView, TaskView,
};
use crate::orchestrator::variables::{
    container_name, container_name_of, environment, environment_of, parent_status_key,
    record_parent_status, Env,
};
use crate::orchestrator::{
    failed, first_failure, is_satisfied, live, outcome_of, over, parent, satisfies, stopped,
    TrackerView,
};
use crate::scheduler::{Exec, RegistryAuth, StartContainerRequest, StopContainerRequest};
use crate::string_map::{
    bind, distinct_keys, has_key, key_index, lemma_deep_keys, StringMap,
};
use crate::text::owned;
use vstd::prelude::*;

verus! {

/// Why a run could not be taken up.
#[derive(Debug, Clone, Copy, PartialEq, Eq, Structural)]
pub enum StartError {
    /// The run is not pending: it was taken up before.
    RunNotPending,
    /// A task depends on a task that the pipeline does not have, or waits,
    /// directly or through others, for itself.
    NotRunnable,
}

/// What happened to a run, as the tracker is told.
#[derive(Debug, PartialEq, Eq)]
pub enum Event {
    /// The scheduler started the container of a task.
    Started { task: String, scheduler_id: Option<String>, url: Option<String> },
    /// The scheduler could not start the container of a task.
    StartFailed { task: String, reason: String },
    /// The scheduler reported the state of the container of a task.
    Observed { task: String, state: TaskRunState, exit_code: Option<u8> },
    /// Someone asked for the run to be cancelled.
    Cancel { by: RunFailureReason, force: bool },
}

/// What the tracker asks of the scheduler.
#[derive(Debug, PartialEq, Eq)]
pub enum Action {
    /// Start the container of a task.
    Start { task: String, request: StartContainerRequest },
    /// Stop the container of a task.
    Stop { task: String, stop: StopContainerRequest },
}

/// The reason recorded for a cancellation: the user where the user is
/// named, the administrator in every other case.
pub open spec fn canceller(by: RunFailureReason) -> RunFailureReason {
    if by == RunFailureReason::UserCancelled {
        RunFailureReason::UserCancelled
    } else {
        RunFailureReason::AdminCancelled
    }
}

/// The later of two times.
pub open spec fn later(a: u64, b: u64) -> u64 {
    if a < b {
        b
    } else {
        a
    }
}

/// The environment of task `i` after the outcomes of the first `count`
/// tasks it depends on are recorded over `env`.
pub open spec fn with_parent_statuses(v: TrackerView, i: int, env: Env, count: int) -> Env
    decreases count,
{
    if count <= 0 {
        env
    } else {
        bind(
            with_parent_statuses(v, i, env, count - 1),
            parent_status_key(v.tasks[i].1.depends_on[count - 1].0),
            outcome_of(v.task_runs[parent(v.tasks, i, count - 1)]).name(),
        )
    }
}

/// The environment that the container of task `i` is started with.
pub open spec fn start_environment(v: TrackerView, i: int) -> Env {
    with_parent_statuses(
        v,
        i,
        environment_of(
            v.tasks[i].1.variables,
            v.run.variables,
            v.run.namespace,
            v.run.pipeline,
            v.run.id,
            v.tasks[i].0,
            v.tasks[i].1.image,
        ),
        v.tasks[i].1.depends_on.len() as int,
    )
}

/// `request` asks for the container of task `i`: under the task run's name,
/// from the task's image, in the task's environment, with the task's
/// credentials and script, without networking, pulling the image only
/// where it is absent.
pub open spec fn asks_for(v: TrackerView, i: int, request: StartContainerRequest) -> bool {
    &&& request.name@ == container_name_of(v.run.namespace, v.run.pipeline, v.run.id, v.tasks[i].0)
    &&& request.image_name@ == v.tasks[i].1.image
    &&& request.variables.deep_view() == start_environment(v, i)
    &&& match (request.registry_auth, v.tasks[i].1.registry_auth) {
        (Some(a), Some(b)) => a.user@ == b.user && a.pass@ == b.pass,
        (None, None) => true,
        _ => false,
    }
    &&& match (request.entrypoint, v.tasks[i].1.entrypoint) {
        (Some(a), Some(b)) => a.shell@ == b.shell && a.script@ == b.script,
        (None, None) => true,
        _ => false,
    }
    &&& !request.always_pull
    &&& !request.enable_networking
}

/// The task run that a task gets when it is started at time `now`.
pub open spec fn launched(v: TrackerView, i: int, now: u64) -> TaskRunView {
    TaskRunView {
        namespace: v.run.namespace,
        pipeline: v.run.pipeline,
        run: v.run.id,
        id: v.tasks[i].0,
        state: TaskRunState::Processing,
        exit_code: None,
        failure: None,
        scheduler_id: None,
        url: None,
        started: now,
        ended: 0,
    }
}

/// `t` is the task run of a task that is set aside at time `now`.
pub open spec fn set_aside(v: TrackerView, i: int, now: u64, t: TaskRunView) -> bool {
    &&& t.namespace == v.run.namespace
    &&& t.pipeline == v.run.pipeline
    &&& t.run == v.run.id
    &&& t.id == v.tasks[i].0
    &&& t.skipped()
    &&& t.exit_code is None
    &&& t.scheduler_id is None
    &&& t.url is None
    &&& t.started == 0
    &&& t.ended == now
}

/// `after` holds what `before` held and maybe more task runs: what
/// `before` had of task runs is unchanged, and every task run that is new
/// belongs to a task that was started or set aside at time `now`.
pub open spec fn grown(before: TrackerView, after: TrackerView, now: u64) -> bool {
    &&& after.tasks == before.tasks
    &&& after.cancelled == before.cancelled
    &&& after.grace == before.grace
    &&& after.task_runs.len() == before.task_runs.len()
    &&& forall|i: int|
        0 <= i < before.task_runs.len() && (#[trigger] before.task_runs[i]) is Some
            ==> after.task_runs[i] == before.task_runs[i]
    &&& forall|i: int|
        0 <= i < before.task_runs.len() && before.task_runs[i] is None ==> match (
        #[trigger] after.task_runs[i]) {
            Some(t) => t == launched(after, i, now) || set_aside(after, i, now, t),
            None => true,
        }
    &&& same_run(before.run, after.run)
}

/// Two views of one run: what a step never changes is the same in both.
pub open spec fn same_run(a: crate::models::RunView, b: crate::models::RunView) -> bool {
    &&& a.namespace == b.namespace
    &&& a.pipeline == b.pipeline
    &&& a.id == b.id
    &&& a.started == b.started
    &&& a.trigger == b.trigger
    &&& a.variables == b.variables
    &&& a.store_info == b.store_info
}

/// Task `i` got its task run between `before` and `after`, and was started.
pub open spec fn newly_started(before: TrackerView, after: TrackerView, i: int) -> bool {
    &&& 0 <= i < before.task_runs.len()
    &&& before.task_runs[i] is None
    &&& after.task_runs[i] matches Some(t)
    &&& t.state == TaskRunState::Processing
}

/// `action` starts task `i` with the request that the task calls for.
pub open spec fn starts_task(action: Action, v: TrackerView, i: int) -> bool {
    match action {
        Action::Start { task, request } => task@ == v.tasks[i].0 && asks_for(v, i, request),
        _ => false,
    }
}

/// `actions` holds a start for task `i`.
pub open spec fn starts(actions: Seq<Action>, v: TrackerView, i: int) -> bool {
    exists|k: int| 0 <= k < actions.len() && starts_task(#[trigger] actions[k], v, i)
}

/// The starts among `actions` are those of the tasks that got a task run
/// between `before` and `after` and were started, each with its request.
pub open spec fn starts_match(actions: Seq<Action>, before: TrackerView, after: TrackerView) -> bool {
    &&& forall|i: int| #[trigger]
        newly_started(before, after, i) ==> starts(actions, after, i)
    &&& forall|k: int|
        0 <= k < actions.len() && (#[trigger] actions[k]) is Start ==> exists|i: int| #[trigger]
            newly_started(before, after, i) && starts_task(actions[k], after, i)
}

/// Who has cancelled the run once `event` is taken in: who had before, or
/// else who the event names.
pub open spec fn cancelled_after(before: Option<RunFailureReason>, event: Event) -> Option<
    RunFailureReason,
> {
    match event {
        Event::Cancel { by, .. } => match before {
            Some(first) => Some(first),
            None => Some(canceller(by)),
        },
        _ => before,
    }
}

/// The reason recorded for a task run that was stopped.
pub open spec fn stop_reason(cancelled: Option<RunFailureReason>) -> RunFailureReason {
    match cancelled {
        Some(by) => by,
        None => RunFailureReason::AdminCancelled,
    }
}

/// The task run `t` once its container is reported over in state `state`.
pub open spec fn finished(
    t: TaskRunView,
    state: TaskRunState,
    exit_code: Option<u8>,
    now: u64,
    cancelled: Option<RunFailureReason>,
) -> TaskRunView {
    TaskRunView {
        state,
        exit_code,
        ended: later(now, t.started),
        failure: match state {
            TaskRunState::Failed => Some(
                crate::models::run::RunFailureInfoView {
                    reason: RunFailureReason::AbnormalExit,
                    description: "the container exited with a code other than zero"@,
                },
            ),
            TaskRunState::Cancelled => Some(
                crate::models::run::RunFailureInfoView {
                    reason: stop_reason(cancelled),
                    description: "the task run was stopped"@,
                },
            ),
            _ => None,
        },
        ..t
    }
}

/// What becomes of the live task run `t` of task `id` when `event` is taken
/// in at time `now`.
pub open spec fn told(
    t: TaskRunView,
    id: Seq<char>,
    event: Event,
    now: u64,
    cancelled: Option<RunFailureReason>,
) -> TaskRunView {
    match event {
        Event::Started { task, scheduler_id, url } => if task@ == id && (t.state
            == TaskRunState::Processing || t.state == TaskRunState::Waiting) {
            TaskRunView {
                state: TaskRunState::Running,
                scheduler_id: scheduler_id.deep_view(),
                url: url.deep_view(),
                ..t
            }
        } else {
            t
        },
        Event::StartFailed { task, reason } => if task@ == id {
            TaskRunView {
                state: TaskRunState::Failed,
                ended: later(now, t.started),
                failure: Some(
                    crate::models::run::RunFailureInfoView {
                        reason: RunFailureReason::SchedulerError,
                        description: reason@,
                    },
                ),
                ..t
            }
        } else {
            t
        },
        Event::Observed { task, state, exit_code } => if task@ == id {
            if state.terminal() {
                finished(t, state, exit_code, now, cancelled)
            } else if state != TaskRunState::Unknown {
                TaskRunView { state, ..t }
            } else {
                t
            }
        } else {
            t
        },
        Event::Cancel { by, force } => if force {
            finished(t, TaskRunState::Cancelled, t.exit_code, now, cancelled)
        } else {
            t
        },
    }
}

/// `action` stops the container of task `i`, giving it `timeout` seconds.
pub open spec fn stops_task(action: Action, v: TrackerView, i: int, timeout: i64) -> bool {
    match action {
        Action::Stop { task, stop } => {
            &&& task@ == v.tasks[i].0
            &&& stop.name@ == container_name_of(
                v.run.namespace,
                v.run.pipeline,
                v.run.id,
                v.tasks[i].0,
            )
            &&& stop.timeout == timeout
        },
        _ => false,
    }
}

/// The seconds that a cancellation gives a container: none when it is
/// forced, the tracker's grace otherwise.
pub open spec fn stop_timeout(grace: i64, force: bool) -> i64 {
    if force {
        0
    } else {
        grace
    }
}

/// `actions` holds a stop for task `i` with the timeout `timeout`.
pub open spec fn stop_among(actions: Seq<Action>, v: TrackerView, i: int, timeout: i64) -> bool {
    exists|k: int| 0 <= k < actions.len() && stops_task(#[trigger] actions[k], v, i, timeout)
}

/// `action` stops a task whose task run is live, with the timeout `timeout`.
pub open spec fn stop_of_live(action: Action, v: TrackerView, timeout: i64) -> bool {
    exists|i: int|
        0 <= i < v.task_runs.len() && live(#[trigger] v.task_runs[i]) && stops_task(
            action,
            v,
            i,
            timeout,
        )
}

/// `actions` are the stops of the task runs of `before` that are live, each
/// with the timeout `timeout`, and nothing else.
pub open spec fn stops_match(actions: Seq<Action>, before: TrackerView, timeout: i64) -> bool {
    &&& forall|i: int|
        0 <= i < before.task_runs.len() && live(#[trigger] before.task_runs[i]) ==> stop_among(
            actions,
            before,
            i,
            timeout,
        )
    &&& forall|k: int|
        0 <= k < actions.len() ==> stop_of_live(#[trigger] actions[k], before, timeout)
}

/// What `before` becomes when `event` is taken in at time `now`, before
/// tasks are started and the run is written up: what is over stays, every
/// live task run becomes what the event makes of it, and no task run is
/// added.
pub open spec fn after_event(before: TrackerView, event: Event, now: u64) -> TrackerView {
    TrackerView {
        cancelled: cancelled_after(before.cancelled, event),
        task_runs: Seq::new(
            before.task_runs.len(),
            |i: int|
                if live(before.task_runs[i]) {
                    Some(
                        told(
                            before.task_runs[i]->Some_0,
                            before.tasks[i].0,
                            event,
                            now,
                            cancelled_after(before.cancelled, event),
                        ),
                    )
                } else {
                    before.task_runs[i]
                },
        ),
        ..before
    }
}

/// Taking in an event leaves every task run in order.
pub proof fn lemma_event_keeps_order(b: TrackerView, event: Event, now: u64)
    requires
        b.base_wf(),
    ensures
        after_event(b, event, now).base_wf(),
{
    let a = after_event(b, event, now);
    assert forall|j: int| 0 <= j < a.task_runs.len() && b.task_runs[j] is Some implies (
    a.parents_over(j) && a.parents_satisfied(j) == b.parents_satisfied(j)) by {
        assert(b.task_run_ok(j, b.task_runs[j]->Some_0));
        assert forall|d: int| 0 <= d < a.tasks[j].1.depends_on.len() implies a.task_runs[#[trigger] parent(
            a.tasks,
            j,
            d,
        )] == b.task_runs[parent(b.tasks, j, d)] by {
            let p = parent(b.tasks, j, d);
            assert(has_key(b.tasks, b.tasks[j].1.depends_on[d].0));
            assert(0 <= p < b.task_runs.len());
            assert(over(b.task_runs[p]));
        }
    }
    assert forall|j: int| 0 <= j < a.task_runs.len() implies ((
    #[trigger] a.task_runs[j]) matches Some(t) ==> a.task_run_ok(j, t)) by {
        if a.task_runs[j] is Some {
            assert(b.task_runs[j] is Some);
            let t = b.task_runs[j]->Some_0;
            assert(b.task_run_ok(j, t));
            if live(b.task_runs[j]) {
                assert(!t.skipped());
            }
        }
    }
    assert forall|j: int|
        0 <= j < a.task_runs.len() && (#[trigger] a.task_runs[j]) is Some implies a.run.task_runs.contains(
        a.tasks[j].0,
    ) by {
        assert(b.task_runs[j] is Some);
    }
    assert forall|k: int| 0 <= k < a.run.task_runs.len() implies a.has_run_of(
        #[trigger] a.run.task_runs[k],
    ) by {
        assert(b.has_run_of(b.run.task_runs[k]));
        let j = choose|j: int|
            0 <= j < b.task_runs.len() && (#[trigger] b.task_runs[j]) is Some && b.tasks[j].0
                == b.run.task_runs[k];
        assert(a.task_runs[j] is Some);
    }
}

/// The run `run` written up for the task runs of `v` at time `now`.
pub open spec fn write_up_of(v: TrackerView, now: u64) -> crate::models::RunView {
    if v.all_over() {
        crate::models::RunView {
            state: RunState::Complete,
            status: v.outcome(),
            ended: later(now, v.run.started),
            failure_info: if v.outcome() == RunStatus::Successful {
                None
            } else {
                Some(
                    crate::models::run::RunFailureInfoView {
                        reason: v.failure_reason(),
                        description: "the run did not succeed"@,
                    },
                )
            },
            ..v.run
        }
    } else {
        crate::models::RunView {
            state: RunState::Running,
            status: RunStatus::Unknown,
            failure_info: None,
            ..v.run
        }
    }
}

/// Follows one run of a pipeline.
#[derive(Debug)]
pub struct RunTracker {
    run: Run,
    tasks: StringMap<Task>,
    parents: Vec<Vec<usize>>,
    task_runs: Vec<Option<TaskRun>>,
    cancelled: Option<RunFailureReason>,
    grace: i64,
}

impl DeepView for RunTracker {
    type V = TrackerView;

    closed spec fn deep_view(&self) -> TrackerView {
        TrackerView {
            run: self.run.deep_view(),
            tasks: self.tasks.deep_view(),
            task_runs: self.task_runs.deep_view(),
            cancelled: self.cancelled,
            grace: self.grace,
        }
    }
}

impl RunTracker {
    /// What the tracker keeps besides the rules of the run: the places of
    /// each task's parents, worked out once.
    pub closed spec fn cached(&self) -> bool {
        &&& graph_of(self.parents@) == task_graph(self.tasks.deep_view())
        &&& distinct_keys(self.tasks@)
    }

    /// The tracker is in order.
    pub open spec fn wf(&self) -> bool {
        self.cached() && self.deep_view().wf()
    }

    /// The run as it stands.
    pub fn run(&self) -> (r: &Run)
        ensures
            r.deep_view() == self.deep_view().run,
    {
        &self.run
    }

    /// Whether the run is complete.
    pub fn is_complete(&self) -> (r: bool)
        ensures
            r == (self.deep_view().run.state == RunState::Complete),
    {
        self.run.state == RunState::Complete
    }

    /// The number of tasks.
    pub fn task_count(&self) -> (n: usize)
        ensures
            n == self.deep_view().tasks.len(),
    {
        self.tasks.len()
    }

    /// The task run of the `i`-th task, if it has one.
    pub fn task_run_at(&self, i: usize) -> (r: Option<TaskRun>)
        requires
            i < self.deep_view().task_runs.len(),
        ensures
            r.deep_view() == self.deep_view().task_runs[i as int],
    {
        match &self.task_runs[i] {
            Some(t) => Some(t.clone()),
            None => None,
        }
    }

    /// The task run of `task`, if the pipeline has the task and the task has
    /// a task run.
    pub fn task_run(&self, task: &str) -> (r: Option<TaskRun>)
        requires
            self.wf(),
        ensures
            match r {
                Some(t) => {
                    &&& has_key(self.deep_view().tasks, task@)
                    &&& self.deep_view().task_runs[key_index(self.deep_view().tasks, task@)]
                        == Some(t.deep_view())
                },
                None => !has_key(self.deep_view().tasks, task@)
                    || self.deep_view().task_runs[key_index(self.deep_view().tasks, task@)] is None,
            },
    {
        let key = owned(task);
        proof {
            lemma_deep_keys(self.tasks@, key@);
        }
        match self.tasks.position(&key) {
            Some(i) => self.task_run_at(i),
            None => None,
        }
    }

    fn parents_over(&self, i: usize) -> (r: bool)
        requires
            self.cached(),
            self.deep_view().base_wf(),
            i < self.tasks@.len(),
        ensures
            r == self.deep_view().parents_over(i as int),
            !r ==> self.deep_view().waiting(i as int),
    {
        let ghost v = self.deep_view();
        proof {
            lemma_task_graph_closed(v.tasks);
        }
        let n: usize = self.parents[i].len();
        assert(n == v.tasks[i as int].1.depends_on.len()) by {
            assert(graph_of(self.parents@)[i as int].len() == n);
        }
        let mut d: usize = 0;
        while d < n
            invariant
                v == self.deep_view(),
                self.cached(),
                v.base_wf(),
                closed_graph(task_graph(v.tasks)),
                i < self.tasks@.len(),
                n == self.parents@[i as int]@.len(),
                n == v.tasks[i as int].1.depends_on.len(),
                d <= n,
                forall|e: int| 0 <= e < d ==> over(v.task_runs[#[trigger] parent(v.tasks, i as int, e)]),
            decreases n - d,
        {
            let p: usize = self.parents[i][d];
            assert(p == parent(v.tasks, i as int, d as int)) by {
                assert(graph_of(self.parents@)[i as int][d as int] == p);
                assert(task_graph(v.tasks)[i as int][d as int] == parent(v.tasks, i as int, d as int));
            }
            assert(p < self.task_runs@.len()) by {
                assert(0 <= task_graph(v.tasks)[i as int][d as int] < v.tasks.len());
            }
            let done = match &self.task_runs[p] {
                Some(t) => t.state.is_terminal(),
                None => false,
            };
            assert(done == over(v.task_runs[p as int]));
            if !done {
                return false;
            }
            d += 1;
        }
        true
    }

    fn parents_satisfied(&self, i: usize) -> (r: bool)
        requires
            self.cached(),
            self.deep_view().base_wf(),
            i < self.tasks@.len(),
        ensures
            r == self.deep_view().parents_satisfied(i as int),
    {
        let ghost v = self.deep_view();
        proof {
            lemma_task_graph_closed(v.tasks);
        }
        let task = self.tasks.value_at(i);
        assert(task.deep_view() == v.tasks[i as int].1);
        let n: usize = self.parents[i].len();
        assert(n == v.tasks[i as int].1.depends_on.len()) by {
            assert(graph_of(self.parents@)[i as int].len() == n);
        }
        let m: usize = task.depends_on.len();
        let mut d: usize = 0;
        while d < n
            invariant
                v == self.deep_view(),
                self.cached(),
                v.base_wf(),
                closed_graph(task_graph(v.tasks)),
                i < self.tasks@.len(),
                task.deep_view() == v.tasks[i as int].1,
                n == self.parents@[i as int]@.len(),
                n == v.tasks[i as int].1.depends_on.len(),
                n == task.depends_on@.len(),
                d <= n,
                forall|e: int|
                    0 <= e < d ==> satisfies(
                        v.tasks[i as int].1.depends_on[e].1,
                        outcome_of(v.task_runs[#[trigger] parent(v.tasks, i as int, e)]),
                    ),
            decreases n - d,
        {
            let p: usize = self.parents[i][d];
            assert(p == parent(v.tasks, i as int, d as int)) by {
                assert(graph_of(self.parents@)[i as int][d as int] == p);
                assert(task_graph(v.tasks)[i as int][d as int] == parent(v.tasks, i as int, d as int));
            }
            assert(p < self.task_runs@.len()) by {
                assert(0 <= task_graph(v.tasks)[i as int][d as int] < v.tasks.len());
            }
            let status = match &self.task_runs[p] {
                Some(t) => t.state.status(),
                None => RunStatus::Unknown,
            };
            assert(status == outcome_of(v.task_runs[p as int]));
            let required = *task.depends_on.value_at(d);
            assert(required == v.tasks[i as int].1.depends_on[d as int].1);
            if !is_satisfied(required, status) {
                return false;
            }
            d += 1;
        }
        true
    }

    /// The request that starts the container of task `i`.
    fn start_request(&self, i: usize) -> (r: StartContainerRequest)
        requires
            self.cached(),
            self.deep_view().base_wf(),
            i < self.tasks@.len(),
        ensures
            asks_for(self.deep_view(), i as int, r),
    {
        let ghost v = self.deep_view();
        proof {
            lemma_task_graph_closed(v.tasks);
        }
        let task = self.tasks.value_at(i);
        let id = self.tasks.key_at(i);
        assert(task.deep_view() == v.tasks[i as int].1);
        assert(id@ == v.tasks[i as int].0);
        let mut env = environment(
            &task.variables,
            &self.run.variables,
            self.run.namespace.as_str(),
            self.run.pipeline.as_str(),
            self.run.id,
            id.as_str(),
            task.image.as_str(),
        );
        let ghost base = env.deep_view();
        let n: usize = self.parents[i].len();
        assert(n == v.tasks[i as int].1.depends_on.len()) by {
            assert(graph_of(self.parents@)[i as int].len() == n);
        }
        let mut d: usize = 0;
        while d < n
            invariant
                v == self.deep_view(),
                self.cached(),
                v.base_wf(),
                closed_graph(task_graph(v.tasks)),
                i < self.tasks@.len(),
                task.deep_view() == v.tasks[i as int].1,
                n == self.parents@[i as int]@.len(),
                n == v.tasks[i as int].1.depends_on.len(),
                n == task.depends_on@.len(),
                d <= n,
                env.deep_view() == with_parent_statuses(v, i as int, base, d as int),
            decreases n - d,
        {
            let p: usize = self.parents[i][d];
            assert(p == parent(v.tasks, i as int, d as int)) by {
                assert(graph_of(self.parents@)[i as int][d as int] == p);
                assert(task_graph(v.tasks)[i as int][d as int] == parent(v.tasks, i as int, d as int));
            }
            assert(p < self.task_runs@.len()) by {
                assert(0 <= task_graph(v.tasks)[i as int][d as int] < v.tasks.len());
            }
            let status = match &self.task_runs[p] {
                Some(t) => t.state.status(),
                None => RunStatus::Unknown,
            };
            assert(status == outcome_of(v.task_runs[p as int]));
            let name = task.depends_on.key_at(d);
            assert(name@ == v.tasks[i as int].1.depends_on[d as int].0);
            record_parent_status(&mut env, name.as_str(), status);
            d += 1;
        }
        let registry_auth = match &task.registry_auth {
            Some(a) => Some(RegistryAuth { user: a.user.clone(), pass: a.pass.clone() }),
            None => None,
        };
        let entrypoint = match &task.entrypoint {
            Some(e) => Some(Exec { shell: e.shell.clone(), script: e.script.clone() }),
            None => None,
        };
        StartContainerRequest {
            name: container_name(
                self.run.namespace.as_str(),
                self.run.pipeline.as_str(),
                self.run.id,
                id.as_str(),
            ),
            image_name: task.image.clone(),
            variables: env,
            registry_auth,
            always_pull: false,
            enable_networking: false,
            entrypoint,
        }
    }

    /// Gives task `i`, whose parents are over, its task run: the task is
    /// started if its parents ended as it asks, and set aside otherwise.
    fn raise(&mut self, i: usize, now: u64, actions: &mut Vec<Action>)
        requires
            old(self).cached(),
            old(self).deep_view().base_wf(),
            i < old(self).tasks@.len(),
            old(self).deep_view().task_runs[i as int] is None,
            old(self).deep_view().parents_over(i as int),
        ensures
            final(self).cached(),
            final(self).deep_view().base_wf(),
            stepped(old(self).deep_view(), final(self).deep_view(), i as int),
            match final(self).deep_view().task_runs[i as int] {
                Some(t) => if old(self).deep_view().parents_satisfied(i as int) {
                    &&& t == launched(final(self).deep_view(), i as int, now)
                    &&& final(actions)@.len() == old(actions)@.len() + 1
                    &&& final(actions)@.subrange(0, old(actions)@.len() as int) == old(actions)@
                    &&& starts_task(
                        final(actions)@[old(actions)@.len() as int],
                        final(self).deep_view(),
                        i as int,
                    )
                } else {
                    &&& set_aside(final(self).deep_view(), i as int, now, t)
                    &&& final(actions)@ == old(actions)@
                },
                None => false,
            },
    {
        let ghost b = self.deep_view();
        let id = self.tasks.key_at(i).clone();
        assert(id@ == b.tasks[i as int].0);
        let go = self.parents_satisfied(i);
        let task_run = if go {
            TaskRun {
                namespace: self.run.namespace.clone(),
                pipeline: self.run.pipeline.clone(),
                run: self.run.id,
                id: id.clone(),
                state: TaskRunState::Processing,
                exit_code: None,
                failure: None,
                scheduler_id: None,
                url: None,
                started: now,
                ended: 0,
            }
        } else {
            TaskRun {
                namespace: self.run.namespace.clone(),
                pipeline: self.run.pipeline.clone(),
                run: self.run.id,
                id: id.clone(),
                state: TaskRunState::Cancelled,
                exit_code: None,
                failure: Some(
                    RunFailureInfo {
                        reason: RunFailureReason::FailedPrecondition,
                        description: owned(
                            "a task that the task depends on did not end as the task asks",
                        ),
                    },
                ),
                scheduler_id: None,
                url: None,
                started: 0,
                ended: now,
            }
        };
        let ghost t = task_run.deep_view();
        if go {
            let request = self.start_request(i);
            actions.push(Action::Start { task: id.clone(), request });
        }
        self.task_runs.set(i, Some(task_run));
        self.run.task_runs.push(id);
        proof {
            let a = self.deep_view();
            assert(a.task_runs =~= b.task_runs.update(i as int, Some(t)));
            assert(a.run.task_runs =~= b.run.task_runs.push(b.tasks[i as int].0));
            lemma_stepped_keeps_order(b, a, i as int);
            if go {
                lemma_request_stable(b, a, i as int, actions@[old(actions)@.len() as int]);
            }
            assert(actions@.subrange(0, old(actions)@.len() as int) =~= old(actions)@);
        }
    }

    /// Gives every task that can start or must be set aside its task run,
    /// until none is left. Returns the starts.
    fn settle(&mut self, now: u64) -> (actions: Vec<Action>)
        requires
            old(self).cached(),
            old(self).deep_view().base_wf(),
            old(self).deep_view().cancelled is None,
        ensures
            final(self).cached(),
            final(self).deep_view().base_wf(),
            final(self).deep_view().settled(),
            grown(old(self).deep_view(), final(self).deep_view(), now),
            starts_match(actions@, old(self).deep_view(), final(self).deep_view()),
            forall|k: int| 0 <= k < actions@.len() ==> (#[trigger] actions@[k]) is Start,
    {
        let ghost first = self.deep_view();
        let mut actions: Vec<Action> = Vec::new();
        let n: usize = self.tasks.len();
        let mut missing: usize = 0;
        let mut c: usize = 0;
        let ghost present = Seq::new(n as nat, |i: int| first.task_runs[i] is Some);
        assert(present.take(0) =~= Seq::empty());
        while c < n
            invariant
                n == self.tasks@.len(),
                self.deep_view() == first,
                first.base_wf(),
                present == Seq::new(n as nat, |i: int| first.task_runs[i] is Some),
                c <= n,
                missing <= c,
                missing == unplaced(present.take(c as int)),
            decreases n - c,
        {
            assert(present.take(c as int + 1).drop_last() =~= present.take(c as int));
            assert(present.take(c as int + 1).last() == present[c as int]);
            assert(present[c as int] == (self.task_runs@[c as int] is Some));
            if self.task_runs[c].is_none() {
                missing += 1;
            }
            c += 1;
        }
        assert(present.take(n as int) =~= present);
        let mut changed: bool = true;
        proof {
            lemma_grown_reflexive(first, now);
        }
        while changed && missing > 0
            invariant
                n == self.tasks@.len(),
                self.cached(),
                self.deep_view().base_wf(),
                self.deep_view().cancelled is None,
                grown(first, self.deep_view(), now),
                starts_match(actions@, first, self.deep_view()),
                forall|k: int| 0 <= k < actions@.len() ==> (#[trigger] actions@[k]) is Start,
                missing == unplaced(
                    Seq::new(n as nat, |i: int| self.deep_view().task_runs[i] is Some),
                ),
                !changed ==> self.deep_view().settled(),
            decreases missing * 2 + (if changed { 1int } else { 0int }),
        {
            changed = false;
            let ghost at_start = self.deep_view();
            let mut i: usize = 0;
            while i < n
                invariant
                    n == self.tasks@.len(),
                    self.cached(),
                    self.deep_view().base_wf(),
                    self.deep_view().cancelled is None,
                    grown(first, self.deep_view(), now),
                    starts_match(actions@, first, self.deep_view()),
                    forall|k: int| 0 <= k < actions@.len() ==> (#[trigger] actions@[k]) is Start,
                    missing == unplaced(
                        Seq::new(n as nat, |i: int| self.deep_view().task_runs[i] is Some),
                    ),
                    i <= n,
                    !changed ==> self.deep_view() == at_start,
                    changed ==> unplaced(
                        Seq::new(n as nat, |i: int| self.deep_view().task_runs[i] is Some),
                    ) < unplaced(Seq::new(n as nat, |i: int| at_start.task_runs[i] is Some)),
                    !changed ==> forall|j: int|
                        0 <= j < i && (#[trigger] self.deep_view().task_runs[j]) is None
                            ==> self.deep_view().waiting(j),
                decreases n - i,
            {
                let ghost b = self.deep_view();
                let ghost old_actions = actions@;
                if self.task_runs[i].is_none() {
                    assert(b.task_runs[i as int] is None);
                    if self.parents_over(i) {
                        self.raise(i, now, &mut actions);
                        proof {
                            let a = self.deep_view();
                            let before = Seq::new(n as nat, |i: int| b.task_runs[i] is Some);
                            let after = Seq::new(n as nat, |i: int| a.task_runs[i] is Some);
                            lemma_place_one(before, i as int);
                            assert(after =~= before.update(i as int, true));
                            lemma_grown_step(first, b, a, i as int, now);
                            lemma_starts_step(first, b, a, i as int, old_actions, actions@);
                            assert(a.task_runs[i as int]->Some_0.state == TaskRunState::Processing
                                <==> b.parents_satisfied(i as int));
                        }
                        missing = missing - 1;
                        changed = true;
                    }
                } else {
                    assert(b.task_runs[i as int] is Some);
                }
                i += 1;
            }
        }
        proof {
            if missing == 0 {
                let a = self.deep_view();
                let placed = Seq::new(n as nat, |i: int| a.task_runs[i] is Some);
                crate::graph::lemma_none_unplaced(placed);
                assert forall|i: int|
                    0 <= i < a.task_runs.len() && (#[trigger] a.task_runs[i]) is None implies a.waiting(
                    i,
                ) by {
                    assert(placed[i]);
                }
            }
        }
        actions
    }
}

/// `after` is `before` with a task run given to task `i`, which had none,
/// and the task's identifier added to the run's list of task runs.
pub open spec fn stepped(before: TrackerView, after: TrackerView, i: int) -> bool {
    &&& after.tasks == before.tasks
    &&& after.cancelled == before.cancelled
    &&& after.grace == before.grace
    &&& after.task_runs == before.task_runs.update(i, after.task_runs[i])
    &&& after.run == (crate::models::RunView {
        task_runs: before.run.task_runs.push(before.tasks[i].0),
        ..before.run
    })
}

/// A tracker's view has grown from itself.
proof fn lemma_grown_reflexive(v: TrackerView, now: u64)
    ensures
        grown(v, v, now),
{
}

/// A task run given to a task whose parents are over leaves every task run
/// in order.
proof fn lemma_stepped_keeps_order(b: TrackerView, a: TrackerView, i: int)
    requires
        b.base_wf(),
        0 <= i < b.task_runs.len(),
        b.task_runs[i] is None,
        b.parents_over(i),
        stepped(b, a, i),
        a.task_runs[i] matches Some(t) && {
            &&& t.id == b.tasks[i].0
            &&& t.namespace == b.run.namespace
            &&& t.pipeline == b.run.pipeline
            &&& t.run == b.run.id
            &&& t.state != TaskRunState::Unknown
            &&& t.times_in_order()
            &&& t.skipped() <==> !b.parents_satisfied(i)
        },
    ensures
        a.base_wf(),
        a.parents_satisfied(i) == b.parents_satisfied(i),
{
    assert forall|j: int| 0 <= j < a.task_runs.len() && (b.task_runs[j] is Some || j == i) implies (
    a.parents_over(j) && a.parents_satisfied(j) == b.parents_satisfied(j)) by {
        if b.task_runs[j] is Some {
            assert(b.task_run_ok(j, b.task_runs[j]->Some_0));
        }
        assert(b.parents_over(j));
        assert forall|d: int| 0 <= d < a.tasks[j].1.depends_on.len() implies a.task_runs[#[trigger] parent(
            a.tasks,
            j,
            d,
        )] == b.task_runs[parent(b.tasks, j, d)] by {
            assert(over(b.task_runs[parent(b.tasks, j, d)]));
        }
    }
    assert forall|j: int| 0 <= j < a.task_runs.len() implies ((
    #[trigger] a.task_runs[j]) matches Some(t) ==> a.task_run_ok(j, t)) by {
        if a.task_runs[j] is Some {
            if j != i {
                assert(b.task_runs[j] is Some);
                assert(b.task_run_ok(j, b.task_runs[j]->Some_0));
            }
        }
    }
    let m = b.run.task_runs.len() as int;
    assert forall|j: int|
        0 <= j < a.task_runs.len() && (#[trigger] a.task_runs[j]) is Some implies a.run.task_runs.contains(
        a.tasks[j].0,
    ) by {
        if j == i {
            assert(a.run.task_runs[m] == a.tasks[i].0);
        } else {
            assert(b.task_runs[j] is Some);
            let k = choose|k: int|
                0 <= k < b.run.task_runs.len() && b.run.task_runs[k] == b.tasks[j].0;
            assert(a.run.task_runs[k] == a.tasks[j].0);
        }
    }
    assert forall|k: int| 0 <= k < a.run.task_runs.len() implies a.has_run_of(
        #[trigger] a.run.task_runs[k],
    ) by {
        if k < m {
            assert(b.has_run_of(b.run.task_runs[k]));
            let j = choose|j: int|
                0 <= j < b.task_runs.len() && (#[trigger] b.task_runs[j]) is Some && b.tasks[j].0
                    == b.run.task_runs[k];
            assert(a.task_runs[j] is Some);
        } else {
            assert(a.task_runs[i] is Some);
        }
    }
}

/// The request that starts a task asks for the same after other tasks got
/// their task runs: the task's parents were over, and what is over does
/// not change.
proof fn lemma_request_stable(b: TrackerView, a: TrackerView, i: int, action: Action)
    requires
        b.base_wf(),
        0 <= i < b.task_runs.len(),
        b.parents_over(i),
        a.tasks == b.tasks,
        same_run(b.run, a.run),
        a.task_runs.len() == b.task_runs.len(),
        forall|j: int|
            0 <= j < b.task_runs.len() && (#[trigger] b.task_runs[j]) is Some ==> a.task_runs[j]
                == b.task_runs[j],
        starts_task(action, b, i),
    ensures
        starts_task(action, a, i),
        a.parents_over(i),
{
    assert forall|d: int| 0 <= d < a.tasks[i].1.depends_on.len() implies a.task_runs[#[trigger] parent(
        a.tasks,
        i,
        d,
    )] == b.task_runs[parent(b.tasks, i, d)] by {
        let p = parent(b.tasks, i, d);
        assert(has_key(b.tasks, b.tasks[i].1.depends_on[d].0));
        assert(0 <= p < b.task_runs.len());
        assert(over(b.task_runs[p]));
    }
    let env = environment_of(
        b.tasks[i].1.variables,
        b.run.variables,
        b.run.namespace,
        b.run.pipeline,
        b.run.id,
        b.tasks[i].0,
        b.tasks[i].1.image,
    );
    lemma_statuses_stable(b, a, i, env, b.tasks[i].1.depends_on.len() as int);
}

proof fn lemma_statuses_stable(b: TrackerView, a: TrackerView, i: int, env: Env, count: int)
    requires
        a.tasks == b.tasks,
        0 <= count <= b.tasks[i].1.depends_on.len(),
        forall|d: int|
            0 <= d < b.tasks[i].1.depends_on.len() ==> a.task_runs[#[trigger] parent(b.tasks, i, d)]
                == b.task_runs[parent(b.tasks, i, d)],
    ensures
        with_parent_statuses(a, i, env, count) == with_parent_statuses(b, i, env, count),
    decreases count,
{
    if count > 0 {
        lemma_statuses_stable(b, a, i, env, count - 1);
        assert(a.task_runs[parent(b.tasks, i, count - 1)] == b.task_runs[parent(
            b.tasks,
            i,
            count - 1,
        )]);
    }
}

/// Growth composes with one more task run.
proof fn lemma_grown_step(first: TrackerView, b: TrackerView, a: TrackerView, i: int, now: u64)
    requires
        grown(first, b, now),
        0 <= i < b.task_runs.len(),
        b.task_runs[i] is None,
        stepped(b, a, i),
        a.task_runs[i] matches Some(t) && (t == launched(a, i, now) || set_aside(a, i, now, t)),
    ensures
        grown(first, a, now),
{
    assert forall|j: int|
        0 <= j < first.task_runs.len() && (#[trigger] first.task_runs[j]) is Some implies a.task_runs[j]
        == first.task_runs[j] by {
        assert(b.task_runs[j] == first.task_runs[j]);
    }
    assert forall|j: int| 0 <= j < first.task_runs.len() && first.task_runs[j] is None implies match (
    #[trigger] a.task_runs[j]) {
        Some(t) => t == launched(a, j, now) || set_aside(a, j, now, t),
        None => true,
    } by {
        if j != i {
            assert(a.task_runs[j] == b.task_runs[j]);
            match b.task_runs[j] {
                Some(t) => {
                    assert(t == launched(b, j, now) || set_aside(b, j, now, t));
                },
                None => {},
            }
        }
    }
}

/// A start of a task that has its task run stays a start of it when
/// another task gets its task run.
proof fn lemma_start_kept(b: TrackerView, a: TrackerView, i: int, j: int, action: Action)
    requires
        b.base_wf(),
        0 <= i < b.task_runs.len(),
        b.task_runs[i] is None,
        stepped(b, a, i),
        0 <= j < b.task_runs.len(),
        b.task_runs[j] is Some,
        starts_task(action, b, j),
    ensures
        starts_task(action, a, j),
        a.task_runs[j] == b.task_runs[j],
{
    assert(b.task_run_ok(j, b.task_runs[j]->Some_0));
    lemma_request_stable(b, a, j, action);
}

/// The starts keep matching when one more task gets its task run.
proof fn lemma_starts_step(
    first: TrackerView,
    b: TrackerView,
    a: TrackerView,
    i: int,
    old_actions: Seq<Action>,
    actions: Seq<Action>,
)
    requires
        b.base_wf(),
        first.task_runs.len() == b.task_runs.len(),
        forall|j: int|
            0 <= j < first.task_runs.len() && (#[trigger] first.task_runs[j]) is Some
                ==> b.task_runs[j] == first.task_runs[j],
        starts_match(old_actions, first, b),
        forall|k: int| 0 <= k < old_actions.len() ==> (#[trigger] old_actions[k]) is Start,
        0 <= i < b.task_runs.len(),
        b.task_runs[i] is None,
        stepped(b, a, i),
        a.task_runs[i] is Some,
        if a.task_runs[i]->Some_0.state == TaskRunState::Processing {
            &&& actions.len() == old_actions.len() + 1
            &&& actions.subrange(0, old_actions.len() as int) == old_actions
            &&& starts_task(actions[old_actions.len() as int], a, i)
        } else {
            actions == old_actions
        },
    ensures
        starts_match(actions, first, a),
        forall|k: int| 0 <= k < actions.len() ==> (#[trigger] actions[k]) is Start,
{
    let m = old_actions.len() as int;
    assert forall|k: int| 0 <= k < m implies #[trigger] actions[k] == old_actions[k] by {
        if actions.len() != m {
            assert(actions.subrange(0, m)[k] == actions[k]);
        }
    }
    assert(first.task_runs[i] is None) by {
        if first.task_runs[i] is Some {
            assert(b.task_runs[i] == first.task_runs[i]);
        }
    }
    assert forall|j: int| #[trigger] newly_started(first, a, j) implies starts(actions, a, j) by {
        if j == i {
            assert(actions.len() == m + 1);
            assert(starts_task(actions[m], a, i));
        } else {
            assert(a.task_runs[j] == b.task_runs[j]);
            assert(newly_started(first, b, j));
            assert(starts(old_actions, b, j));
            let k = choose|k: int| 0 <= k < m && starts_task(#[trigger] old_actions[k], b, j);
            lemma_start_kept(b, a, i, j, old_actions[k]);
            assert(starts_task(actions[k], a, j));
        }
    }
    assert forall|k: int| 0 <= k < actions.len() && (#[trigger] actions[k]) is Start implies exists|
        j: int,
    | #[trigger] newly_started(first, a, j) && starts_task(actions[k], a, j) by {
        if k < m {
            assert(old_actions[k] is Start);
            let j = choose|j: int| #[trigger]
                newly_started(first, b, j) && starts_task(old_actions[k], b, j);
            lemma_start_kept(b, a, i, j, old_actions[k]);
            assert(newly_started(first, a, j));
            assert(starts_task(actions[k], a, j));
        } else {
            assert(actions.len() == m + 1);
            assert(k == m);
            assert(newly_started(first, a, i));
        }
    }
    assert forall|k: int| 0 <= k < actions.len() implies (#[trigger] actions[k]) is Start by {
        if k < m {
            assert(old_actions[k] is Start);
        } else {
            assert(starts_task(actions[m], a, i));
        }
    }
}

impl RunTracker {
    /// Looks the task runs over: whether every one there is is over, whether
    /// one was stopped, whether one failed and for what reason the first
    /// did, and whether a task has none.
    fn survey(&self) -> (r: (bool, bool, bool, bool, RunFailureReason))
        ensures
            r.0 == self.deep_view().all_over(),
            r.1 == (exists|j: int|
                0 <= j < self.deep_view().task_runs.len() && stopped(
                    #[trigger] self.deep_view().task_runs[j],
                )),
            r.2 == (exists|j: int|
                0 <= j < self.deep_view().task_runs.len() && failed(
                    #[trigger] self.deep_view().task_runs[j],
                )),
            r.3 == self.deep_view().some_missing(),
            r.4 == first_failure(self.deep_view().task_runs),
    {
        let ghost runs = self.deep_view().task_runs;
        let n: usize = self.task_runs.len();
        let mut all_over: bool = true;
        let mut any_stopped: bool = false;
        let mut any_failed: bool = false;
        let mut any_missing: bool = false;
        let mut reason: RunFailureReason = RunFailureReason::Unknown;
        let mut i: usize = 0;
        assert(runs.skip(0) =~= runs);
        while i < n
            invariant
                runs == self.task_runs.deep_view(),
                n == self.task_runs@.len(),
                i <= n,
                all_over == (forall|j: int|
                    0 <= j < i ==> (#[trigger] runs[j]) is Some ==> over(runs[j])),
                any_stopped == (exists|j: int| 0 <= j < i && stopped(#[trigger] runs[j])),
                any_failed == (exists|j: int| 0 <= j < i && failed(#[trigger] runs[j])),
                any_missing == (exists|j: int| 0 <= j < i && (#[trigger] runs[j]) is None),
                first_failure(runs) == (if any_failed {
                    reason
                } else {
                    first_failure(runs.skip(i as int))
                }),
                !any_failed ==> reason == RunFailureReason::Unknown,
            decreases n - i,
        {
            assert(runs[i as int] == self.task_runs@[i as int].deep_view());
            assert(runs.skip(i as int)[0] == runs[i as int]);
            assert(runs.skip(i as int).drop_first() =~= runs.skip(i as int + 1));
            match &self.task_runs[i] {
                Some(t) => {
                    if !t.state.is_terminal() {
                        all_over = false;
                    }
                    if t.state == TaskRunState::Cancelled {
                        let skipped = match &t.failure {
                            Some(f) => f.reason == RunFailureReason::FailedPrecondition,
                            None => false,
                        };
                        if !skipped {
                            any_stopped = true;
                        }
                    }
                    if t.state == TaskRunState::Failed {
                        if !any_failed {
                            reason = match &t.failure {
                                Some(f) => f.reason,
                                None => RunFailureReason::Unknown,
                            };
                        }
                        any_failed = true;
                    }
                },
                None => {
                    any_missing = true;
                },
            }
            i += 1;
        }
        (all_over, any_stopped, any_failed, any_missing, reason)
    }

    /// Writes the run up: complete with its outcome if every task run there
    /// is is over, running otherwise.
    fn write_up(&mut self, now: u64)
        requires
            old(self).cached(),
            old(self).deep_view().base_wf(),
            old(self).deep_view().settled(),
        ensures
            final(self).cached(),
            final(self).deep_view() == (TrackerView {
                run: write_up_of(old(self).deep_view(), now),
                ..old(self).deep_view()
            }),
            final(self).deep_view().wf(),
    {
        let ghost v = self.deep_view();
        let (all_over, any_stopped, any_failed, any_missing, reason) = self.survey();
        if all_over {
            let status = if any_stopped || (self.cancelled.is_some() && any_missing) {
                RunStatus::Cancelled
            } else if any_failed {
                RunStatus::Failed
            } else {
                RunStatus::Successful
            };
            assert(status == v.outcome());
            self.run.state = RunState::Complete;
            self.run.status = status;
            self.run.ended = if now < self.run.started {
                self.run.started
            } else {
                now
            };
            self.run.failure_info = match status {
                RunStatus::Successful => None,
                RunStatus::Cancelled => Some(
                    RunFailureInfo {
                        reason: match self.cancelled {
                            Some(by) => by,
                            None => RunFailureReason::AdminCancelled,
                        },
                        description: owned("the run did not succeed"),
                    },
                ),
                _ => Some(
                    RunFailureInfo { reason, description: owned("the run did not succeed") },
                ),
            };
        } else {
            self.run.state = RunState::Running;
            self.run.status = RunStatus::Unknown;
            self.run.failure_info = None;
        }
        proof {
            let a = self.deep_view();
            assert(a.run == write_up_of(v, now));
            lemma_run_change_keeps_order(v, a);
        }
    }

    /// Asks for the container of task `i` to be stopped if its task run is
    /// live, and ends the task run at once if the stop is forced.
    fn stop_one(&mut self, i: usize, force: bool, now: u64, stops: &mut Vec<Action>) -> (was_live:
        bool)
        requires
            old(self).cached(),
            i < old(self).task_runs@.len(),
            old(self).task_runs@.len() == old(self).tasks@.len(),
        ensures
            final(self).cached(),
            final(self).task_runs@.len() == old(self).task_runs@.len(),
            final(self).tasks@.len() == old(self).tasks@.len(),
            final(self).deep_view().tasks == old(self).deep_view().tasks,
            final(self).deep_view().run == old(self).deep_view().run,
            final(self).deep_view().grace == old(self).deep_view().grace,
            final(self).deep_view().cancelled == old(self).deep_view().cancelled,
            was_live == live(old(self).deep_view().task_runs[i as int]),
            final(self).deep_view().task_runs == old(self).deep_view().task_runs.update(
                i as int,
                if was_live && force {
                    Some(
                        finished(
                            old(self).deep_view().task_runs[i as int]->Some_0,
                            TaskRunState::Cancelled,
                            old(self).deep_view().task_runs[i as int]->Some_0.exit_code,
                            now,
                            old(self).deep_view().cancelled,
                        ),
                    )
                } else {
                    old(self).deep_view().task_runs[i as int]
                },
            ),
            if was_live {
                &&& final(stops)@.len() == old(stops)@.len() + 1
                &&& forall|k: int|
                    0 <= k < old(stops)@.len() ==> #[trigger] final(stops)@[k] == old(stops)@[k]
                &&& stops_task(
                    final(stops)@[old(stops)@.len() as int],
                    old(self).deep_view(),
                    i as int,
                    stop_timeout(old(self).deep_view().grace, force),
                )
            } else {
                final(stops)@ == old(stops)@
            },
    {
        let ghost b = self.deep_view();
        let is_live = match &self.task_runs[i] {
            Some(t) => !t.state.is_terminal(),
            None => false,
        };
        assert(b.task_runs[i as int] == self.task_runs@[i as int].deep_view());
        if is_live {
            let timeout: i64 = if force {
                0
            } else {
                self.grace
            };
            let id = self.tasks.key_at(i);
            assert(id@ == b.tasks[i as int].0);
            stops.push(
                Action::Stop {
                    task: id.clone(),
                    stop: StopContainerRequest {
                        name: container_name(
                            self.run.namespace.as_str(),
                            self.run.pipeline.as_str(),
                            self.run.id,
                            id.as_str(),
                        ),
                        timeout,
                    },
                },
            );
            if force {
                let t = self.task_run_at(i).unwrap();
                let exit_code = t.exit_code;
                let done = finish(t, TaskRunState::Cancelled, exit_code, now, self.cancelled);
                self.task_runs.set(i, Some(done));
            }
        }
        assert(self.deep_view().task_runs =~= b.task_runs.update(
            i as int,
            self.deep_view().task_runs[i as int],
        ));
        is_live
    }

    /// Cancels the run: records who cancelled it unless someone has, and
    /// asks for every live container to be stopped.
    fn cancel(&mut self, by: RunFailureReason, force: bool, now: u64) -> (stops: Vec<Action>)
        requires
            old(self).cached(),
            old(self).deep_view().base_wf(),
        ensures
            final(self).cached(),
            final(self).deep_view() == after_event(
                old(self).deep_view(),
                Event::Cancel { by, force },
                now,
            ),
            stops_match(
                stops@,
                old(self).deep_view(),
                stop_timeout(old(self).deep_view().grace, force),
            ),
    {
        let ghost b = self.deep_view();
        let ghost event = Event::Cancel { by, force };
        let ghost goal = after_event(b, event, now);
        let ghost timeout = stop_timeout(b.grace, force);
        if self.cancelled.is_none() {
            self.cancelled = Some(
                if by == RunFailureReason::UserCancelled {
                    RunFailureReason::UserCancelled
                } else {
                    RunFailureReason::AdminCancelled
                },
            );
        }
        let mut stops: Vec<Action> = Vec::new();
        let ghost mut owners: Seq<int> = Seq::empty();
        let ghost mut slots: Seq<int> = Seq::empty();
        let n: usize = self.task_runs.len();
        let mut i: usize = 0;
        while i < n
            invariant
                self.cached(),
                n == b.task_runs.len(),
                n == self.task_runs@.len(),
                n == self.tasks@.len(),
                goal == after_event(b, event, now),
                event == (Event::Cancel { by, force }),
                timeout == stop_timeout(b.grace, force),
                self.deep_view().tasks == b.tasks,
                self.deep_view().run == b.run,
                self.deep_view().grace == b.grace,
                self.deep_view().cancelled == goal.cancelled,
                i <= n,
                forall|j: int|
                    0 <= j < i ==> (#[trigger] self.deep_view().task_runs[j]) == goal.task_runs[j],
                forall|j: int|
                    i <= j < n ==> (#[trigger] self.deep_view().task_runs[j]) == b.task_runs[j],
                owners.len() == stops@.len(),
                slots.len() == i,
                forall|k: int|
                    0 <= k < owners.len() ==> 0 <= (#[trigger] owners[k]) < i && live(
                        b.task_runs[owners[k]],
                    ) && stops_task(stops@[k], b, owners[k], timeout),
                forall|j: int|
                    0 <= j < i && live(b.task_runs[j]) ==> 0 <= (#[trigger] slots[j]) < stops@.len()
                        && stops_task(stops@[slots[j]], b, j, timeout),
            decreases n - i,
        {
            let ghost before = self.deep_view();
            let ghost before_stops = stops@;
            let was_live = self.stop_one(i, force, now, &mut stops);
            proof {
                assert(before.task_runs[i as int] == b.task_runs[i as int]);
                if was_live {
                    assert(stops_task(stops@[before_stops.len() as int], before, i as int, timeout));
                    assert(stops_task(stops@[before_stops.len() as int], b, i as int, timeout));
                    owners = owners.push(i as int);
                    slots = slots.push(before_stops.len() as int);
                } else {
                    slots = slots.push(0);
                }
            }
            i += 1;
        }
        proof {
            assert(self.deep_view().task_runs =~= goal.task_runs);
            assert forall|j: int| 0 <= j < b.task_runs.len() && live(#[trigger] b.task_runs[j]) implies stop_among(
                stops@,
                b,
                j,
                timeout,
            ) by {
                assert(stops_task(stops@[slots[j]], b, j, timeout));
            }
            assert forall|k: int| 0 <= k < stops@.len() implies stop_of_live(
                #[trigger] stops@[k],
                b,
                timeout,
            ) by {
                let j = owners[k];
                assert(live(b.task_runs[j]) && stops_task(stops@[k], b, j, timeout));
            }
        }
        stops
    }

    /// Takes in what happened: every live task run becomes what the event
    /// makes of it. Returns the stops that a cancellation calls for.
    fn take_in(&mut self, event: &Event, now: u64) -> (stops: Vec<Action>)
        requires
            old(self).cached(),
            old(self).deep_view().base_wf(),
        ensures
            final(self).cached(),
            final(self).deep_view() == after_event(old(self).deep_view(), *event, now),
            final(self).deep_view().base_wf(),
            match *event {
                Event::Cancel { by, force } => stops_match(
                    stops@,
                    old(self).deep_view(),
                    stop_timeout(old(self).deep_view().grace, force),
                ),
                _ => stops@.len() == 0,
            },
    {
        let ghost b = self.deep_view();
        let mut stops: Vec<Action> = Vec::new();
        proof {
            lemma_event_keeps_order(b, *event, now);
        }
        match event {
            Event::Started { task, scheduler_id, url } => {
                proof {
                    lemma_deep_keys(self.tasks@, task@);
                }
                match self.tasks.position(task) {
                    Some(i) => {
                        let change = match &self.task_runs[i] {
                            Some(t) => t.state == TaskRunState::Processing || t.state
                                == TaskRunState::Waiting,
                            None => false,
                        };
                        if change {
                            let mut t = self.task_run_at(i).unwrap();
                            t.state = TaskRunState::Running;
                            t.scheduler_id = match scheduler_id {
                                Some(x) => Some(x.clone()),
                                None => None,
                            };
                            t.url = match url {
                                Some(x) => Some(x.clone()),
                                None => None,
                            };
                            self.task_runs.set(i, Some(t));
                        }
                        proof {
                            lemma_one_told(b, self.deep_view(), *event, now, i as int);
                        }
                    },
                    None => {
                        proof {
                            lemma_none_told(b, *event, now);
                        }
                    },
                }
            },
            Event::StartFailed { task, reason } => {
                proof {
                    lemma_deep_keys(self.tasks@, task@);
                }
                match self.tasks.position(task) {
                    Some(i) => {
                        let change = match &self.task_runs[i] {
                            Some(t) => !t.state.is_terminal(),
                            None => false,
                        };
                        if change {
                            let mut t = self.task_run_at(i).unwrap();
                            t.state = TaskRunState::Failed;
                            t.ended = if now < t.started {
                                t.started
                            } else {
                                now
                            };
                            t.failure = Some(
                                RunFailureInfo {
                                    reason: RunFailureReason::SchedulerError,
                                    description: reason.clone(),
                                },
                            );
                            self.task_runs.set(i, Some(t));
                        }
                        proof {
                            lemma_one_told(b, self.deep_view(), *event, now, i as int);
                        }
                    },
                    None => {
                        proof {
                            lemma_none_told(b, *event, now);
                        }
                    },
                }
            },
            Event::Observed { task, state, exit_code } => {
                proof {
                    lemma_deep_keys(self.tasks@, task@);
                }
                match self.tasks.position(task) {
                    Some(i) => {
                        let change = match &self.task_runs[i] {
                            Some(t) => !t.state.is_terminal(),
                            None => false,
                        };
                        if change {
                            let t = self.task_run_at(i).unwrap();
                            if state.is_terminal() {
                                let done = finish(t, *state, *exit_code, now, self.cancelled);
                                self.task_runs.set(i, Some(done));
                            } else if *state != TaskRunState::Unknown {
                                let mut t = t;
                                t.state = *state;
                                self.task_runs.set(i, Some(t));
                            }
                        }
                        proof {
                            lemma_one_told(b, self.deep_view(), *event, now, i as int);
                        }
                    },
                    None => {
                        proof {
                            lemma_none_told(b, *event, now);
                        }
                    },
                }
            },
            Event::Cancel { by, force } => {
                stops = self.cancel(*by, *force, now);
                let ghost goal = after_event(b, *event, now);
                assert(self.deep_view().task_runs =~= goal.task_runs);
            },
        }
        stops
    }

    /// Takes up a pending run of a pipeline with the tasks `tasks`: starts
    /// every task that waits for nothing. `grace` is the number of seconds a
    /// container is given to stop of its own when the run is cancelled.
    /// Returns the tracker and what to ask of the scheduler.
    pub fn begin(run: Run, tasks: &StringMap<Task>, grace: i64, now: u64) -> (r: Result<
        (RunTracker, Vec<Action>),
        StartError,
    >)
        ensures
            match r {
                Ok((tracker, actions)) => {
                    let first = fresh(run.deep_view(), tasks.deep_view(), grace);
                    &&& run.state == RunState::Pending
                    &&& runnable(tasks.deep_view())
                    &&& tracker.wf()
                    &&& tracker.deep_view().run == write_up_of(tracker.deep_view(), now)
                    &&& grown(first, tracker.deep_view(), now)
                    &&& starts_match(actions@, first, tracker.deep_view())
                    &&& forall|k: int| 0 <= k < actions@.len() ==> (#[trigger] actions@[k]) is Start
                },
                Err(e) => if run.state != RunState::Pending {
                    e == StartError::RunNotPending
                } else {
                    e == StartError::NotRunnable && !runnable(tasks.deep_view())
                },
            },
    {
        if run.state != RunState::Pending {
            return Err(StartError::RunNotPending);
        }
        let parents = match dependency_places(tasks) {
            Some(parents) => parents,
            None => {
                return Err(StartError::NotRunnable);
            },
        };
        proof {
            lemma_task_graph_closed(tasks.deep_view());
        }
        if topological_order(&parents).is_none() {
            return Err(StartError::NotRunnable);
        }
        let n: usize = tasks.len();
        let held = tasks.clone();
        assert(held.deep_view() =~= tasks.deep_view());
        let mut task_runs: Vec<Option<TaskRun>> = Vec::new();
        let mut i: usize = 0;
        while i < n
            invariant
                i <= n,
                task_runs@.len() == i,
                forall|j: int| 0 <= j < i ==> (#[trigger] task_runs@[j]) is None,
            decreases n - i,
        {
            task_runs.push(None);
            i += 1;
        }
        let mut run = run;
        run.task_runs = Vec::new();
        let mut tracker = RunTracker { run, tasks: held, parents, task_runs, cancelled: None, grace };
        proof {
            use_type_invariant(&tracker.tasks);
            let v = tracker.deep_view();
            let first = fresh(run.deep_view(), tasks.deep_view(), grace);
            assert(v.task_runs =~= first.task_runs);
            assert(v.run.task_runs =~= Seq::<Seq<char>>::empty());
            assert(v == first);
            lemma_deep_keys(tracker.tasks@, Seq::empty());
        }
        let actions = tracker.settle(now);
        let ghost settled = tracker.deep_view();
        tracker.write_up(now);
        proof {
            let first = fresh(run.deep_view(), tasks.deep_view(), grace);
            lemma_write_up_keeps(first, settled, tracker.deep_view(), actions@, now);
        }
        Ok((tracker, actions))
    }

    /// Takes in what happened to the run at time `now` and says what to ask
    /// of the scheduler next. A run that is complete is not affected.
    pub fn step(&mut self, event: Event, now: u64) -> (actions: Vec<Action>)
        requires
            old(self).wf(),
        ensures
            final(self).wf(),
            if old(self).deep_view().run.state == RunState::Complete {
                &&& final(self).deep_view() == old(self).deep_view()
                &&& actions@.len() == 0
            } else {
                let told = after_event(old(self).deep_view(), event, now);
                &&& grown(told, final(self).deep_view(), now)
                &&& final(self).deep_view().run == write_up_of(final(self).deep_view(), now)
                &&& match event {
                    Event::Cancel { by, force } => stops_match(
                        actions@,
                        old(self).deep_view(),
                        stop_timeout(old(self).deep_view().grace, force),
                    ),
                    _ => {
                        &&& starts_match(actions@, told, final(self).deep_view())
                        &&& forall|k: int|
                            0 <= k < actions@.len() ==> (#[trigger] actions@[k]) is Start
                    },
                }
            },
    {
        if self.run.state == RunState::Complete {
            return Vec::new();
        }
        let stops = self.take_in(&event, now);
        let ghost told = self.deep_view();
        let actions = if self.cancelled.is_none() {
            self.settle(now)
        } else {
            proof {
                lemma_grown_reflexive(told, now);
            }
            stops
        };
        let ghost settled = self.deep_view();
        self.write_up(now);
        proof {
            lemma_write_up_keeps(told, settled, self.deep_view(), actions@, now);
            if told.cancelled is Some {
                assert forall|i: int| #[trigger] newly_started(told, settled, i) implies false by {}
            }
        }
        actions
    }
}

/// What a tracker holds before any task has a task run.
pub open spec fn fresh(
    run: crate::models::RunView,
    tasks: Seq<(Seq<char>, TaskView)>,
    grace: i64,
) -> TrackerView {
    TrackerView {
        run: crate::models::RunView { task_runs: Seq::empty(), ..run },
        tasks,
        task_runs: Seq::new(tasks.len(), |i: int| None),
        cancelled: None,
        grace,
    }
}

/// Ends a task run whose container is reported over.
fn finish(
    t: TaskRun,
    state: TaskRunState,
    exit_code: Option<u8>,
    now: u64,
    cancelled: Option<RunFailureReason>,
) -> (r: TaskRun)
    ensures
        r.deep_view() == finished(t.deep_view(), state, exit_code, now, cancelled),
{
    let mut r = t;
    r.state = state;
    r.exit_code = exit_code;
    r.ended = if now < r.started {
        r.started
    } else {
        now
    };
    r.failure = match state {
        TaskRunState::Failed => Some(
            RunFailureInfo {
                reason: RunFailureReason::AbnormalExit,
                description: owned("the container exited with a code other than zero"),
            },
        ),
        TaskRunState::Cancelled => Some(
            RunFailureInfo {
                reason: match cancelled {
                    Some(by) => by,
                    None => RunFailureReason::AdminCancelled,
                },
                description: owned("the task run was stopped"),
            },
        ),
        _ => None,
    };
    r
}

/// Where an event changes at most the task run of task `i`, and changes it
/// as the event says, the tracker holds what the event makes of it.
proof fn lemma_one_told(b: TrackerView, a: TrackerView, event: Event, now: u64, i: int)
    requires
        b.base_wf(),
        !(event is Cancel),
        0 <= i < b.task_runs.len(),
        match event {
            Event::Started { task, .. } => task@ == b.tasks[i].0,
            Event::StartFailed { task, .. } => task@ == b.tasks[i].0,
            Event::Observed { task, .. } => task@ == b.tasks[i].0,
            _ => false,
        },
        a.tasks == b.tasks,
        a.grace == b.grace,
        a.run == b.run,
        a.cancelled == b.cancelled,
        a.task_runs.len() == b.task_runs.len(),
        forall|j: int| 0 <= j < b.task_runs.len() && j != i ==> #[trigger] a.task_runs[j] == b.task_runs[j],
        a.task_runs[i] == (if live(b.task_runs[i]) {
            Some(told(b.task_runs[i]->Some_0, b.tasks[i].0, event, now, b.cancelled))
        } else {
            b.task_runs[i]
        }),
    ensures
        a == after_event(b, event, now),
{
    let goal = after_event(b, event, now);
    assert forall|j: int| 0 <= j < b.task_runs.len() implies a.task_runs[j] == goal.task_runs[j] by {
        if j != i {
            assert(b.tasks[j].0 != b.tasks[i].0);
        }
    }
    assert(a.task_runs =~= goal.task_runs);
}

/// An event about a task that the pipeline does not have changes nothing.
proof fn lemma_none_told(b: TrackerView, event: Event, now: u64)
    requires
        b.base_wf(),
        !(event is Cancel),
        match event {
            Event::Started { task, .. } => !has_key(b.tasks, task@),
            Event::StartFailed { task, .. } => !has_key(b.tasks, task@),
            Event::Observed { task, .. } => !has_key(b.tasks, task@),
            _ => false,
        },
    ensures
        b == after_event(b, event, now),
{
    let goal = after_event(b, event, now);
    assert forall|j: int| 0 <= j < b.task_runs.len() implies b.task_runs[j] == goal.task_runs[j] by {
        match event {
            Event::Started { task, .. } => {
                assert(b.tasks[j].0 != task@);
            },
            Event::StartFailed { task, .. } => {
                assert(b.tasks[j].0 != task@);
            },
            Event::Observed { task, .. } => {
                assert(b.tasks[j].0 != task@);
            },
            _ => {},
        }
    }
    assert(b.task_runs =~= goal.task_runs);
}

/// Writing the run up changes nothing that the order of the task runs
/// rests on.
proof fn lemma_run_change_keeps_order(b: TrackerView, a: TrackerView)
    requires
        b.base_wf(),
        b.settled(),
        a.tasks == b.tasks,
        a.task_runs == b.task_runs,
        a.cancelled == b.cancelled,
        a.grace == b.grace,
        same_run(b.run, a.run),
        a.run.task_runs == b.run.task_runs,
    ensures
        a.base_wf(),
        a.settled(),
        a.all_over() == b.all_over(),
        a.outcome() == b.outcome(),
        a.failure_reason() == b.failure_reason(),
{
    assert forall|j: int| 0 <= j < a.task_runs.len() implies (a.parents_over(j) == b.parents_over(j)
        && a.parents_satisfied(j) == b.parents_satisfied(j) && a.waiting(j) == b.waiting(j)) by {}
    assert forall|j: int| 0 <= j < a.task_runs.len() implies ((
    #[trigger] a.task_runs[j]) matches Some(t) ==> a.task_run_ok(j, t)) by {
        if a.task_runs[j] is Some {
            assert(b.task_run_ok(j, b.task_runs[j]->Some_0));
        }
    }
    assert(a.some_missing() == b.some_missing());
    assert forall|k: int| 0 <= k < a.run.task_runs.len() implies a.has_run_of(
        #[trigger] a.run.task_runs[k],
    ) by {
        assert(b.has_run_of(b.run.task_runs[k]));
    }
}

/// Writing the run up keeps what the step has promised of the task runs and
/// of the starts.
proof fn lemma_write_up_keeps(
    first: TrackerView,
    settled: TrackerView,
    written: TrackerView,
    actions: Seq<Action>,
    now: u64,
)
    requires
        settled.base_wf(),
        settled.settled(),
        grown(first, settled, now),
        written == (TrackerView { run: write_up_of(settled, now), ..settled }),
    ensures
        grown(first, written, now),
        starts_match(actions, first, settled) ==> starts_match(actions, first, written),
        written.run == write_up_of(written, now),
{
    lemma_run_change_keeps_order(settled, written);
    assert forall|i: int|
        0 <= i < first.task_runs.len() && first.task_runs[i] is None implies match (
    #[trigger] written.task_runs[i]) {
        Some(t) => t == launched(written, i, now) || set_aside(written, i, now, t),
        None => true,
    } by {
        match settled.task_runs[i] {
            Some(t) => {
                assert(t == launched(settled, i, now) || set_aside(settled, i, now, t));
            },
            None => {},
        }
    }
    if starts_match(actions, first, settled) {
        assert forall|i: int, action: Action| starts_task(action, settled, i) implies starts_task(
            action,
            written,
            i,
        ) by {
            let env = environment_of(
                settled.tasks[i].1.variables,
                settled.run.variables,
                settled.run.namespace,
                settled.run.pipeline,
                settled.run.id,
                settled.tasks[i].0,
                settled.tasks[i].1.image,
            );
            lemma_statuses_same(settled, written, i, env, settled.tasks[i].1.depends_on.len() as int);
        }
        assert forall|i: int| #[trigger] newly_started(first, written, i) implies starts(
            actions,
            written,
            i,
        ) by {
            assert(newly_started(first, settled, i));
            assert(starts(actions, settled, i));
            let k = choose|k: int| 0 <= k < actions.len() && starts_task(#[trigger] actions[k], settled, i);
            assert(starts_task(actions[k], written, i));
        }
        assert forall|k: int| 0 <= k < actions.len() && (#[trigger] actions[k]) is Start implies exists|
            i: int,
        | #[trigger] newly_started(first, written, i) && starts_task(actions[k], written, i) by {
            let i = choose|i: int| #[trigger]
                newly_started(first, settled, i) && starts_task(actions[k], settled, i);
            assert(newly_started(first, written, i) && starts_task(actions[k], written, i));
        }
    }
}

proof fn lemma_statuses_same(b: TrackerView, a: TrackerView, i: int, env: Env, count: int)
    requires
        a.tasks == b.tasks,
        a.task_runs == b.task_runs,
        0 <= count,
    ensures
        with_parent_statuses(a, i, env, count) == with_parent_statuses(b, i, env, count),
    decreases count,
{
    if count > 0 {
        lemma_statuses_same(b, a, i, env, count - 1);
    }
}

} // verus!
