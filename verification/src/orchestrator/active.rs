//! The runs that are running: one tracker per run, and the store kept in
//! step with them.
//!
//! [`ActiveRuns`] starts the run of a pipeline whose turn it is, tells the
//! tracker of a run what happened, and writes down in the store how the run
//! stands after every step. What it is handed back is what to ask of the
//! scheduler, and the tracker of a run once the run is over.

use crate::api::{cancelled_run, Api, Status, StatusCode};
use crate::graph::runnable;
use crate::models::run::{RunFailureInfoView, RunView};
use crate::models::{Run, RunFailureInfo, RunFailureReason, RunState, RunStatus};
use crate::orchestrator::tracker::{
    after_event, fresh, grown, later, starts_match, stop_timeout, stops_match, write_up_of, Action,
    Event, RunTracker,
};
use crate::orchestrator::TrackerView;
use crate::storage::runs::{recorded, with_runs, written};
use crate::storage::{
    lemma_first_pending, lemma_run_unique, lemma_shelf_in_order, next_to_start, DbView,
};
use crate::text::owned;
use vstd::prelude::*;

verus! {

/// What to ask of the scheduler, and for which run.
#[derive(Debug, PartialEq, Eq)]
pub struct Order {
    pub namespace: String,
    pub pipeline: String,
    pub run: u64,
    pub action: Action,
}

/// The actions of `orders`, in order.
pub open spec fn actions_of(orders: Seq<Order>) -> Seq<Action> {
    Seq::new(orders.len(), |j: int| orders[j].action)
}

/// Every one of `orders` is for run `run` of `pipeline` in `namespace`.
pub open spec fn addressed(
    orders: Seq<Order>,
    namespace: Seq<char>,
    pipeline: Seq<char>,
    run: u64,
) -> bool {
    forall|j: int|
        0 <= j < orders.len() ==> (#[trigger] orders[j]).namespace@ == namespace
            && orders[j].pipeline@ == pipeline && orders[j].run == run
}

/// Whether `t` follows run `id` of `pipeline` in `namespace`.
pub open spec fn follows(t: TrackerView, namespace: Seq<char>, pipeline: Seq<char>, id: u64) -> bool {
    t.run.namespace == namespace && t.run.pipeline == pipeline && t.run.id == id
}

/// The place of the first of `followed` that follows the run, or their
/// number where none does.
pub open spec fn first_following(
    followed: Seq<TrackerView>,
    namespace: Seq<char>,
    pipeline: Seq<char>,
    id: u64,
) -> int
    decreases followed.len(),
{
    if followed.len() == 0 {
        0
    } else if follows(followed[0], namespace, pipeline, id) {
        0
    } else {
        1 + first_following(followed.drop_first(), namespace, pipeline, id)
    }
}

/// The tracker `t` and the actions `actions` are what telling a tracker that
/// stood as `before` of `event` at time `now` gives: the event is taken in,
/// the tasks whose turn has come are started or set aside, the run is
/// written up, and the actions are the starts of the started tasks or, for
/// a cancellation, the stops of the tasks that were running.
#[verifier::opaque]
pub open spec fn moved(
    before: TrackerView,
    event: Event,
    now: u64,
    t: TrackerView,
    actions: Seq<Action>,
) -> bool {
    let heard = after_event(before, event, now);
    &&& t.wf()
    &&& t.run == write_up_of(t, now)
    &&& grown(heard, t, now)
    &&& match event {
        Event::Cancel { by, force } => stops_match(
            actions,
            before,
            stop_timeout(before.grace, force),
        ),
        _ => {
            &&& starts_match(actions, heard, t)
            &&& forall|j: int| 0 <= j < actions.len() ==> (#[trigger] actions[j]) is Start
        },
    }
}

/// What telling a tracker of an event gave.
#[derive(Debug)]
pub struct Told {
    /// What to ask of the scheduler.
    pub orders: Vec<Order>,
    /// The tracker of the run, where the event ended the run.
    pub finished: Option<RunTracker>,
}

/// Telling the `k`-th of the trackers `followed` of `event` at time `now`,
/// with the store as `store`, gave `told`, and left the trackers as `after`
/// and the store as `stored`: the tracker has moved, the store holds its run
/// as it now stands, and the tracker has been handed out if the run is over.
pub open spec fn passed_on(
    followed: Seq<TrackerView>,
    store: DbView,
    k: int,
    event: Event,
    now: u64,
    after: Seq<TrackerView>,
    stored: DbView,
    told: Told,
) -> bool {
    let t = match told.finished {
        Some(tracker) => tracker.deep_view(),
        None => after[k],
    };
    &&& 0 <= k < followed.len()
    &&& match told.finished {
        Some(tracker) => tracker.wf() && after == followed.remove(k),
        None => after == followed.update(k, t),
    }
    &&& told.finished is Some <==> t.run.state == RunState::Complete
    &&& moved(followed[k], event, now, t, actions_of(told.orders@))
    &&& stored == recorded(store, t.run)
}

/// A run that could not be taken up because the tasks of its pipeline
/// cannot be run, written up at time `now`: complete and failed, for a
/// failed precondition.
pub open spec fn refused_run(run: RunView, now: u64) -> RunView {
    RunView {
        state: RunState::Complete,
        status: RunStatus::Failed,
        ended: later(now, run.started),
        failure_info: Some(
            RunFailureInfoView {
                reason: RunFailureReason::FailedPrecondition,
                description: "a task depends on a task that the pipeline does not have, or on itself"@,
            },
        ),
        ..run
    }
}

/// What starting the next run of a pipeline gave.
#[derive(Debug)]
pub struct Launched {
    /// What to ask of the scheduler.
    pub orders: Vec<Order>,
    /// The tracker of the run, where the run was over as soon as it started.
    pub finished: Option<RunTracker>,
    /// The number of the run that was taken up, if one was.
    pub run: Option<u64>,
}

/// The runs that are running.
#[derive(Debug)]
pub struct ActiveRuns {
    trackers: Vec<RunTracker>,
    grace: i64,
}

/// Addresses `actions` to run `run` of `pipeline` in `namespace`.
fn address(namespace: &str, pipeline: &str, run: u64, actions: Vec<Action>) -> (orders: Vec<Order>)
    ensures
        actions_of(orders@) == actions@,
        orders@.len() == actions@.len(),
        forall|j: int| 0 <= j < orders@.len() ==> (#[trigger] orders@[j]).action == actions@[j],
        addressed(orders@, namespace@, pipeline@, run),
{
    let mut rest = actions;
    let mut orders: Vec<Order> = Vec::new();
    let ghost all = actions@;
    assert(all.skip(0) =~= all);
    while rest.len() > 0
        invariant
            orders@.len() + rest@.len() == all.len(),
            rest@ == all.skip(orders@.len() as int),
            forall|j: int| 0 <= j < orders@.len() ==> (#[trigger] orders@[j]).action == all[j],
            addressed(orders@, namespace@, pipeline@, run),
        decreases rest@.len(),
    {
        let ghost done = orders@.len() as int;
        let action = rest.remove(0);
        assert(action == all[done]);
        assert(rest@ =~= all.skip(done + 1));
        orders.push(Order { namespace: owned(namespace), pipeline: owned(pipeline), run, action });
    }
    assert(actions_of(orders@) =~= all);
    orders
}

/// Tells `tracker` of `event`, writes down how its run stands after it, and
/// addresses what is to be asked of the scheduler.
fn hand_on(tracker: &mut RunTracker, api: &mut Api, event: Event, now: u64) -> (orders: Vec<Order>)
    requires
        old(tracker).wf(),
        old(tracker).deep_view().run.state == RunState::Running,
        old(api).wf(),
    ensures
        final(tracker).wf(),
        final(api).wf(),
        final(api).dev_mode() == old(api).dev_mode(),
        final(api).build() == old(api).build(),
        moved(
            old(tracker).deep_view(),
            event,
            now,
            final(tracker).deep_view(),
            actions_of(orders@),
        ),
        addressed(
            orders@,
            old(tracker).deep_view().run.namespace,
            old(tracker).deep_view().run.pipeline,
            old(tracker).deep_view().run.id,
        ),
        final(api).store() == recorded(old(api).store(), final(tracker).deep_view().run),
        ({
            let state = final(tracker).deep_view().run.state;
            state == RunState::Running || state == RunState::Complete
        }),
{
    let actions = tracker.step(event, now);
    let _ = api.update_run(tracker.run());
    let run = tracker.run();
    proof {
        reveal(moved);
    }
    address(run.namespace.as_str(), run.pipeline.as_str(), run.id, actions)
}

impl ActiveRuns {
    /// The trackers of the runs that are running.
    pub closed spec fn followed(&self) -> Seq<TrackerView> {
        self.trackers.deep_view()
    }

    /// The seconds a container is given to stop of its own when its run is
    /// cancelled.
    pub closed spec fn grace(&self) -> i64 {
        self.grace
    }

    /// Every tracker is in order and follows a run that is running.
    pub closed spec fn wf(&self) -> bool {
        forall|k: int|
            0 <= k < self.trackers@.len() ==> (#[trigger] self.trackers@[k]).wf()
                && self.trackers@[k].deep_view().run.state == RunState::Running
    }

    /// The trackers of runs that are in order are in order themselves.
    pub proof fn lemma_followed_in_order(&self, k: int)
        requires
            self.wf(),
            0 <= k < self.followed().len(),
        ensures
            self.followed()[k].wf(),
            self.followed()[k].run.state == RunState::Running,
    {
        assert(self.trackers@[k].wf());
    }

    /// No run is running.
    pub fn new(grace: i64) -> (r: ActiveRuns)
        ensures
            r.wf(),
            r.followed().len() == 0,
            r.grace() == grace,
    {
        ActiveRuns { trackers: Vec::new(), grace }
    }

    /// How many runs are running.
    pub fn len(&self) -> (n: usize)
        ensures
            n == self.followed().len(),
    {
        self.trackers.len()
    }

    /// The run that the `k`-th tracker follows, as it stands.
    pub fn run_at(&self, k: usize) -> (r: &Run)
        requires
            k < self.followed().len(),
        ensures
            r.deep_view() == self.followed()[k as int].run,
    {
        self.trackers[k].run()
    }

    /// The `k`-th tracker.
    pub fn tracker_at(&self, k: usize) -> (r: &RunTracker)
        requires
            self.wf(),
            k < self.followed().len(),
        ensures
            r.wf(),
            r.deep_view() == self.followed()[k as int],
    {
        assert(self.trackers@[k as int].wf());
        &self.trackers[k]
    }

    /// The place of the tracker of a run, if the run is running.
    pub fn position(&self, namespace: &str, pipeline: &str, id: u64) -> (r: Option<usize>)
        ensures
            match r {
                Some(k) => k == first_following(self.followed(), namespace@, pipeline@, id) && k
                    < self.followed().len() && follows(
                    self.followed()[k as int],
                    namespace@,
                    pipeline@,
                    id,
                ),
                None => first_following(self.followed(), namespace@, pipeline@, id)
                    == self.followed().len(),
            },
    {
        let ghost all = self.followed();
        let mut k: usize = 0;
        assert(all.skip(0) =~= all);
        while k < self.trackers.len()
            invariant
                all == self.followed(),
                k <= self.trackers@.len(),
                first_following(all, namespace@, pipeline@, id) == k + first_following(
                    all.skip(k as int),
                    namespace@,
                    pipeline@,
                    id,
                ),
            decreases self.trackers@.len() - k,
        {
            assert(all.skip(k as int)[0] == all[k as int]);
            assert(all.skip(k as int).drop_first() =~= all.skip(k as int + 1));
            let run = self.trackers[k].run();
            assert(run.deep_view() == all[k as int].run);
            if run.id == id && crate::text::same(run.namespace.as_str(), namespace)
                && crate::text::same(run.pipeline.as_str(), pipeline) {
                return Some(k);
            }
            k += 1;
        }
        None
    }

    /// Starts the run of a pipeline whose turn it is: the pending run with
    /// the lowest number, if the pipeline has room for one more running run.
    /// The run is taken up by a tracker and written down as its tracker
    /// leaves it. A run whose pipeline holds tasks that cannot be run is
    /// written down as failed.
    pub fn launch(&mut self, api: &mut Api, namespace: &str, pipeline: &str, now: u64) -> (r:
        Launched)
        requires
            old(self).wf(),
            old(api).wf(),
        ensures
            final(self).wf(),
            final(api).wf(),
            final(self).grace() == old(self).grace(),
            final(api).dev_mode() == old(api).dev_mode(),
            final(api).build() == old(api).build(),
            ({
                let store = old(api).store();
                if !store.has_pipeline(namespace@, pipeline@) || next_to_start(
                    store.shelf(namespace@, pipeline@),
                ) is None {
                    &&& r.run is None
                    &&& r.finished is None
                    &&& r.orders@.len() == 0
                    &&& final(api).store() == store
                    &&& final(self).followed() == old(self).followed()
                } else {
                    let shelf = store.shelf(namespace@, pipeline@);
                    let id = next_to_start(shelf)->Some_0;
                    let run = store.run(namespace@, pipeline@, id);
                    &&& r.run == Some(id)
                    &&& run.state == RunState::Pending
                    &&& if !runnable(shelf.pipeline.tasks) {
                        &&& r.finished is None
                        &&& r.orders@.len() == 0
                        &&& final(api).store() == written(store, refused_run(run, now))
                        &&& final(self).followed() == old(self).followed()
                    } else {
                        let first = fresh(run, shelf.pipeline.tasks, old(self).grace());
                        let t = match r.finished {
                            Some(tracker) => tracker.deep_view(),
                            None => final(self).followed().last(),
                        };
                        &&& match r.finished {
                            Some(tracker) => tracker.wf() && final(self).followed() == old(
                                self,
                            ).followed(),
                            None => final(self).followed() == old(self).followed().push(t),
                        }
                        &&& r.finished is Some <==> t.run.state == RunState::Complete
                        &&& t.wf()
                        &&& t.run == write_up_of(t, now)
                        &&& grown(first, t, now)
                        &&& starts_match(actions_of(r.orders@), first, t)
                        &&& forall|j: int|
                            0 <= j < r.orders@.len() ==> (#[trigger] r.orders@[j]).action is Start
                        &&& addressed(r.orders@, namespace@, pipeline@, id)
                        &&& final(api).store() == written(store, t.run)
                    }
                }
            }),
    {
        let ghost store = api.store();
        let id = match api.next_pending_run(namespace, pipeline) {
            Ok(Some(id)) => id,
            _ => {
                return Launched { orders: Vec::new(), finished: None, run: None };
            },
        };
        proof {
            lemma_shelf_in_order(store, namespace@, pipeline@);
            let shelf = store.shelf(namespace@, pipeline@);
            lemma_first_pending(shelf);
            lemma_run_unique(shelf, crate::storage::first_pending(shelf.runs));
        }
        let run = match api.get_run(namespace, pipeline, id) {
            Ok(run) => run,
            Err(_) => {
                return Launched { orders: Vec::new(), finished: None, run: None };
            },
        };
        let tasks = match api.get_pipeline(namespace, pipeline) {
            Ok(found) => found.tasks,
            Err(_) => {
                return Launched { orders: Vec::new(), finished: None, run: None };
            },
        };
        let ghost stored = run.deep_view();
        match RunTracker::begin(run.clone(), &tasks, self.grace, now) {
            Ok((tracker, actions)) => {
                proof {
                    assert(tracker.deep_view().wf());
                }
                match api.update_run(tracker.run()) {
                    Ok(()) => {},
                    Err(_) => {
                        assert(false);
                    },
                }
                let orders = address(namespace, pipeline, id, actions);
                if tracker.is_complete() {
                    Launched { orders, finished: Some(tracker), run: Some(id) }
                } else {
                    let ghost before = self.trackers.deep_view();
                    self.trackers.push(tracker);
                    assert(self.trackers.deep_view() =~= before.push(tracker.deep_view()));
                    Launched { orders, finished: None, run: Some(id) }
                }
            },
            Err(_) => {
                let mut failed = run;
                failed.state = RunState::Complete;
                failed.status = RunStatus::Failed;
                failed.ended = if now < failed.started {
                    failed.started
                } else {
                    now
                };
                failed.failure_info = Some(
                    RunFailureInfo {
                        reason: RunFailureReason::FailedPrecondition,
                        description: owned(
                            "a task depends on a task that the pipeline does not have, or on itself",
                        ),
                    },
                );
                assert(failed.deep_view() == refused_run(stored, now));
                match api.update_run(&failed) {
                    Ok(()) => {},
                    Err(_) => {
                        assert(false);
                    },
                }
                Launched { orders: Vec::new(), finished: None, run: Some(id) }
            },
        }
    }
    /// Takes the `k`-th tracker out.
    fn take_out(&mut self, k: usize) -> (tracker: RunTracker)
        requires
            old(self).wf(),
            k < old(self).followed().len(),
        ensures
            final(self).wf(),
            final(self).grace() == old(self).grace(),
            final(self).followed() == old(self).followed().remove(k as int),
            tracker.deep_view() == old(self).followed()[k as int],
            tracker.wf(),
            tracker.deep_view().run.state == RunState::Running,
    {
        let ghost all = self.trackers.deep_view();
        assert(self.trackers@[k as int].wf());
        let tracker = self.trackers.remove(k);
        assert(self.trackers.deep_view() =~= all.remove(k as int));
        tracker
    }

    /// Puts a tracker of a running run in at place `k`.
    fn put_in(&mut self, k: usize, tracker: RunTracker)
        requires
            old(self).wf(),
            k <= old(self).followed().len(),
            tracker.wf(),
            tracker.deep_view().run.state == RunState::Running,
        ensures
            final(self).wf(),
            final(self).grace() == old(self).grace(),
            final(self).followed() == old(self).followed().insert(k as int, tracker.deep_view()),
    {
        let ghost all = self.trackers.deep_view();
        self.trackers.insert(k, tracker);
        assert(self.trackers.deep_view() =~= all.insert(k as int, tracker.deep_view()));
    }

    /// Tells the `k`-th tracker what happened to its run.
    fn pass_on(&mut self, api: &mut Api, k: usize, event: Event, now: u64) -> (told: Told)
        requires
            old(self).wf(),
            old(api).wf(),
            k < old(self).followed().len(),
        ensures
            final(self).wf(),
            final(api).wf(),
            final(self).grace() == old(self).grace(),
            final(api).dev_mode() == old(api).dev_mode(),
            final(api).build() == old(api).build(),
            passed_on(
                old(self).followed(),
                old(api).store(),
                k as int,
                event,
                now,
                final(self).followed(),
                final(api).store(),
                told,
            ),
            addressed(
                told.orders@,
                old(self).followed()[k as int].run.namespace,
                old(self).followed()[k as int].run.pipeline,
                old(self).followed()[k as int].run.id,
            ),
    {
        let ghost all = self.followed();
        let mut tracker = self.take_out(k);
        let orders = hand_on(&mut tracker, api, event, now);
        if tracker.is_complete() {
            Told { orders, finished: Some(tracker) }
        } else {
            self.put_in(k, tracker);
            assert(self.followed() =~= all.update(k as int, tracker.deep_view()));
            Told { orders, finished: None }
        }
    }

    /// Tells the tracker of a run what happened to the run at time `now`,
    /// and writes down in the store how the run stands after it. A run that
    /// the event ends leaves the runs that are running. Nothing happens where
    /// the run is not running.
    pub fn tell(
        &mut self,
        api: &mut Api,
        namespace: &str,
        pipeline: &str,
        id: u64,
        event: Event,
        now: u64,
    ) -> (r: Option<Told>)
        requires
            old(self).wf(),
            old(api).wf(),
        ensures
            final(self).wf(),
            final(api).wf(),
            final(self).grace() == old(self).grace(),
            final(api).dev_mode() == old(api).dev_mode(),
            final(api).build() == old(api).build(),
            ({
                let k = first_following(old(self).followed(), namespace@, pipeline@, id);
                if k == old(self).followed().len() {
                    &&& r is None
                    &&& final(api).store() == old(api).store()
                    &&& final(self).followed() == old(self).followed()
                } else {
                    &&& r matches Some(told)
                    &&& passed_on(
                        old(self).followed(),
                        old(api).store(),
                        k,
                        event,
                        now,
                        final(self).followed(),
                        final(api).store(),
                        told,
                    )
                    &&& addressed(told.orders@, namespace@, pipeline@, id)
                }
            }),
    {
        match self.position(namespace, pipeline, id) {
            Some(k) => Some(self.pass_on(api, k, event, now)),
            None => None,
        }
    }

    /// Cancels a run at time `now`. A run that is running is cancelled
    /// through its tracker: its live containers are to be stopped, within
    /// the grace that was agreed or at once where `force` is set. A run that
    /// waits for its turn is written down as cancelled. A run that is
    /// complete is left as it is.
    pub fn cancel(
        &mut self,
        api: &mut Api,
        namespace: &str,
        pipeline: &str,
        id: u64,
        by: RunFailureReason,
        force: bool,
        now: u64,
    ) -> (r: Result<Told, Status>)
        requires
            old(self).wf(),
            old(api).wf(),
        ensures
            final(self).wf(),
            final(api).wf(),
            final(self).grace() == old(self).grace(),
            final(api).dev_mode() == old(api).dev_mode(),
            final(api).build() == old(api).build(),
            ({
                let k = first_following(old(self).followed(), namespace@, pipeline@, id);
                let store = old(api).store();
                if k < old(self).followed().len() {
                    &&& r matches Ok(told)
                    &&& passed_on(
                        old(self).followed(),
                        store,
                        k,
                        Event::Cancel { by, force },
                        now,
                        final(self).followed(),
                        final(api).store(),
                        told,
                    )
                    &&& addressed(told.orders@, namespace@, pipeline@, id)
                } else {
                    &&& final(self).followed() == old(self).followed()
                    &&& match r {
                        Ok(told) => {
                            let shelf = store.shelf(namespace@, pipeline@);
                            let at = shelf.run_index(id);
                            &&& told.orders@.len() == 0
                            &&& told.finished is None
                            &&& store.has_run(namespace@, pipeline@, id)
                            &&& shelf.runs[at].state != RunState::Running
                            &&& final(api).store() == (if shelf.runs[at].state
                                == RunState::Pending {
                                with_runs(
                                    store,
                                    namespace@,
                                    pipeline@,
                                    shelf.last_run_id,
                                    shelf.runs.update(at, cancelled_run(shelf.runs[at], by, now)),
                                )
                            } else {
                                store
                            })
                        },
                        Err(status) => {
                            &&& final(api).store() == store
                            &&& if !store.has_run(namespace@, pipeline@, id) {
                                status.code == StatusCode::NotFound
                            } else {
                                &&& status.code == StatusCode::FailedPrecondition
                                &&& store.run(namespace@, pipeline@, id).state == RunState::Running
                            }
                        },
                    }
                }
            }),
    {
        match self.tell(api, namespace, pipeline, id, Event::Cancel { by, force }, now) {
            Some(told) => Ok(told),
            None => match api.cancel_pending_run(namespace, pipeline, id, by, now) {
                Ok(()) => Ok(Told { orders: Vec::new(), finished: None }),
                Err(status) => Err(status),
            },
        }
    }
}

} // verus!
