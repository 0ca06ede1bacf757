//! Runs in the store.

use crate::models::{PipelineState, Run, RunState, RunStatus, RunView};
use crate::storage::pipelines::{
    lemma_wf_after_scope_change, lemma_wf_after_shelf_change, newest_index,
};
use crate::storage::{
    effective_limit, first_pending, has_room, lemma_count_push, lemma_count_remove,
    lemma_count_update, lemma_newest_in_range, lemma_run_unique, may_move, may_write, newest,
    newest_first, next_to_start, page, page_end, page_limit, page_start, running, running_count,
    settled, Db, DbView, ScopeView, Shelf, ShelfView, StorageError,
};
use vstd::prelude::*;

verus! {

/// The run stored when `given` is created as run `id`.
pub open spec fn numbered(given: RunView, id: u64) -> RunView {
    RunView { id, ..given }
}

/// What an update leaves of the stored run `before` when `given` is written
/// over it: the key and the start time stay, the rest is taken from `given`.
pub open spec fn updated_run(before: RunView, given: RunView) -> RunView {
    RunView {
        namespace: before.namespace,
        pipeline: before.pipeline,
        id: before.id,
        started: before.started,
        ..given
    }
}

/// The store `db` with the runs of one pipeline replaced by `runs` and the
/// pipeline's highest run number by `last_run_id`.
pub open spec fn with_runs(
    db: DbView,
    namespace: Seq<char>,
    pipeline: Seq<char>,
    last_run_id: u64,
    runs: Seq<RunView>,
) -> DbView {
    let at = db.scope_index(namespace);
    let scope = db.scopes[at];
    let i = scope.shelf_index(pipeline);
    let shelf = scope.shelves[i];
    DbView {
        scopes: db.scopes.update(
            at,
            ScopeView {
                shelves: scope.shelves.update(i, ShelfView { last_run_id, runs, ..shelf }),
                ..scope
            },
        ),
    }
}

/// A run that was stored before can be put back on `shelf`: its number is
/// above every number the pipeline has given, it is settled, and if it is
/// running the pipeline has room for it.
pub open spec fn restorable(shelf: ShelfView, run: RunView) -> bool {
    &&& run.id > shelf.last_run_id
    &&& settled(run)
    &&& run.state == RunState::Running ==> has_room(shelf)
}

/// The store `db` after `run` is written over the run stored under its key.
pub open spec fn written(db: DbView, run: RunView) -> DbView {
    let shelf = db.shelf(run.namespace, run.pipeline);
    let k = shelf.run_index(run.id);
    with_runs(
        db,
        run.namespace,
        run.pipeline,
        shelf.last_run_id,
        shelf.runs.update(k, updated_run(shelf.runs[k], run)),
    )
}

/// The numbers of the runs among `runs` that are not complete, in the order
/// of `runs`.
pub open spec fn open_ids(runs: Seq<RunView>) -> Seq<u64>
    decreases runs.len(),
{
    if runs.len() == 0 {
        Seq::empty()
    } else if runs.last().state != RunState::Complete {
        open_ids(runs.drop_last()).push(runs.last().id)
    } else {
        open_ids(runs.drop_last())
    }
}

/// Whether `run` may be written over the run stored under its key: that run
/// is stored, may move to the state of `run`, and `run` is settled.
pub open spec fn writable(db: DbView, run: RunView) -> bool {
    let shelf = db.shelf(run.namespace, run.pipeline);
    &&& db.has_run(run.namespace, run.pipeline, run.id)
    &&& may_write(shelf, shelf.runs[shelf.run_index(run.id)].state, run.state)
    &&& settled(run)
}

/// The store `db` after an attempt to write `run`: the write takes place
/// where it may, and leaves the store as it was where it may not.
pub open spec fn recorded(db: DbView, run: RunView) -> DbView {
    if writable(db, run) {
        written(db, run)
    } else {
        db
    }
}

/// Decides [`may_move`].
pub fn can_move(from: RunState, to: RunState) -> (r: bool)
    ensures
        r == may_move(from, to),
{
    let a: u8 = match from {
        RunState::Unknown => 0,
        RunState::Pending => 1,
        RunState::Running => 2,
        RunState::Complete => 3,
    };
    let b: u8 = match to {
        RunState::Unknown => 0,
        RunState::Pending => 1,
        RunState::Running => 2,
        RunState::Complete => 3,
    };
    b != 0 && a <= b
}

/// How many of `runs` are running.
pub(crate) fn count_running(runs: &Vec<Run>) -> (r: usize)
    ensures
        r == running_count(runs.deep_view()),
        r <= runs@.len(),
{
    let ghost all = runs.deep_view();
    let mut count: usize = 0;
    let mut i: usize = 0;
    assert(all.take(0) =~= Seq::empty());
    while i < runs.len()
        invariant
            i <= runs@.len(),
            all == runs.deep_view(),
            count <= i,
            count == running_count(all.take(i as int)),
        decreases runs@.len() - i,
    {
        assert(all.take(i as int + 1).drop_last() =~= all.take(i as int));
        assert(all.take(i as int + 1).last() == all[i as int]);
        if runs[i].state == RunState::Running {
            count += 1;
        }
        i += 1;
    }
    assert(all.take(runs@.len() as int) =~= all);
    count
}

impl Shelf {
    /// The place of run `id`, if the pipeline has it.
    pub(crate) fn find_run(&self, id: u64) -> (r: Option<usize>)
        requires
            self.deep_view().wf(),
        ensures
            r is Some <==> self.deep_view().has_run(id),
            r matches Some(i) ==> i == self.deep_view().run_index(id) && i < self.runs@.len(),
    {
        let mut i: usize = 0;
        while i < self.runs.len()
            invariant
                i <= self.runs@.len(),
                self.deep_view().wf(),
                forall|j: int| 0 <= j < i ==> (#[trigger] self.deep_view().runs[j]).id != id,
            decreases self.runs@.len() - i,
        {
            if self.runs[i].id == id {
                proof {
                    assert(self.deep_view().runs[i as int].id == id);
                    lemma_run_unique(self.deep_view(), i as int);
                }
                return Some(i);
            }
            assert(self.deep_view().runs[i as int].id != id);
            i += 1;
        }
        None
    }

    /// Whether a run in state `from` may be written in state `to`.
    pub(crate) fn can_write(&self, from: RunState, to: RunState) -> (r: bool)
        ensures
            r == may_write(self.deep_view(), from, to),
    {
        if !can_move(from, to) {
            return false;
        }
        if to == RunState::Running && from != RunState::Running {
            if self.pipeline.parallelism != 0 {
                let count: usize = count_running(&self.runs);
                return (count as u64) < self.pipeline.parallelism;
            }
        }
        true
    }
}

impl Db {
    /// The place of a pipeline: that of its namespace and its own within it.
    pub(crate) fn find_pipeline(&self, namespace: &str, pipeline: &str) -> (r: Option<(usize, usize)>)
        requires
            self.deep_view().wf(),
        ensures
            r is Some <==> self.deep_view().has_pipeline(namespace@, pipeline@),
            r matches Some((at, i)) ==> {
                &&& at == self.deep_view().scope_index(namespace@)
                &&& at < self.scopes@.len()
                &&& i == self.deep_view().scopes[at as int].shelf_index(pipeline@)
                &&& i < self.scopes@[at as int].shelves@.len()
                &&& self.scopes@[at as int].shelves@[i as int].deep_view() == self.deep_view().shelf(
                    namespace@,
                    pipeline@,
                )
                &&& self.deep_view().shelf(namespace@, pipeline@).wf()
            },
    {
        let at = match self.find_scope(namespace) {
            Some(at) => at,
            None => {
                return None;
            },
        };
        assert(self.scopes@[at as int].deep_view() == self.deep_view().scopes[at as int]);
        match self.scopes[at].find_shelf(pipeline) {
            Some(i) => {
                assert(self.scopes@[at as int].shelves@[i as int].deep_view()
                    == self.deep_view().scopes[at as int].shelves[i as int]);
                Some((at, i))
            },
            None => None,
        }
    }

    /// The runs of a pipeline, the newest first: at most `limit` of them
    /// (the maximum where `limit` is 0 or above it), after the first
    /// `offset`. A pipeline that is not stored has no runs.
    pub fn list_runs(&self, offset: u64, limit: u64, namespace: &str, pipeline: &str) -> (r: Result<
        Vec<Run>,
        StorageError,
    >)
        requires
            self.deep_view().wf(),
        ensures
            r matches Ok(found) && found.deep_view() == page(
                newest_first(self.deep_view().runs(namespace@, pipeline@)),
                offset,
                effective_limit(limit),
            ),
    {
        let limit: u64 = page_limit(limit);
        let ghost all = self.deep_view().runs(namespace@, pipeline@);
        proof {
            lemma_newest_first_len(all);
        }
        let (at, i) = match self.find_pipeline(namespace, pipeline) {
            Some(place) => place,
            None => {
                let found: Vec<Run> = Vec::new();
                assert(found.deep_view() =~= page(newest_first(all), offset, limit));
                return Ok(found);
            },
        };
        let mut rest: Vec<Run> = self.scopes[at].shelves[i].runs.clone();
        assert(rest.deep_view() =~= all);
        let len: usize = rest.len();
        let start: usize = if offset <= len as u64 {
            offset as usize
        } else {
            len
        };
        let end: usize = if limit <= (len - start) as u64 {
            start + limit as usize
        } else {
            len
        };
        assert(start == page_start(newest_first(all).len(), offset));
        assert(end == page_end(newest_first(all).len(), offset, limit));
        let mut sorted: Vec<Run> = Vec::new();
        assert(sorted.deep_view() + newest_first(rest.deep_view()) =~= newest_first(all));
        while sorted.len() < end
            invariant
                start <= end <= len,
                sorted@.len() + rest@.len() == len,
                sorted@.len() <= end,
                sorted.deep_view() + newest_first(rest.deep_view()) == newest_first(all),
            decreases end - sorted@.len(),
        {
            let ghost before_rest = rest.deep_view();
            let ghost before_sorted = sorted.deep_view();
            let k: usize = newest_index(&rest);
            let run = rest.remove(k);
            sorted.push(run);
            proof {
                assert(rest.deep_view() =~= before_rest.remove(k as int));
                assert(sorted.deep_view() =~= before_sorted.push(before_rest[k as int]));
                assert(sorted.deep_view() + newest_first(rest.deep_view()) =~= before_sorted
                    + newest_first(before_rest));
            }
        }
        let found = sorted.split_off(start);
        proof {
            lemma_newest_first_len(rest.deep_view());
            let whole = newest_first(all);
            let head = sorted.deep_view() + found.deep_view();
            assert(head =~= whole.subrange(0, end as int)) by {
                assert(head.len() == end);
                assert forall|j: int| 0 <= j < end implies head[j] == whole[j] by {
                    assert(whole[j] == (head + newest_first(rest.deep_view()))[j]);
                }
            }
            assert(found.deep_view() =~= whole.subrange(start as int, end as int));
        }
        Ok(found)
    }

    /// Stores a new run of a pipeline and gives it the next number of the
    /// pipeline. The pipeline must be stored and active, and the run pending
    /// and without an outcome.
    pub fn create_run(&mut self, run: &Run) -> (r: Result<u64, StorageError>)
        requires
            old(self).deep_view().wf(),
        ensures
            final(self).deep_view().wf(),
            match r {
                Ok(id) => {
                    let before = old(self).deep_view();
                    let shelf = before.shelf(run.namespace@, run.pipeline@);
                    &&& before.has_pipeline(run.namespace@, run.pipeline@)
                    &&& shelf.pipeline.state == PipelineState::Active
                    &&& run.state == RunState::Pending
                    &&& run.status == RunStatus::Unknown
                    &&& id == shelf.last_run_id + 1
                    &&& final(self).deep_view() == with_runs(
                        before,
                        run.namespace@,
                        run.pipeline@,
                        id,
                        shelf.runs.push(numbered(run.deep_view(), id)),
                    )
                },
                Err(e) => {
                    let before = old(self).deep_view();
                    &&& final(self).deep_view() == before
                    &&& if !before.has_pipeline(run.namespace@, run.pipeline@) {
                        e is NotFound
                    } else {
                        let shelf = before.shelf(run.namespace@, run.pipeline@);
                        &&& e is FailedPrecondition
                        &&& !(shelf.pipeline.state == PipelineState::Active && run.state
                            == RunState::Pending && run.status == RunStatus::Unknown
                            && shelf.last_run_id < u64::MAX)
                    }
                },
            },
    {
        let ghost before = self.deep_view();
        let (at, i) = match self.find_pipeline(run.namespace.as_str(), run.pipeline.as_str()) {
            Some(place) => place,
            None => {
                return Err(StorageError::NotFound);
            },
        };
        let ghost shelf = before.shelf(run.namespace@, run.pipeline@);
        if self.scopes[at].shelves[i].pipeline.state != PipelineState::Active || run.state
            != RunState::Pending || run.status != RunStatus::Unknown
            || self.scopes[at].shelves[i].last_run_id == u64::MAX {
            return Err(StorageError::FailedPrecondition);
        }
        let id: u64 = self.scopes[at].shelves[i].last_run_id + 1;
        let mut stored = run.clone();
        stored.id = id;
        self.scopes[at].shelves[i].last_run_id = id;
        self.scopes[at].shelves[i].runs.push(stored);
        proof {
            let runs = shelf.runs.push(numbered(run.deep_view(), id));
            let changed = ShelfView { last_run_id: id, runs, ..shelf };
            lemma_count_push(shelf.runs, numbered(run.deep_view(), id));
            assert(changed.wf());
            assert(self.deep_view().scopes[at as int].shelves[i as int].runs =~= runs);
            self.lemma_shelf_written(before, at as int, i as int, changed);
        }
        Ok(id)
    }

    /// Puts back a run that was stored before, under its own number. The
    /// pipeline must be stored, the number above every number the pipeline
    /// has given, and the run in a state that a stored run can be in; a run
    /// that is running must find room.
    pub fn restore_run(&mut self, run: &Run) -> (r: Result<(), StorageError>)
        requires
            old(self).deep_view().wf(),
        ensures
            final(self).deep_view().wf(),
            match r {
                Ok(()) => {
                    let before = old(self).deep_view();
                    let shelf = before.shelf(run.namespace@, run.pipeline@);
                    &&& before.has_pipeline(run.namespace@, run.pipeline@)
                    &&& restorable(shelf, run.deep_view())
                    &&& final(self).deep_view() == with_runs(
                        before,
                        run.namespace@,
                        run.pipeline@,
                        run.id,
                        shelf.runs.push(run.deep_view()),
                    )
                },
                Err(e) => {
                    let before = old(self).deep_view();
                    &&& final(self).deep_view() == before
                    &&& if !before.has_pipeline(run.namespace@, run.pipeline@) {
                        e is NotFound
                    } else {
                        &&& e is FailedPrecondition
                        &&& !restorable(before.shelf(run.namespace@, run.pipeline@), run.deep_view())
                    }
                },
            },
    {
        let ghost before = self.deep_view();
        let (at, i) = match self.find_pipeline(run.namespace.as_str(), run.pipeline.as_str()) {
            Some(place) => place,
            None => {
                return Err(StorageError::NotFound);
            },
        };
        let ghost shelf = before.shelf(run.namespace@, run.pipeline@);
        if run.id <= self.scopes[at].shelves[i].last_run_id || run.state == RunState::Unknown || (
        run.status != RunStatus::Unknown && run.state != RunState::Complete) {
            return Err(StorageError::FailedPrecondition);
        }
        if run.state == RunState::Running && self.scopes[at].shelves[i].pipeline.parallelism != 0 {
            let count: usize = count_running(&self.scopes[at].shelves[i].runs);
            if count as u64 >= self.scopes[at].shelves[i].pipeline.parallelism {
                return Err(StorageError::FailedPrecondition);
            }
        }
        let mut stored = run.clone();
        stored.namespace = self.scopes[at].shelves[i].pipeline.namespace.clone();
        stored.pipeline = self.scopes[at].shelves[i].pipeline.id.clone();
        self.scopes[at].shelves[i].last_run_id = run.id;
        self.scopes[at].shelves[i].runs.push(stored);
        proof {
            crate::storage::lemma_shelf_in_order(before, run.namespace@, run.pipeline@);
            let runs = shelf.runs.push(run.deep_view());
            let changed = ShelfView { last_run_id: run.id, runs, ..shelf };
            lemma_count_push(shelf.runs, run.deep_view());
            assert(changed.wf());
            assert(self.deep_view().scopes[at as int].shelves[i as int].runs =~= runs);
            self.lemma_shelf_written(before, at as int, i as int, changed);
        }
        Ok(())
    }

    /// The numbers of the runs of a pipeline that are not complete, the
    /// lowest first.
    pub fn open_runs(&self, namespace: &str, pipeline: &str) -> (r: Result<Vec<u64>, StorageError>)
        requires
            self.deep_view().wf(),
        ensures
            match r {
                Ok(ids) => {
                    &&& self.deep_view().has_pipeline(namespace@, pipeline@)
                    &&& ids@ == open_ids(self.deep_view().shelf(namespace@, pipeline@).runs)
                },
                Err(e) => e is NotFound && !self.deep_view().has_pipeline(namespace@, pipeline@),
            },
    {
        let (at, i) = match self.find_pipeline(namespace, pipeline) {
            Some(place) => place,
            None => {
                return Err(StorageError::NotFound);
            },
        };
        let runs = &self.scopes[at].shelves[i].runs;
        let ghost all = self.deep_view().shelf(namespace@, pipeline@).runs;
        assert(all =~= runs.deep_view());
        let mut ids: Vec<u64> = Vec::new();
        let mut k: usize = 0;
        assert(all.take(0) =~= Seq::<RunView>::empty());
        while k < runs.len()
            invariant
                k <= runs@.len(),
                all == runs.deep_view(),
                ids@ == open_ids(all.take(k as int)),
            decreases runs@.len() - k,
        {
            assert(all.take(k as int + 1).drop_last() =~= all.take(k as int));
            assert(all.take(k as int + 1).last() == runs@[k as int].deep_view());
            if runs[k].state != RunState::Complete {
                ids.push(runs[k].id);
            }
            k += 1;
        }
        assert(all.take(k as int) =~= all);
        Ok(ids)
    }

    /// The run stored under number `id` of a pipeline.
    pub fn get_run(&self, namespace: &str, pipeline: &str, id: u64) -> (r: Result<Run, StorageError>)
        requires
            self.deep_view().wf(),
        ensures
            match r {
                Ok(found) => {
                    &&& self.deep_view().has_run(namespace@, pipeline@, id)
                    &&& found.deep_view() == self.deep_view().run(namespace@, pipeline@, id)
                },
                Err(e) => e is NotFound && !self.deep_view().has_run(namespace@, pipeline@, id),
            },
    {
        let (at, i) = match self.find_pipeline(namespace, pipeline) {
            Some(place) => place,
            None => {
                return Err(StorageError::NotFound);
            },
        };
        match self.scopes[at].shelves[i].find_run(id) {
            Some(k) => Ok(self.scopes[at].shelves[i].runs[k].clone()),
            None => Err(StorageError::NotFound),
        }
    }

    /// Moves a run to `state`. A run never goes back, and a run starts
    /// running only while the pipeline has room for one more running run.
    pub fn update_run_state(&mut self, namespace: &str, pipeline: &str, id: u64, state: RunState) -> (r:
        Result<(), StorageError>)
        requires
            old(self).deep_view().wf(),
        ensures
            final(self).deep_view().wf(),
            match r {
                Ok(()) => {
                    let before = old(self).deep_view();
                    let shelf = before.shelf(namespace@, pipeline@);
                    let k = shelf.run_index(id);
                    &&& before.has_run(namespace@, pipeline@, id)
                    &&& may_write(shelf, shelf.runs[k].state, state)
                    &&& final(self).deep_view() == with_runs(
                        before,
                        namespace@,
                        pipeline@,
                        shelf.last_run_id,
                        shelf.runs.update(k, RunView { state, ..shelf.runs[k] }),
                    )
                },
                Err(e) => {
                    let before = old(self).deep_view();
                    &&& final(self).deep_view() == before
                    &&& if !before.has_run(namespace@, pipeline@, id) {
                        e is NotFound
                    } else {
                        let shelf = before.shelf(namespace@, pipeline@);
                        &&& e is FailedPrecondition
                        &&& !may_write(shelf, shelf.runs[shelf.run_index(id)].state, state)
                    }
                },
            },
    {
        let ghost before = self.deep_view();
        let (at, i) = match self.find_pipeline(namespace, pipeline) {
            Some(place) => place,
            None => {
                return Err(StorageError::NotFound);
            },
        };
        let ghost shelf = before.shelf(namespace@, pipeline@);
        let k = match self.scopes[at].shelves[i].find_run(id) {
            Some(k) => k,
            None => {
                return Err(StorageError::NotFound);
            },
        };
        let from = self.scopes[at].shelves[i].runs[k].state;
        assert(from == shelf.runs[k as int].state);
        if !self.scopes[at].shelves[i].can_write(from, state) {
            return Err(StorageError::FailedPrecondition);
        }
        self.scopes[at].shelves[i].runs[k].state = state;
        proof {
            let written = RunView { state, ..shelf.runs[k as int] };
            let runs = shelf.runs.update(k as int, written);
            let changed = ShelfView { runs, ..shelf };
            lemma_count_update(shelf.runs, k as int, written);
            assert(settled(shelf.runs[k as int]));
            assert(changed.wf());
            assert(self.deep_view().scopes[at as int].shelves[i as int].runs =~= runs);
            self.lemma_shelf_written(before, at as int, i as int, changed);
        }
        Ok(())
    }

    /// Writes `run` over the run stored under its key; the start time stays.
    /// A run never goes back, starts running only while the pipeline has
    /// room for one more running run, and has an outcome only when it is
    /// complete.
    pub fn update_run(&mut self, run: &Run) -> (r: Result<(), StorageError>)
        requires
            old(self).deep_view().wf(),
        ensures
            final(self).deep_view().wf(),
            match r {
                Ok(()) => {
                    let before = old(self).deep_view();
                    let shelf = before.shelf(run.namespace@, run.pipeline@);
                    let k = shelf.run_index(run.id);
                    &&& before.has_run(run.namespace@, run.pipeline@, run.id)
                    &&& may_write(shelf, shelf.runs[k].state, run.state)
                    &&& settled(run.deep_view())
                    &&& final(self).deep_view() == with_runs(
                        before,
                        run.namespace@,
                        run.pipeline@,
                        shelf.last_run_id,
                        shelf.runs.update(k, updated_run(shelf.runs[k], run.deep_view())),
                    )
                },
                Err(e) => {
                    let before = old(self).deep_view();
                    &&& final(self).deep_view() == before
                    &&& if !before.has_run(run.namespace@, run.pipeline@, run.id) {
                        e is NotFound
                    } else {
                        let shelf = before.shelf(run.namespace@, run.pipeline@);
                        &&& e is FailedPrecondition
                        &&& !(may_write(shelf, shelf.runs[shelf.run_index(run.id)].state, run.state)
                            && settled(run.deep_view()))
                    }
                },
            },
    {
        let ghost before = self.deep_view();
        let (at, i) = match self.find_pipeline(run.namespace.as_str(), run.pipeline.as_str()) {
            Some(place) => place,
            None => {
                return Err(StorageError::NotFound);
            },
        };
        let ghost shelf = before.shelf(run.namespace@, run.pipeline@);
        let k = match self.scopes[at].shelves[i].find_run(run.id) {
            Some(k) => k,
            None => {
                return Err(StorageError::NotFound);
            },
        };
        let from = self.scopes[at].shelves[i].runs[k].state;
        assert(from == shelf.runs[k as int].state);
        if !self.scopes[at].shelves[i].can_write(from, run.state) {
            return Err(StorageError::FailedPrecondition);
        }
        if run.status != RunStatus::Unknown && run.state != RunState::Complete {
            return Err(StorageError::FailedPrecondition);
        }
        let mut written = run.clone();
        written.namespace = self.scopes[at].shelves[i].runs[k].namespace.clone();
        written.pipeline = self.scopes[at].shelves[i].runs[k].pipeline.clone();
        written.started = self.scopes[at].shelves[i].runs[k].started;
        self.scopes[at].shelves[i].runs.set(k, written);
        proof {
            let stored = updated_run(shelf.runs[k as int], run.deep_view());
            let runs = shelf.runs.update(k as int, stored);
            let changed = ShelfView { runs, ..shelf };
            lemma_count_update(shelf.runs, k as int, stored);
            assert(changed.wf());
            assert(self.deep_view().scopes[at as int].shelves[i as int].runs =~= runs);
            self.lemma_shelf_written(before, at as int, i as int, changed);
        }
        Ok(())
    }

    /// Removes the run stored under number `id` of a pipeline.
    pub fn delete_run(&mut self, namespace: &str, pipeline: &str, id: u64) -> (r: Result<
        (),
        StorageError,
    >)
        requires
            old(self).deep_view().wf(),
        ensures
            final(self).deep_view().wf(),
            match r {
                Ok(()) => {
                    let before = old(self).deep_view();
                    let shelf = before.shelf(namespace@, pipeline@);
                    &&& before.has_run(namespace@, pipeline@, id)
                    &&& final(self).deep_view() == with_runs(
                        before,
                        namespace@,
                        pipeline@,
                        shelf.last_run_id,
                        shelf.runs.remove(shelf.run_index(id)),
                    )
                },
                Err(e) => {
                    &&& e is NotFound
                    &&& !old(self).deep_view().has_run(namespace@, pipeline@, id)
                    &&& final(self).deep_view() == old(self).deep_view()
                },
            },
    {
        let ghost before = self.deep_view();
        let (at, i) = match self.find_pipeline(namespace, pipeline) {
            Some(place) => place,
            None => {
                return Err(StorageError::NotFound);
            },
        };
        let ghost shelf = before.shelf(namespace@, pipeline@);
        let k = match self.scopes[at].shelves[i].find_run(id) {
            Some(k) => k,
            None => {
                return Err(StorageError::NotFound);
            },
        };
        self.scopes[at].shelves[i].runs.remove(k);
        proof {
            let runs = shelf.runs.remove(k as int);
            let changed = ShelfView { runs, ..shelf };
            lemma_count_remove(shelf.runs, k as int);
            assert forall|a: int, b: int| 0 <= a < b < runs.len() implies (#[trigger] runs[a]).id < (
            #[trigger] runs[b]).id by {
                let x = if a < k { a } else { a + 1 };
                let y = if b < k { b } else { b + 1 };
                assert(shelf.runs[x].id < shelf.runs[y].id);
            }
            assert forall|a: int| 0 <= a < runs.len() implies {
                &&& 1 <= (#[trigger] runs[a]).id <= changed.last_run_id
                &&& runs[a].namespace == changed.pipeline.namespace
                &&& runs[a].pipeline == changed.pipeline.id
                &&& settled(runs[a])
            } by {
                let x = if a < k { a } else { a + 1 };
                assert(settled(shelf.runs[x]));
            }
            assert(changed.wf());
            assert(self.deep_view().scopes[at as int].shelves[i as int].runs =~= runs);
            self.lemma_shelf_written(before, at as int, i as int, changed);
        }
        Ok(())
    }

    /// The run of a pipeline that may start next: runs start in the order
    /// in which they were created, and only while the pipeline has room for
    /// one more running run.
    pub fn next_pending_run(&self, namespace: &str, pipeline: &str) -> (r: Result<
        Option<u64>,
        StorageError,
    >)
        requires
            self.deep_view().wf(),
        ensures
            match r {
                Ok(next) => {
                    &&& self.deep_view().has_pipeline(namespace@, pipeline@)
                    &&& next == next_to_start(self.deep_view().shelf(namespace@, pipeline@))
                },
                Err(e) => e is NotFound && !self.deep_view().has_pipeline(namespace@, pipeline@),
            },
    {
        let (at, i) = match self.find_pipeline(namespace, pipeline) {
            Some(place) => place,
            None => {
                return Err(StorageError::NotFound);
            },
        };
        let shelf = &self.scopes[at].shelves[i];
        let ghost view = shelf.deep_view();
        if shelf.pipeline.parallelism != 0 {
            let count: usize = count_running(&shelf.runs);
            if count as u64 >= shelf.pipeline.parallelism {
                return Ok(None);
            }
        }
        let mut k: usize = 0;
        assert(view.runs.skip(0) =~= view.runs);
        assert(has_room(view));
        while k < shelf.runs.len()
            invariant
                view == shelf.deep_view(),
                self.deep_view().has_pipeline(namespace@, pipeline@),
                view == self.deep_view().shelf(namespace@, pipeline@),
                has_room(view),
                k <= shelf.runs@.len(),
                first_pending(view.runs) == k + first_pending(view.runs.skip(k as int)),
            decreases shelf.runs@.len() - k,
        {
            assert(view.runs.skip(k as int)[0] == view.runs[k as int]);
            assert(view.runs.skip(k as int).drop_first() =~= view.runs.skip(k as int + 1));
            if shelf.runs[k].state == RunState::Pending {
                assert(view.runs[k as int].state == RunState::Pending);
                assert(first_pending(view.runs.skip(k as int)) == 0);
                assert(view.runs[k as int].id == shelf.runs@[k as int].id);
                return Ok(Some(shelf.runs[k].id));
            }
            assert(view.runs[k as int].state != RunState::Pending);
            k += 1;
        }
        Ok(None)
    }

    /// After one pipeline's shelf has been rewritten in place, the store is
    /// the old store with that shelf replaced, and it is in order when the
    /// new shelf is.
    proof fn lemma_shelf_written(&self, before: DbView, at: int, i: int, changed: ShelfView)
        requires
            before.wf(),
            0 <= at < before.scopes.len(),
            0 <= i < before.scopes[at].shelves.len(),
            changed.wf(),
            changed.pipeline == before.scopes[at].shelves[i].pipeline,
            self.deep_view().scopes.len() == before.scopes.len(),
            forall|a: int|
                0 <= a < before.scopes.len() && a != at ==> #[trigger] self.deep_view().scopes[a]
                    == before.scopes[a],
            self.deep_view().scopes[at].namespace == before.scopes[at].namespace,
            self.deep_view().scopes[at].shelves.len() == before.scopes[at].shelves.len(),
            forall|b: int|
                0 <= b < before.scopes[at].shelves.len() && b != i
                    ==> #[trigger] self.deep_view().scopes[at].shelves[b]
                    == before.scopes[at].shelves[b],
            self.deep_view().scopes[at].shelves[i] == changed,
        ensures
            self.deep_view().wf(),
            self.deep_view() == (DbView {
                scopes: before.scopes.update(
                    at,
                    ScopeView {
                        shelves: before.scopes[at].shelves.update(i, changed),
                        ..before.scopes[at]
                    },
                ),
            }),
    {
        let scope = before.scopes[at];
        let grown = ScopeView { shelves: scope.shelves.update(i, changed), ..scope };
        let after = self.deep_view();
        assert(after.scopes[at].shelves =~= grown.shelves);
        assert(after.scopes =~= before.scopes.update(at, grown));
        lemma_wf_after_shelf_change(scope, i, changed);
        lemma_wf_after_scope_change(before, at, grown);
    }
}

/// A listing holds as many runs as there are.
pub proof fn lemma_newest_first_len(runs: Seq<RunView>)
    ensures
        newest_first(runs).len() == runs.len(),
    decreases runs.len(),
{
    if runs.len() > 0 {
        lemma_newest_in_range(runs);
        lemma_newest_first_len(runs.remove(newest(runs)));
    }
}

} // verus!
