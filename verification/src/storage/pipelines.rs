//! Pipelines in the store.

use crate::graph::{run_order, runnable};
use crate::models::{Pipeline, PipelineState, PipelineView, Run, RunState};
use crate::storage::{
    all_complete, effective_limit, lemma_shelf_unique, newest, page, page_end, page_limit,
    page_start, rank, Db, DbView, Scope, ScopeView, Shelf, ShelfView, StorageError,
};
use crate::text::{
    lemma_precedes_irreflexive, lemma_precedes_total, lemma_precedes_transitive, less, precedes,
    same,
};
use vstd::prelude::*;

verus! {

/// What an update leaves of the stored pipeline `before` when `given` is
/// written over it: the key and the creation time stay, the rest is taken
/// from `given`.
pub open spec fn updated_pipeline(before: PipelineView, given: PipelineView) -> PipelineView {
    PipelineView { namespace: before.namespace, id: before.id, created: before.created, ..given }
}

/// The store `db` with the pipeline stored under `id` in `namespace`
/// replaced by `pipeline`; the runs stay.
pub open spec fn with_stored_pipeline(
    db: DbView,
    namespace: Seq<char>,
    id: Seq<char>,
    pipeline: PipelineView,
) -> DbView {
    let at = db.scope_index(namespace);
    let scope = db.scopes[at];
    let i = scope.shelf_index(id);
    DbView {
        scopes: db.scopes.update(
            at,
            ScopeView {
                shelves: scope.shelves.update(i, ShelfView { pipeline, ..scope.shelves[i] }),
                ..scope
            },
        ),
    }
}

/// The store `db` with `pipeline` added to its namespace, at its place
/// among the pipelines, without runs.
pub open spec fn with_pipeline(db: DbView, pipeline: PipelineView) -> DbView {
    let at = db.scope_index(pipeline.namespace);
    let scope = db.scopes[at];
    DbView {
        scopes: db.scopes.update(
            at,
            ScopeView {
                shelves: scope.shelves.insert(
                    scope.shelf_rank(pipeline.id),
                    ShelfView { pipeline, last_run_id: 0, runs: Seq::empty() },
                ),
                ..scope
            },
        ),
    }
}

/// The store `db` without the pipeline `id` of `namespace` and its runs.
pub open spec fn without_pipeline(db: DbView, namespace: Seq<char>, id: Seq<char>) -> DbView {
    let at = db.scope_index(namespace);
    let scope = db.scopes[at];
    DbView {
        scopes: db.scopes.update(
            at,
            ScopeView { shelves: scope.shelves.remove(scope.shelf_index(id)), ..scope },
        ),
    }
}

/// Whether a pipeline in state `state` may be stored: a new pipeline must be
/// active, one that was stored before must be in a known state.
pub open spec fn acceptable(state: PipelineState, stored_before: bool) -> bool {
    if stored_before {
        state != PipelineState::Unknown
    } else {
        state == PipelineState::Active
    }
}

/// The place of the newest of `runs`, which must not be empty.
pub(crate) fn newest_index(runs: &Vec<Run>) -> (r: usize)
    requires
        runs@.len() > 0,
    ensures
        r == newest(runs.deep_view()),
        r < runs@.len(),
{
    let ghost all = runs.deep_view();
    let mut best: usize = 0;
    let mut i: usize = 1;
    assert(all.take(1).len() == 1);
    while i < runs.len()
        invariant
            1 <= i <= runs@.len(),
            all == runs.deep_view(),
            best < i,
            best == newest(all.take(i as int)),
        decreases runs@.len() - i,
    {
        let ghost prefix = all.take(i as int + 1);
        assert(prefix.drop_last() =~= all.take(i as int));
        assert(prefix.last() == all[i as int]);
        assert(prefix[best as int] == all[best as int]);
        let a = &runs[i];
        let b = &runs[best];
        if a.started > b.started || (a.started == b.started && a.id > b.id) {
            best = i;
        }
        i += 1;
    }
    assert(all.take(runs@.len() as int) =~= all);
    best
}

impl Shelf {
    /// The pipeline as a reader sees it.
    pub(crate) fn shown(&self) -> (r: Pipeline)
        ensures
            r.deep_view() == self.deep_view().shown(),
    {
        let mut r = self.pipeline.clone();
        if self.runs.len() == 0 {
            r.last_run_id = 0;
            r.last_run_time = 0;
        } else {
            let k: usize = newest_index(&self.runs);
            r.last_run_id = self.runs[k].id;
            r.last_run_time = self.runs[k].started;
        }
        r
    }
}

impl Scope {
    /// The place of pipeline `id`, if the namespace holds it.
    pub(crate) fn find_shelf(&self, id: &str) -> (r: Option<usize>)
        requires
            self.deep_view().wf(),
        ensures
            r is Some <==> self.deep_view().has_shelf(id@),
            r matches Some(i) ==> i == self.deep_view().shelf_index(id@) && i
                < self.shelves@.len(),
    {
        let mut i: usize = 0;
        while i < self.shelves.len()
            invariant
                i <= self.shelves@.len(),
                self.deep_view().wf(),
                forall|j: int|
                    0 <= j < i ==> (#[trigger] self.deep_view().shelves[j]).pipeline.id != id@,
            decreases self.shelves@.len() - i,
        {
            if same(self.shelves[i].pipeline.id.as_str(), id) {
                proof {
                    assert(self.deep_view().shelves[i as int].pipeline.id == id@);
                    lemma_shelf_unique(self.deep_view(), i as int);
                }
                return Some(i);
            }
            assert(self.deep_view().shelves[i as int].pipeline.id != id@);
            i += 1;
        }
        None
    }

    /// Where pipeline `id` belongs among the pipelines, and whether it is
    /// there already.
    pub(crate) fn shelf_place(&self, id: &str) -> (r: (usize, bool))
        requires
            self.deep_view().wf(),
        ensures
            r.0 == self.deep_view().shelf_rank(id@),
            r.0 <= self.shelves@.len(),
            r.1 == self.deep_view().has_shelf(id@),
            forall|j: int|
                0 <= j < r.0 ==> precedes((#[trigger] self.deep_view().shelves[j]).pipeline.id, id@),
            !r.1 ==> forall|j: int|
                r.0 <= j < self.shelves@.len() ==> precedes(
                    id@,
                    (#[trigger] self.deep_view().shelves[j]).pipeline.id,
                ),
    {
        let ghost view = self.deep_view();
        let ghost keys = Seq::new(view.shelves.len(), |i: int| view.shelves[i].pipeline.id);
        let mut i: usize = 0;
        assert(keys.skip(0) =~= keys);
        while i < self.shelves.len() && less(self.shelves[i].pipeline.id.as_str(), id)
            invariant
                i <= self.shelves@.len(),
                view == self.deep_view(),
                view.wf(),
                keys == Seq::new(view.shelves.len(), |i: int| view.shelves[i].pipeline.id),
                rank(keys, id@) == i + rank(keys.skip(i as int), id@),
                forall|j: int| 0 <= j < i ==> precedes((#[trigger] view.shelves[j]).pipeline.id, id@),
            decreases self.shelves@.len() - i,
        {
            assert(keys.skip(i as int)[0] == view.shelves[i as int].pipeline.id);
            assert(keys.skip(i as int).drop_first() =~= keys.skip(i as int + 1));
            i += 1;
        }
        proof {
            if i < self.shelves@.len() {
                assert(keys.skip(i as int)[0] == view.shelves[i as int].pipeline.id);
            }
        }
        let found = i < self.shelves.len() && same(self.shelves[i].pipeline.id.as_str(), id);
        proof {
            if found {
                assert(view.shelves[i as int].pipeline.id == id@);
            } else {
                assert forall|j: int| i <= j < view.shelves.len() implies precedes(
                    id@,
                    (#[trigger] view.shelves[j]).pipeline.id,
                ) by {
                    let at = view.shelves[i as int].pipeline.id;
                    lemma_precedes_total(at, id@);
                    if j > i {
                        assert(precedes(at, view.shelves[j].pipeline.id));
                        lemma_precedes_transitive(id@, at, view.shelves[j].pipeline.id);
                    }
                }
                if view.has_shelf(id@) {
                    let j = view.shelf_index(id@);
                    lemma_precedes_irreflexive(id@);
                    assert(precedes(view.shelves[j].pipeline.id, id@) || precedes(
                        id@,
                        view.shelves[j].pipeline.id,
                    ));
                }
            }
        }
        (i, found)
    }
}

impl Db {
    /// The pipelines of `namespace` as a reader sees them, ordered by
    /// identifier: at most `limit` of them (the maximum where `limit` is 0 or
    /// above it), after the first `offset`. A namespace that is not stored
    /// has no pipelines.
    pub fn list_pipelines(&self, offset: u64, limit: u64, namespace: &str) -> (r: Result<
        Vec<Pipeline>,
        StorageError,
    >)
        requires
            self.deep_view().wf(),
        ensures
            r matches Ok(found) && found.deep_view() == page(
                self.deep_view().pipelines(namespace@),
                offset,
                effective_limit(limit),
            ),
    {
        let limit: u64 = page_limit(limit);
        let mut found: Vec<Pipeline> = Vec::new();
        let ghost all = self.deep_view().pipelines(namespace@);
        match self.find_scope(namespace) {
            None => {
                assert(found.deep_view() =~= page(all, offset, limit));
                Ok(found)
            },
            Some(at) => {
                let scope = &self.scopes[at];
                assert(scope.deep_view() == self.deep_view().scopes[at as int]);
                let len: usize = scope.shelves.len();
                let start: usize = if offset <= len as u64 {
                    offset as usize
                } else {
                    len
                };
                let end: usize = if limit <= (len - start) as u64 {
                    start + limit as usize
                } else {
                    len
                };
                assert(start == page_start(all.len(), offset));
                assert(end == page_end(all.len(), offset, limit));
                let mut i: usize = start;
                while i < end
                    invariant
                        start <= i <= end <= len,
                        len == scope.shelves@.len(),
                        all.len() == len,
                        forall|j: int|
                            0 <= j < len ==> #[trigger] all[j] == scope.deep_view().shelves[j].shown(),
                        found@.len() == i - start,
                        forall|j: int|
                            0 <= j < i - start ==> (#[trigger] found@[j]).deep_view() == all[start
                                + j],
                    decreases end - i,
                {
                    found.push(scope.shelves[i].shown());
                    i += 1;
                }
                assert(found.deep_view() =~= all.subrange(start as int, end as int));
                Ok(found)
            },
        }
    }

    /// Stores a pipeline without runs. The namespace must be stored, the
    /// identifier new in it, the pipeline active and its tasks runnable.
    pub fn create_pipeline(&mut self, pipeline: &Pipeline) -> (r: Result<(), StorageError>)
        requires
            old(self).deep_view().wf(),
        ensures
            final(self).deep_view().wf(),
            match r {
                Ok(()) => {
                    let before = old(self).deep_view();
                    let at = before.scope_index(pipeline.namespace@);
                    let scope = before.scopes[at];
                    &&& before.has_scope(pipeline.namespace@)
                    &&& !scope.has_shelf(pipeline.id@)
                    &&& pipeline.state == PipelineState::Active
                    &&& runnable(pipeline.deep_view().tasks)
                    &&& final(self).deep_view() == with_pipeline(before, pipeline.deep_view())
                },
                Err(e) => {
                    let before = old(self).deep_view();
                    &&& final(self).deep_view() == before
                    &&& if !before.has_scope(pipeline.namespace@) {
                        e is NotFound
                    } else if before.has_pipeline(pipeline.namespace@, pipeline.id@) {
                        e is Exists
                    } else {
                        &&& e is FailedPrecondition
                        &&& !(pipeline.state == PipelineState::Active && runnable(
                            pipeline.deep_view().tasks,
                        ))
                    }
                },
            },
    {
        self.insert_pipeline(pipeline, false)
    }

    /// Puts back a pipeline that was stored before, without runs: as
    /// [`Db::create_pipeline`], but the pipeline may be disabled. Its state
    /// must be known.
    pub fn restore_pipeline(&mut self, pipeline: &Pipeline) -> (r: Result<(), StorageError>)
        requires
            old(self).deep_view().wf(),
        ensures
            final(self).deep_view().wf(),
            match r {
                Ok(()) => {
                    let before = old(self).deep_view();
                    let at = before.scope_index(pipeline.namespace@);
                    let scope = before.scopes[at];
                    &&& before.has_scope(pipeline.namespace@)
                    &&& !scope.has_shelf(pipeline.id@)
                    &&& pipeline.state != PipelineState::Unknown
                    &&& runnable(pipeline.deep_view().tasks)
                    &&& final(self).deep_view() == with_pipeline(before, pipeline.deep_view())
                },
                Err(e) => {
                    let before = old(self).deep_view();
                    &&& final(self).deep_view() == before
                    &&& if !before.has_scope(pipeline.namespace@) {
                        e is NotFound
                    } else if before.has_pipeline(pipeline.namespace@, pipeline.id@) {
                        e is Exists
                    } else {
                        &&& e is FailedPrecondition
                        &&& !(pipeline.state != PipelineState::Unknown && runnable(
                            pipeline.deep_view().tasks,
                        ))
                    }
                },
            },
    {
        self.insert_pipeline(pipeline, true)
    }

    /// Stores a pipeline without runs; `stored_before` says whether the
    /// pipeline may be in any known state, or must be active.
    fn insert_pipeline(&mut self, pipeline: &Pipeline, stored_before: bool) -> (r: Result<
        (),
        StorageError,
    >)
        requires
            old(self).deep_view().wf(),
        ensures
            final(self).deep_view().wf(),
            match r {
                Ok(()) => {
                    let before = old(self).deep_view();
                    let at = before.scope_index(pipeline.namespace@);
                    let scope = before.scopes[at];
                    &&& before.has_scope(pipeline.namespace@)
                    &&& !scope.has_shelf(pipeline.id@)
                    &&& acceptable(pipeline.state, stored_before)
                    &&& runnable(pipeline.deep_view().tasks)
                    &&& final(self).deep_view() == with_pipeline(before, pipeline.deep_view())
                },
                Err(e) => {
                    let before = old(self).deep_view();
                    &&& final(self).deep_view() == before
                    &&& if !before.has_scope(pipeline.namespace@) {
                        e is NotFound
                    } else if before.has_pipeline(pipeline.namespace@, pipeline.id@) {
                        e is Exists
                    } else {
                        &&& e is FailedPrecondition
                        &&& !(acceptable(pipeline.state, stored_before) && runnable(
                            pipeline.deep_view().tasks,
                        ))
                    }
                },
            },
    {
        let ghost before = self.deep_view();
        let at = match self.find_scope(pipeline.namespace.as_str()) {
            Some(at) => at,
            None => {
                return Err(StorageError::NotFound);
            },
        };
        assert(self.scopes@[at as int].deep_view() == before.scopes[at as int]);
        let (place, found) = self.scopes[at].shelf_place(pipeline.id.as_str());
        if found {
            return Err(StorageError::Exists);
        }
        let state_fits = if stored_before {
            pipeline.state != PipelineState::Unknown
        } else {
            pipeline.state == PipelineState::Active
        };
        if !state_fits || run_order(&pipeline.tasks).is_none() {
            return Err(StorageError::FailedPrecondition);
        }
        let shelf = Shelf { pipeline: pipeline.clone(), last_run_id: 0, runs: Vec::new() };
        proof {
            assert(shelf.runs.deep_view() =~= Seq::<crate::models::RunView>::empty());
            assert(crate::storage::running_count(shelf.deep_view().runs) == 0);
        }
        self.scopes[at].shelves.insert(place, shelf);
        proof {
            let scope = before.scopes[at as int];
            let entry = ShelfView {
                pipeline: pipeline.deep_view(),
                last_run_id: 0,
                runs: Seq::empty(),
            };
            let grown = ScopeView { shelves: scope.shelves.insert(place as int, entry), ..scope };
            let after = self.deep_view();
            assert(after.scopes[at as int].shelves =~= grown.shelves);
            assert(after.scopes =~= before.scopes.update(at as int, grown));
            assert forall|a: int, b: int| 0 <= a < b < grown.shelves.len() implies precedes(
                (#[trigger] grown.shelves[a]).pipeline.id,
                (#[trigger] grown.shelves[b]).pipeline.id,
            ) by {
                if a < place && b > place {
                    assert(precedes(scope.shelves[a].pipeline.id, scope.shelves[b - 1].pipeline.id));
                } else if a < place && b < place {
                    assert(precedes(scope.shelves[a].pipeline.id, scope.shelves[b].pipeline.id));
                } else if a > place {
                    assert(precedes(
                        scope.shelves[a - 1].pipeline.id,
                        scope.shelves[b - 1].pipeline.id,
                    ));
                } else if a == place {
                    assert(precedes(pipeline.id@, scope.shelves[b - 1].pipeline.id));
                } else {
                    assert(precedes(scope.shelves[a].pipeline.id, pipeline.id@));
                }
            }
            assert forall|a: int| 0 <= a < grown.shelves.len() implies {
                &&& (#[trigger] grown.shelves[a]).pipeline.namespace == grown.namespace.id
                &&& grown.shelves[a].wf()
            } by {
                if a < place {
                    assert(grown.shelves[a] == scope.shelves[a]);
                } else if a > place {
                    assert(grown.shelves[a] == scope.shelves[a - 1]);
                }
            }
            assert(grown.wf());
            lemma_wf_after_scope_change(before, at as int, grown);
        }
        Ok(())
    }

    /// The pipeline stored under `id` in `namespace`, as a reader sees it.
    pub fn get_pipeline(&self, namespace: &str, id: &str) -> (r: Result<Pipeline, StorageError>)
        requires
            self.deep_view().wf(),
        ensures
            match r {
                Ok(found) => {
                    &&& self.deep_view().has_pipeline(namespace@, id@)
                    &&& found.deep_view() == self.deep_view().shelf(namespace@, id@).shown()
                },
                Err(e) => e is NotFound && !self.deep_view().has_pipeline(namespace@, id@),
            },
    {
        let at = match self.find_scope(namespace) {
            Some(at) => at,
            None => {
                return Err(StorageError::NotFound);
            },
        };
        assert(self.scopes@[at as int].deep_view() == self.deep_view().scopes[at as int]);
        match self.scopes[at].find_shelf(id) {
            Some(i) => Ok(self.scopes[at].shelves[i].shown()),
            None => Err(StorageError::NotFound),
        }
    }

    /// Enables or disables a pipeline. The change is refused while the
    /// newest run of the pipeline is not complete.
    pub fn update_pipeline_state(&mut self, namespace: &str, id: &str, state: PipelineState) -> (r:
        Result<(), StorageError>)
        requires
            old(self).deep_view().wf(),
        ensures
            final(self).deep_view().wf(),
            match r {
                Ok(()) => {
                    let before = old(self).deep_view();
                    let at = before.scope_index(namespace@);
                    let scope = before.scopes[at];
                    let i = scope.shelf_index(id@);
                    let shelf = scope.shelves[i];
                    &&& before.has_pipeline(namespace@, id@)
                    &&& shelf.runs.len() > 0 ==> shelf.runs[newest(shelf.runs)].state
                        == RunState::Complete
                    &&& final(self).deep_view() == with_stored_pipeline(
                        before,
                        namespace@,
                        id@,
                        PipelineView { state, ..shelf.pipeline },
                    )
                },
                Err(e) => {
                    let before = old(self).deep_view();
                    &&& final(self).deep_view() == before
                    &&& if !before.has_pipeline(namespace@, id@) {
                        e is NotFound
                    } else {
                        let shelf = before.shelf(namespace@, id@);
                        &&& e is FailedPrecondition
                        &&& shelf.runs.len() > 0
                        &&& shelf.runs[newest(shelf.runs)].state != RunState::Complete
                    }
                },
            },
    {
        let ghost before = self.deep_view();
        let at = match self.find_scope(namespace) {
            Some(at) => at,
            None => {
                return Err(StorageError::NotFound);
            },
        };
        assert(self.scopes@[at as int].deep_view() == before.scopes[at as int]);
        let i = match self.scopes[at].find_shelf(id) {
            Some(i) => i,
            None => {
                return Err(StorageError::NotFound);
            },
        };
        assert(self.scopes@[at as int].shelves@[i as int].deep_view()
            == before.scopes[at as int].shelves[i as int]);
        if self.scopes[at].shelves[i].runs.len() > 0 {
            let k: usize = newest_index(&self.scopes[at].shelves[i].runs);
            if self.scopes[at].shelves[i].runs[k].state != RunState::Complete {
                return Err(StorageError::FailedPrecondition);
            }
        }
        self.scopes[at].shelves[i].pipeline.state = state;
        proof {
            let scope = before.scopes[at as int];
            let shelf = scope.shelves[i as int];
            let changed = ShelfView { pipeline: PipelineView { state, ..shelf.pipeline }, ..shelf };
            let grown = ScopeView { shelves: scope.shelves.update(i as int, changed), ..scope };
            let after = self.deep_view();
            assert(after.scopes[at as int].shelves =~= grown.shelves);
            assert(after.scopes =~= before.scopes.update(at as int, grown));
            assert(changed.wf());
            lemma_wf_after_shelf_change(scope, i as int, changed);
            lemma_wf_after_scope_change(before, at as int, grown);
        }
        Ok(())
    }

    /// Writes `pipeline` over the pipeline stored under its key: the tasks,
    /// the triggers and the notifiers are replaced as a whole. The update is
    /// refused unless the stored pipeline is disabled, every one of its runs
    /// is complete and the new tasks are runnable.
    pub fn update_pipeline(&mut self, pipeline: &Pipeline) -> (r: Result<(), StorageError>)
        requires
            old(self).deep_view().wf(),
        ensures
            final(self).deep_view().wf(),
            match r {
                Ok(()) => {
                    let before = old(self).deep_view();
                    let at = before.scope_index(pipeline.namespace@);
                    let scope = before.scopes[at];
                    let i = scope.shelf_index(pipeline.id@);
                    let shelf = scope.shelves[i];
                    &&& before.has_pipeline(pipeline.namespace@, pipeline.id@)
                    &&& shelf.pipeline.state == PipelineState::Disabled
                    &&& all_complete(shelf.runs)
                    &&& runnable(pipeline.deep_view().tasks)
                    &&& final(self).deep_view() == with_stored_pipeline(
                        before,
                        pipeline.namespace@,
                        pipeline.id@,
                        updated_pipeline(shelf.pipeline, pipeline.deep_view()),
                    )
                },
                Err(e) => {
                    let before = old(self).deep_view();
                    &&& final(self).deep_view() == before
                    &&& if !before.has_pipeline(pipeline.namespace@, pipeline.id@) {
                        e is NotFound
                    } else {
                        let shelf = before.shelf(pipeline.namespace@, pipeline.id@);
                        &&& e is FailedPrecondition
                        &&& !(shelf.pipeline.state == PipelineState::Disabled && all_complete(
                            shelf.runs,
                        ) && runnable(pipeline.deep_view().tasks))
                    }
                },
            },
    {
        let ghost before = self.deep_view();
        let at = match self.find_scope(pipeline.namespace.as_str()) {
            Some(at) => at,
            None => {
                return Err(StorageError::NotFound);
            },
        };
        assert(self.scopes@[at as int].deep_view() == before.scopes[at as int]);
        let i = match self.scopes[at].find_shelf(pipeline.id.as_str()) {
            Some(i) => i,
            None => {
                return Err(StorageError::NotFound);
            },
        };
        assert(self.scopes@[at as int].shelves@[i as int].deep_view()
            == before.scopes[at as int].shelves[i as int]);
        if self.scopes[at].shelves[i].pipeline.state != PipelineState::Disabled {
            return Err(StorageError::FailedPrecondition);
        }
        if !every_run_complete(&self.scopes[at].shelves[i].runs) {
            return Err(StorageError::FailedPrecondition);
        }
        if run_order(&pipeline.tasks).is_none() {
            return Err(StorageError::FailedPrecondition);
        }
        let mut written = pipeline.clone();
        written.namespace = self.scopes[at].shelves[i].pipeline.namespace.clone();
        written.id = self.scopes[at].shelves[i].pipeline.id.clone();
        written.created = self.scopes[at].shelves[i].pipeline.created;
        self.scopes[at].shelves[i].pipeline = written;
        proof {
            let scope = before.scopes[at as int];
            let shelf = scope.shelves[i as int];
            let changed = ShelfView {
                pipeline: updated_pipeline(shelf.pipeline, pipeline.deep_view()),
                ..shelf
            };
            let grown = ScopeView { shelves: scope.shelves.update(i as int, changed), ..scope };
            let after = self.deep_view();
            assert(after.scopes[at as int].shelves =~= grown.shelves);
            assert(after.scopes =~= before.scopes.update(at as int, grown));
            crate::storage::lemma_complete_not_running(shelf.runs);
            assert(changed.wf());
            lemma_wf_after_shelf_change(scope, i as int, changed);
            lemma_wf_after_scope_change(before, at as int, grown);
        }
        Ok(())
    }

    /// Removes the pipeline stored under `id` in `namespace`, with its runs.
    pub fn delete_pipeline(&mut self, namespace: &str, id: &str) -> (r: Result<(), StorageError>)
        requires
            old(self).deep_view().wf(),
        ensures
            final(self).deep_view().wf(),
            match r {
                Ok(()) => {
                    let before = old(self).deep_view();
                    let at = before.scope_index(namespace@);
                    let scope = before.scopes[at];
                    &&& before.has_pipeline(namespace@, id@)
                    &&& final(self).deep_view() == without_pipeline(before, namespace@, id@)
                },
                Err(e) => {
                    &&& e is NotFound
                    &&& !old(self).deep_view().has_pipeline(namespace@, id@)
                    &&& final(self).deep_view() == old(self).deep_view()
                },
            },
    {
        let ghost before = self.deep_view();
        let at = match self.find_scope(namespace) {
            Some(at) => at,
            None => {
                return Err(StorageError::NotFound);
            },
        };
        assert(self.scopes@[at as int].deep_view() == before.scopes[at as int]);
        let i = match self.scopes[at].find_shelf(id) {
            Some(i) => i,
            None => {
                return Err(StorageError::NotFound);
            },
        };
        self.scopes[at].shelves.remove(i);
        proof {
            let scope = before.scopes[at as int];
            let grown = ScopeView { shelves: scope.shelves.remove(i as int), ..scope };
            let after = self.deep_view();
            assert(after.scopes[at as int].shelves =~= grown.shelves);
            assert(after.scopes =~= before.scopes.update(at as int, grown));
            assert forall|a: int, b: int| 0 <= a < b < grown.shelves.len() implies precedes(
                (#[trigger] grown.shelves[a]).pipeline.id,
                (#[trigger] grown.shelves[b]).pipeline.id,
            ) by {
                let x = if a < i { a } else { a + 1 };
                let y = if b < i { b } else { b + 1 };
                assert(precedes(scope.shelves[x].pipeline.id, scope.shelves[y].pipeline.id));
            }
            assert forall|a: int| 0 <= a < grown.shelves.len() implies {
                &&& (#[trigger] grown.shelves[a]).pipeline.namespace == grown.namespace.id
                &&& grown.shelves[a].wf()
            } by {
                let x = if a < i { a } else { a + 1 };
                assert(scope.shelves[x].wf());
            }
            lemma_wf_after_scope_change(before, at as int, grown);
        }
        Ok(())
    }
}

/// Whether every one of `runs` is complete.
pub(crate) fn every_run_complete(runs: &Vec<Run>) -> (r: bool)
    ensures
        r == all_complete(runs.deep_view()),
{
    let mut i: usize = 0;
    while i < runs.len()
        invariant
            i <= runs@.len(),
            forall|j: int|
                0 <= j < i ==> (#[trigger] runs.deep_view()[j]).state == RunState::Complete,
        decreases runs@.len() - i,
    {
        if runs[i].state != RunState::Complete {
            assert(runs.deep_view()[i as int].state != RunState::Complete);
            return false;
        }
        i += 1;
    }
    true
}

/// A store stays in order when one of its namespaces is replaced by an
/// ordered namespace with the same identifier.
pub proof fn lemma_wf_after_scope_change(db: DbView, at: int, scope: ScopeView)
    requires
        db.wf(),
        0 <= at < db.scopes.len(),
        scope.wf(),
        scope.namespace.id == db.scopes[at].namespace.id,
    ensures
        (DbView { scopes: db.scopes.update(at, scope) }).wf(),
{
    let after = DbView { scopes: db.scopes.update(at, scope) };
    assert forall|a: int, b: int| 0 <= a < b < after.scopes.len() implies precedes(
        (#[trigger] after.scopes[a]).namespace.id,
        (#[trigger] after.scopes[b]).namespace.id,
    ) by {
        assert(precedes(db.scopes[a].namespace.id, db.scopes[b].namespace.id));
    }
    assert forall|a: int| 0 <= a < after.scopes.len() implies (#[trigger] after.scopes[a]).wf() by {
        if a != at {
            assert(db.scopes[a].wf());
        }
    }
}

/// A namespace stays in order when one of its pipelines is replaced by an
/// ordered pipeline with the same key.
pub proof fn lemma_wf_after_shelf_change(scope: ScopeView, i: int, shelf: ShelfView)
    requires
        scope.wf(),
        0 <= i < scope.shelves.len(),
        shelf.wf(),
        shelf.pipeline.id == scope.shelves[i].pipeline.id,
        shelf.pipeline.namespace == scope.shelves[i].pipeline.namespace,
    ensures
        (ScopeView { shelves: scope.shelves.update(i, shelf), ..scope }).wf(),
{
    let after = ScopeView { shelves: scope.shelves.update(i, shelf), ..scope };
    assert forall|a: int, b: int| 0 <= a < b < after.shelves.len() implies precedes(
        (#[trigger] after.shelves[a]).pipeline.id,
        (#[trigger] after.shelves[b]).pipeline.id,
    ) by {
        assert(precedes(scope.shelves[a].pipeline.id, scope.shelves[b].pipeline.id));
    }
    assert forall|a: int| 0 <= a < after.shelves.len() implies {
        &&& (#[trigger] after.shelves[a]).pipeline.namespace == after.namespace.id
        &&& after.shelves[a].wf()
    } by {
        if a != i {
            assert(scope.shelves[a].wf());
        } else {
            assert(scope.shelves[i].pipeline.namespace == scope.namespace.id);
        }
    }
}

} // verus!
