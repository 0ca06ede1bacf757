//! The storage engine: namespaces, the pipelines of each namespace and the
//! runs of each pipeline, with the rules that every write must keep.
//!
//! [`Db`] holds the aggregates in memory, in the order in which they are
//! listed. Every operation either applies as a whole or leaves the store as
//! it was, and says in its contract which of the two happened. What a
//! database file adds is durability; the program around this library keeps
//! such a file and maps its failures with [`StorageError::on_insert`] and
//! [`StorageError::on_change`].

pub mod namespaces;
pub mod pipelines;
pub mod runs;

use crate::models::{
    Namespace, NamespaceView, Pipeline, PipelineView, Run, RunState, RunView,
};
use crate::codec::{from_text, Codec};
use crate::models::PipelineState;
use crate::text::{lemma_precedes_irreflexive, owned, precedes, same};
use vstd::prelude::*;

verus! {

/// The most rows that one listing returns.
pub const MAX_ROW_LIMIT: u64 = 200;

/// Why a storage operation failed.
#[derive(Debug, PartialEq, Eq)]
pub enum StorageError {
    /// Nothing is stored under the key.
    NotFound,
    /// Something is stored under the key already.
    Exists,
    /// The write would break a rule of the data model.
    FailedPrecondition,
    /// A stored value could not be read back as its type.
    Parse { value: String, column: String, err: String },
    /// Any other failure of the store behind the engine.
    Unknown(String),
}

/// The error codes of the database file that the engine tells apart.
#[derive(Debug, Clone, Copy, PartialEq, Eq, Structural)]
pub enum SqliteErrors {
    /// A row with the same primary key exists.
    Constraint,
}

impl SqliteErrors {
    /// The code as the database reports it.
    pub open spec fn code(self) -> Seq<char> {
        "1555"@
    }

    /// The code as the database reports it.
    pub fn value(&self) -> (r: String)
        ensures
            r@ == self.code(),
    {
        owned("1555")
    }
}

/// A failure of the database file, as plain values: what kind it is, the
/// code and the message the database gave, and the failure as one line of
/// text.
#[derive(Debug, PartialEq, Eq)]
pub enum BackendFailure {
    /// A query that must return a row returned none.
    RowNotFound,
    /// The database refused a statement.
    Database { code: Option<String>, message: String, text: String },
    /// The connection, the pool, or anything else.
    Other { text: String },
}

impl BackendFailure {
    /// The failure as one line of text; empty for a missing row.
    pub open spec fn text(self) -> Seq<char> {
        match self {
            BackendFailure::RowNotFound => Seq::empty(),
            BackendFailure::Database { text, .. } => text@,
            BackendFailure::Other { text } => text@,
        }
    }
}

impl StorageError {
    /// How a failed insert is reported: a primary-key conflict means that
    /// the entity exists; any other refusal of the database is passed on with
    /// the database's message; every other failure is unknown, without text.
    pub fn on_insert(failure: BackendFailure) -> (r: StorageError)
        ensures
            match failure {
                BackendFailure::Database { code, message, .. } => if code matches Some(c) && c@
                    == SqliteErrors::Constraint.code() {
                    r is Exists
                } else {
                    r matches StorageError::Unknown(m) && m@ == message@
                },
                _ => r matches StorageError::Unknown(m) && m@.len() == 0,
            },
    {
        match failure {
            BackendFailure::Database { code, message, text } => {
                let conflict = match &code {
                    Some(c) => same(c.as_str(), SqliteErrors::Constraint.value().as_str()),
                    None => false,
                };
                if conflict {
                    StorageError::Exists
                } else {
                    StorageError::Unknown(message)
                }
            },
            _ => StorageError::Unknown(String::new()),
        }
    }

    /// How a failed update, delete or lookup is reported: a missing row is
    /// not found; every other failure is unknown, with the failure's text.
    pub fn on_change(failure: BackendFailure) -> (r: StorageError)
        ensures
            match failure {
                BackendFailure::RowNotFound => r is NotFound,
                _ => r matches StorageError::Unknown(m) && m@ == failure.text(),
            },
    {
        match failure {
            BackendFailure::RowNotFound => StorageError::NotFound,
            BackendFailure::Database { code, message, text } => StorageError::Unknown(text),
            BackendFailure::Other { text } => StorageError::Unknown(text),
        }
    }
}

/// Reads the stored text `value` of column `column` as a value of its
/// type. A text that is not the text form of a value is reported, with the
/// text and the column: it is never replaced by a default.
pub fn parse_column<T: Codec>(value: &str, column: &str) -> (r: Result<T, StorageError>)
    ensures
        match r {
            Ok(found) => T::decoded(value@) == Some((found.deep_view(), Seq::<char>::empty())),
            Err(e) => {
                &&& !(T::decoded(value@) matches Some((_, rest)) && rest.len() == 0)
                &&& e matches StorageError::Parse { value: v, column: c, err: _ }
                &&& v@ == value@
                &&& c@ == column@
            },
        },
{
    match from_text::<T>(value) {
        Some(found) => Ok(found),
        None => Err(
            StorageError::Parse {
                value: owned(value),
                column: owned(column),
                err: owned("the text does not stand for a value of the column's type"),
            },
        ),
    }
}

/// Reads the stored name of a pipeline state. A text that names no state
/// is reported, with the text and the column.
pub fn parse_pipeline_state(value: &str) -> (r: Result<PipelineState, StorageError>)
    ensures
        match r {
            Ok(state) => crate::models::pipeline::pipeline_state_of_name(value@) == Ok::<
                PipelineState,
                (),
            >(state),
            Err(e) => {
                &&& crate::models::pipeline::pipeline_state_of_name(value@) is Err
                &&& e matches StorageError::Parse { value: v, column: c, err }
                &&& v@ == value@
                &&& c@ == "state"@
                &&& err@ == "could not parse value into pipeline state enum"@
            },
        },
{
    match PipelineState::from_str(value) {
        Ok(state) => Ok(state),
        Err(_) => Err(
            StorageError::Parse {
                value: owned(value),
                column: owned("state"),
                err: owned("could not parse value into pipeline state enum"),
            },
        ),
    }
}

/// The limit that a listing applies: the one asked for, or the maximum where
/// none or too many rows are asked for.
pub open spec fn effective_limit(limit: u64) -> u64 {
    if limit == 0 || limit > MAX_ROW_LIMIT {
        MAX_ROW_LIMIT
    } else {
        limit
    }
}

/// Decides [`effective_limit`].
pub fn page_limit(limit: u64) -> (r: u64)
    ensures
        r == effective_limit(limit),
        1 <= r <= MAX_ROW_LIMIT,
{
    if limit == 0 || limit > MAX_ROW_LIMIT {
        MAX_ROW_LIMIT
    } else {
        limit
    }
}

/// Where the page that skips `offset` rows starts in a listing of `len` rows.
pub open spec fn page_start(len: nat, offset: u64) -> int {
    if offset <= len {
        offset as int
    } else {
        len as int
    }
}

/// Where the page of at most `limit` rows that skips `offset` rows ends.
pub open spec fn page_end(len: nat, offset: u64, limit: u64) -> int {
    if page_start(len, offset) + limit <= len {
        page_start(len, offset) + limit
    } else {
        len as int
    }
}

/// The rows of `rows` that a listing returns: at most `limit` of them, after
/// the first `offset`.
pub open spec fn page<T>(rows: Seq<T>, offset: u64, limit: u64) -> Seq<T> {
    rows.subrange(page_start(rows.len(), offset), page_end(rows.len(), offset, limit))
}

/// How many of `runs` are running.
pub open spec fn running_count(runs: Seq<RunView>) -> nat
    decreases runs.len(),
{
    if runs.len() == 0 {
        0
    } else {
        running_count(runs.drop_last()) + if runs.last().state == RunState::Running {
            1nat
        } else {
            0nat
        }
    }
}

/// How far a state is on the way from pending to complete.
pub open spec fn progress(state: RunState) -> int {
    match state {
        RunState::Unknown => 0,
        RunState::Pending => 1,
        RunState::Running => 2,
        RunState::Complete => 3,
    }
}

/// A run may go from state `from` to state `to`: a run never goes back, and
/// never to the unknown state. Staying in a state is allowed.
pub open spec fn may_move(from: RunState, to: RunState) -> bool {
    to != RunState::Unknown && progress(from) <= progress(to)
}

/// What every stored run keeps: its state is known, and it has an outcome
/// only when it is complete.
pub open spec fn settled(run: RunView) -> bool {
    &&& run.state != RunState::Unknown
    &&& run.status != crate::models::RunStatus::Unknown ==> run.state == RunState::Complete
}

/// One more running run would not exceed what the pipeline allows.
pub open spec fn has_room(shelf: ShelfView) -> bool {
    shelf.pipeline.parallelism == 0 || running_count(shelf.runs) < shelf.pipeline.parallelism
}

/// A run of `shelf` that is in state `from` may be written in state `to`:
/// the move is allowed, and a run that starts running finds room.
pub open spec fn may_write(shelf: ShelfView, from: RunState, to: RunState) -> bool {
    &&& may_move(from, to)
    &&& (to == RunState::Running && from != RunState::Running) ==> has_room(shelf)
}

/// 1 for a running run, 0 for any other.
pub open spec fn running(run: RunView) -> int {
    if run.state == RunState::Running {
        1
    } else {
        0
    }
}

/// A run added at the end counts if it is running.
pub proof fn lemma_count_push(runs: Seq<RunView>, run: RunView)
    ensures
        running_count(runs.push(run)) == running_count(runs) + running(run),
{
    assert(runs.push(run).drop_last() =~= runs);
}

/// Replacing a run changes the count by what the two runs count.
pub proof fn lemma_count_update(runs: Seq<RunView>, k: int, run: RunView)
    requires
        0 <= k < runs.len(),
    ensures
        running_count(runs.update(k, run)) == running_count(runs) - running(runs[k]) + running(run),
    decreases runs.len(),
{
    let after = runs.update(k, run);
    if k == runs.len() - 1 {
        assert(after.drop_last() =~= runs.drop_last());
    } else {
        lemma_count_update(runs.drop_last(), k, run);
        assert(after.drop_last() =~= runs.drop_last().update(k, run));
    }
}

/// Removing a run takes away what it counted.
pub proof fn lemma_count_remove(runs: Seq<RunView>, k: int)
    requires
        0 <= k < runs.len(),
    ensures
        running_count(runs.remove(k)) == running_count(runs) - running(runs[k]),
    decreases runs.len(),
{
    let after = runs.remove(k);
    if k == runs.len() - 1 {
        assert(after =~= runs.drop_last());
    } else {
        lemma_count_remove(runs.drop_last(), k);
        assert(after.drop_last() =~= runs.drop_last().remove(k));
        assert(after.last() == runs.last());
    }
}

/// Every one of `runs` is complete.
pub open spec fn all_complete(runs: Seq<RunView>) -> bool {
    forall|i: int| 0 <= i < runs.len() ==> (#[trigger] runs[i]).state == RunState::Complete
}

/// Where every run is complete, none is running.
pub proof fn lemma_complete_not_running(runs: Seq<RunView>)
    requires
        all_complete(runs),
    ensures
        running_count(runs) == 0,
    decreases runs.len(),
{
    if runs.len() > 0 {
        assert(runs.last().state == RunState::Complete);
        assert forall|i: int| 0 <= i < runs.drop_last().len() implies (
        #[trigger] runs.drop_last()[i]).state == RunState::Complete by {
            assert(runs[i].state == RunState::Complete);
        }
        lemma_complete_not_running(runs.drop_last());
    }
}

/// Whether run `a` is listed before run `b`: the one that started later, and
/// of two that started together the one with the higher number.
pub open spec fn listed_before(a: RunView, b: RunView) -> bool {
    a.started > b.started || (a.started == b.started && a.id > b.id)
}

/// The place of the run that is listed first among `runs`, which must not be
/// empty.
pub open spec fn newest(runs: Seq<RunView>) -> int
    decreases runs.len(),
{
    if runs.len() <= 1 {
        0
    } else {
        let best = newest(runs.drop_last());
        if listed_before(runs.last(), runs[best]) {
            runs.len() - 1
        } else {
            best
        }
    }
}

/// The newest of some runs is one of them.
pub proof fn lemma_newest_in_range(runs: Seq<RunView>)
    requires
        runs.len() > 0,
    ensures
        0 <= newest(runs) < runs.len(),
    decreases runs.len(),
{
    if runs.len() > 1 {
        lemma_newest_in_range(runs.drop_last());
    }
}

/// `runs` in the order of a listing: the newest first, then the rest in the
/// same way.
pub open spec fn newest_first(runs: Seq<RunView>) -> Seq<RunView>
    decreases runs.len(),
{
    if runs.len() == 0 {
        Seq::empty()
    } else {
        proof {
            lemma_newest_in_range(runs);
        }
        seq![runs[newest(runs)]] + newest_first(runs.remove(newest(runs)))
    }
}

/// The place of the first pending run among `runs`, or their number where
/// none is pending.
pub open spec fn first_pending(runs: Seq<RunView>) -> int
    decreases runs.len(),
{
    if runs.len() == 0 {
        0
    } else if runs[0].state == RunState::Pending {
        0
    } else {
        1 + first_pending(runs.drop_first())
    }
}

/// The run of `shelf` that may start next: the pending run with the lowest
/// number, provided the pipeline has room for one more running run.
pub open spec fn next_to_start(shelf: ShelfView) -> Option<u64> {
    if has_room(shelf) && first_pending(shelf.runs) < shelf.runs.len() {
        Some(shelf.runs[first_pending(shelf.runs)].id)
    } else {
        None
    }
}

/// The first pending run is pending, no run before it is, and so it has the
/// lowest number of the pending runs.
pub proof fn lemma_first_pending(shelf: ShelfView)
    requires
        shelf.wf(),
    ensures
        0 <= first_pending(shelf.runs) <= shelf.runs.len(),
        first_pending(shelf.runs) < shelf.runs.len() ==> shelf.runs[first_pending(
            shelf.runs,
        )].state == RunState::Pending,
        forall|i: int|
            0 <= i < shelf.runs.len() && (#[trigger] shelf.runs[i]).state == RunState::Pending
                ==> first_pending(shelf.runs) <= i && shelf.runs[first_pending(shelf.runs)].id
                <= shelf.runs[i].id,
{
    lemma_first_pending_at(shelf.runs);
    assert forall|i: int|
        0 <= i < shelf.runs.len() && (#[trigger] shelf.runs[i]).state
            == RunState::Pending implies first_pending(shelf.runs) <= i && shelf.runs[first_pending(
        shelf.runs,
    )].id <= shelf.runs[i].id by {
        let k = first_pending(shelf.runs);
        if k < i {
            assert(shelf.runs[k].id < shelf.runs[i].id);
        }
    }
}

proof fn lemma_first_pending_at(runs: Seq<RunView>)
    ensures
        0 <= first_pending(runs) <= runs.len(),
        first_pending(runs) < runs.len() ==> runs[first_pending(runs)].state == RunState::Pending,
        forall|i: int|
            0 <= i < first_pending(runs) ==> (#[trigger] runs[i]).state != RunState::Pending,
    decreases runs.len(),
{
    if runs.len() > 0 && runs[0].state != RunState::Pending {
        let rest = runs.drop_first();
        lemma_first_pending_at(rest);
        assert forall|i: int| 0 <= i < first_pending(runs) implies (#[trigger] runs[i]).state
            != RunState::Pending by {
            if i > 0 {
                assert(rest[i - 1].state != RunState::Pending);
            }
        }
    }
}

/// No run is listed before the newest.
pub proof fn lemma_newest_is_first(runs: Seq<RunView>, k: int)
    requires
        0 <= k < runs.len(),
    ensures
        0 <= newest(runs) < runs.len(),
        !listed_before(runs[k], runs[newest(runs)]),
    decreases runs.len(),
{
    lemma_newest_in_range(runs);
    if runs.len() > 1 {
        let front = runs.drop_last();
        lemma_newest_in_range(front);
        if k < runs.len() - 1 {
            lemma_newest_is_first(front, k);
        }
    }
}

/// A listing holds the runs there are: every run of the listing is one of
/// the runs.
pub proof fn lemma_newest_first_members(runs: Seq<RunView>, i: int)
    requires
        0 <= i < newest_first(runs).len(),
    ensures
        runs.contains(newest_first(runs)[i]),
    decreases runs.len(),
{
    if runs.len() > 0 {
        lemma_newest_in_range(runs);
        let m = newest(runs);
        if i == 0 {
            assert(runs[m] == newest_first(runs)[0]);
        } else {
            let rest = runs.remove(m);
            lemma_newest_first_members(rest, i - 1);
            let x = newest_first(rest)[i - 1];
            let j = choose|j: int| 0 <= j < rest.len() && rest[j] == x;
            if j < m {
                assert(runs[j] == x);
            } else {
                assert(runs[j + 1] == x);
            }
        }
    }
}

/// A listing is in order: no run is listed before a run that comes earlier
/// in the listing. Runs that started later come first, and of runs that
/// started together those with the higher number.
pub proof fn lemma_newest_first_ordered(runs: Seq<RunView>, i: int, j: int)
    requires
        0 <= i < j < newest_first(runs).len(),
    ensures
        !listed_before(newest_first(runs)[j], newest_first(runs)[i]),
    decreases runs.len(),
{
    if runs.len() > 0 {
        lemma_newest_in_range(runs);
        let m = newest(runs);
        let rest = runs.remove(m);
        if i == 0 {
            lemma_newest_first_members(rest, j - 1);
            let x = newest_first(rest)[j - 1];
            let k = choose|k: int| 0 <= k < rest.len() && rest[k] == x;
            let at = if k < m { k } else { k + 1 };
            assert(runs[at] == x);
            lemma_newest_is_first(runs, at);
        } else {
            lemma_newest_first_ordered(rest, i - 1, j - 1);
        }
    }
}

/// A pipeline with its runs.
pub struct ShelfView {
    pub pipeline: PipelineView,
    /// The highest number given to a run of the pipeline so far.
    pub last_run_id: u64,
    /// The runs, by ascending number.
    pub runs: Seq<RunView>,
}

impl ShelfView {
    /// The rules that a pipeline and its runs keep.
    pub open spec fn wf(self) -> bool {
        &&& forall|i: int, j: int|
            0 <= i < j < self.runs.len() ==> (#[trigger] self.runs[i]).id < (
            #[trigger] self.runs[j]).id
        &&& forall|i: int|
            0 <= i < self.runs.len() ==> {
                &&& 1 <= (#[trigger] self.runs[i]).id <= self.last_run_id
                &&& self.runs[i].namespace == self.pipeline.namespace
                &&& self.runs[i].pipeline == self.pipeline.id
                &&& settled(self.runs[i])
            }
        &&& self.pipeline.parallelism == 0 || running_count(self.runs)
            <= self.pipeline.parallelism
    }

    /// Whether the pipeline has a run numbered `id`.
    pub open spec fn has_run(self, id: u64) -> bool {
        exists|i: int| 0 <= i < self.runs.len() && (#[trigger] self.runs[i]).id == id
    }

    /// The place of run `id` among the runs; meaningful when `has_run(id)`.
    pub open spec fn run_index(self, id: u64) -> int {
        choose|i: int| 0 <= i < self.runs.len() && (#[trigger] self.runs[i]).id == id
    }

    /// The pipeline as a reader sees it: with the number and the start time
    /// of its newest run, or zeros when it never ran.
    pub open spec fn shown(self) -> PipelineView {
        if self.runs.len() == 0 {
            PipelineView { last_run_id: 0, last_run_time: 0, ..self.pipeline }
        } else {
            PipelineView {
                last_run_id: self.runs[newest(self.runs)].id,
                last_run_time: self.runs[newest(self.runs)].started,
                ..self.pipeline
            }
        }
    }
}

/// A namespace with its pipelines.
pub struct ScopeView {
    pub namespace: NamespaceView,
    /// The pipelines, ordered by identifier.
    pub shelves: Seq<ShelfView>,
}

impl ScopeView {
    /// The rules that a namespace and its pipelines keep.
    pub open spec fn wf(self) -> bool {
        &&& forall|i: int, j: int|
            0 <= i < j < self.shelves.len() ==> precedes(
                (#[trigger] self.shelves[i]).pipeline.id,
                (#[trigger] self.shelves[j]).pipeline.id,
            )
        &&& forall|i: int|
            0 <= i < self.shelves.len() ==> {
                &&& (#[trigger] self.shelves[i]).pipeline.namespace == self.namespace.id
                &&& self.shelves[i].wf()
            }
    }

    /// Whether the namespace has a pipeline `id`.
    pub open spec fn has_shelf(self, id: Seq<char>) -> bool {
        exists|i: int| 0 <= i < self.shelves.len() && (#[trigger] self.shelves[i]).pipeline.id == id
    }

    /// The place of pipeline `id`; meaningful when `has_shelf(id)`.
    pub open spec fn shelf_index(self, id: Seq<char>) -> int {
        choose|i: int| 0 <= i < self.shelves.len() && (#[trigger] self.shelves[i]).pipeline.id == id
    }

    /// Where a pipeline `id` belongs among the pipelines: after every
    /// pipeline whose identifier comes before `id`.
    pub open spec fn shelf_rank(self, id: Seq<char>) -> int {
        rank(Seq::new(self.shelves.len(), |i: int| self.shelves[i].pipeline.id), id)
    }
}

/// The first place in `keys` whose key does not come before `key`.
pub open spec fn rank(keys: Seq<Seq<char>>, key: Seq<char>) -> int
    decreases keys.len(),
{
    if keys.len() == 0 {
        0
    } else if precedes(keys[0], key) {
        1 + rank(keys.drop_first(), key)
    } else {
        0
    }
}

/// What the store holds.
pub struct DbView {
    /// The namespaces, ordered by identifier.
    pub scopes: Seq<ScopeView>,
}

impl DbView {
    /// The rules that the store keeps: identifiers are unique within their
    /// scope, every listing is ordered, every run belongs to its pipeline and
    /// every pipeline to its namespace, and no pipeline with a limit on
    /// parallel runs has more running runs than the limit.
    pub open spec fn wf(self) -> bool {
        &&& forall|i: int, j: int|
            0 <= i < j < self.scopes.len() ==> precedes(
                (#[trigger] self.scopes[i]).namespace.id,
                (#[trigger] self.scopes[j]).namespace.id,
            )
        &&& forall|i: int| 0 <= i < self.scopes.len() ==> (#[trigger] self.scopes[i]).wf()
    }

    /// Whether a namespace `id` is stored.
    pub open spec fn has_scope(self, id: Seq<char>) -> bool {
        exists|i: int| 0 <= i < self.scopes.len() && (#[trigger] self.scopes[i]).namespace.id == id
    }

    /// The place of namespace `id`; meaningful when `has_scope(id)`.
    pub open spec fn scope_index(self, id: Seq<char>) -> int {
        choose|i: int| 0 <= i < self.scopes.len() && (#[trigger] self.scopes[i]).namespace.id == id
    }

    /// Where a namespace `id` belongs among the namespaces.
    pub open spec fn scope_rank(self, id: Seq<char>) -> int {
        rank(Seq::new(self.scopes.len(), |i: int| self.scopes[i].namespace.id), id)
    }

    /// The stored namespaces, in order.
    pub open spec fn namespaces(self) -> Seq<NamespaceView> {
        Seq::new(self.scopes.len(), |i: int| self.scopes[i].namespace)
    }

    /// Whether pipeline `id` of `namespace` is stored.
    pub open spec fn has_pipeline(self, namespace: Seq<char>, id: Seq<char>) -> bool {
        self.has_scope(namespace) && self.scopes[self.scope_index(namespace)].has_shelf(id)
    }

    /// Pipeline `id` of `namespace` with its runs; meaningful when it is stored.
    pub open spec fn shelf(self, namespace: Seq<char>, id: Seq<char>) -> ShelfView {
        let scope = self.scopes[self.scope_index(namespace)];
        scope.shelves[scope.shelf_index(id)]
    }

    /// The pipelines of `namespace` as a reader sees them, in order; none
    /// when the namespace is not stored.
    pub open spec fn pipelines(self, namespace: Seq<char>) -> Seq<PipelineView> {
        if self.has_scope(namespace) {
            let scope = self.scopes[self.scope_index(namespace)];
            Seq::new(scope.shelves.len(), |i: int| scope.shelves[i].shown())
        } else {
            Seq::empty()
        }
    }

    /// The runs of a pipeline by ascending number; none when the pipeline
    /// is not stored.
    pub open spec fn runs(self, namespace: Seq<char>, pipeline: Seq<char>) -> Seq<RunView> {
        if self.has_pipeline(namespace, pipeline) {
            self.shelf(namespace, pipeline).runs
        } else {
            Seq::empty()
        }
    }

    /// Whether run `id` of a pipeline is stored.
    pub open spec fn has_run(self, namespace: Seq<char>, pipeline: Seq<char>, id: u64) -> bool {
        self.has_pipeline(namespace, pipeline) && self.shelf(namespace, pipeline).has_run(id)
    }

    /// Run `id` of a pipeline; meaningful when it is stored.
    pub open spec fn run(self, namespace: Seq<char>, pipeline: Seq<char>, id: u64) -> RunView {
        let shelf = self.shelf(namespace, pipeline);
        shelf.runs[shelf.run_index(id)]
    }
}

pub(crate) struct Shelf {
    pub(crate) pipeline: Pipeline,
    pub(crate) last_run_id: u64,
    pub(crate) runs: Vec<Run>,
}

impl DeepView for Shelf {
    type V = ShelfView;

    open(crate) spec fn deep_view(&self) -> ShelfView {
        ShelfView {
            pipeline: self.pipeline.deep_view(),
            last_run_id: self.last_run_id,
            runs: self.runs.deep_view(),
        }
    }
}

pub(crate) struct Scope {
    pub(crate) namespace: Namespace,
    pub(crate) shelves: Vec<Shelf>,
}

impl DeepView for Scope {
    type V = ScopeView;

    open(crate) spec fn deep_view(&self) -> ScopeView {
        ScopeView { namespace: self.namespace.deep_view(), shelves: self.shelves.deep_view() }
    }
}

/// The store.
pub struct Db {
    pub(crate) scopes: Vec<Scope>,
}

impl DeepView for Db {
    type V = DbView;

    open(crate) spec fn deep_view(&self) -> DbView {
        DbView { scopes: self.scopes.deep_view() }
    }
}

/// In an ordered store a namespace is found at one place only.
pub proof fn lemma_scope_unique(db: DbView, i: int)
    requires
        db.wf(),
        0 <= i < db.scopes.len(),
    ensures
        db.has_scope(db.scopes[i].namespace.id),
        db.scope_index(db.scopes[i].namespace.id) == i,
{
    let id = db.scopes[i].namespace.id;
    let j = db.scope_index(id);
    lemma_precedes_irreflexive(id);
    if i < j {
        assert(precedes(db.scopes[i].namespace.id, db.scopes[j].namespace.id));
    } else if j < i {
        assert(precedes(db.scopes[j].namespace.id, db.scopes[i].namespace.id));
    }
}

/// In an ordered namespace a pipeline is found at one place only.
pub proof fn lemma_shelf_unique(scope: ScopeView, i: int)
    requires
        scope.wf(),
        0 <= i < scope.shelves.len(),
    ensures
        scope.has_shelf(scope.shelves[i].pipeline.id),
        scope.shelf_index(scope.shelves[i].pipeline.id) == i,
{
    let id = scope.shelves[i].pipeline.id;
    let j = scope.shelf_index(id);
    lemma_precedes_irreflexive(id);
    if i < j {
        assert(precedes(scope.shelves[i].pipeline.id, scope.shelves[j].pipeline.id));
    } else if j < i {
        assert(precedes(scope.shelves[j].pipeline.id, scope.shelves[i].pipeline.id));
    }
}

/// Among the runs of a pipeline a number is found at one place only.
pub proof fn lemma_run_unique(shelf: ShelfView, i: int)
    requires
        shelf.wf(),
        0 <= i < shelf.runs.len(),
    ensures
        shelf.has_run(shelf.runs[i].id),
        shelf.run_index(shelf.runs[i].id) == i,
{
    let id = shelf.runs[i].id;
    let j = shelf.run_index(id);
    if i < j {
        assert(shelf.runs[i].id < shelf.runs[j].id);
    } else if j < i {
        assert(shelf.runs[j].id < shelf.runs[i].id);
    }
}

/// A stored pipeline is a pipeline in order.
pub proof fn lemma_shelf_in_order(db: DbView, namespace: Seq<char>, pipeline: Seq<char>)
    requires
        db.wf(),
        db.has_pipeline(namespace, pipeline),
    ensures
        db.shelf(namespace, pipeline).wf(),
        db.shelf(namespace, pipeline).pipeline.namespace == namespace,
        db.shelf(namespace, pipeline).pipeline.id == pipeline,
{
    let at = db.scope_index(namespace);
    assert(db.scopes[at].wf());
    let i = db.scopes[at].shelf_index(pipeline);
    assert(db.scopes[at].shelves[i].wf());
}

/// At every moment, a pipeline that limits its parallel runs has no more
/// running runs than its limit; a limit of 0 is no limit.
pub proof fn lemma_parallelism_respected(db: DbView, namespace: Seq<char>, pipeline: Seq<char>)
    requires
        db.wf(),
        db.has_pipeline(namespace, pipeline),
    ensures
        db.shelf(namespace, pipeline).pipeline.parallelism == 0 || running_count(
            db.runs(namespace, pipeline),
        ) <= db.shelf(namespace, pipeline).pipeline.parallelism,
{
    lemma_shelf_in_order(db, namespace, pipeline);
}

/// The place where a namespace belongs is a place of the listing or its end.
pub proof fn lemma_rank_in_range(db: DbView, id: Seq<char>)
    ensures
        0 <= db.scope_rank(id) <= db.scopes.len(),
{
    let keys = Seq::new(db.scopes.len(), |i: int| db.scopes[i].namespace.id);
    lemma_rank_bound(keys, id);
}

/// The rank of a key among some keys is a place among them or their end.
pub proof fn lemma_rank_bound(keys: Seq<Seq<char>>, key: Seq<char>)
    ensures
        0 <= rank(keys, key) <= keys.len(),
    decreases keys.len(),
{
    if keys.len() > 0 {
        lemma_rank_bound(keys.drop_first(), key);
    }
}

impl Db {
    /// An empty store.
    pub fn new() -> (r: Db)
        ensures
            r.deep_view().scopes.len() == 0,
            r.deep_view().wf(),
    {
        Db { scopes: Vec::new() }
    }

    /// The place of namespace `id`, if it is stored.
    pub(crate) fn find_scope(&self, id: &str) -> (r: Option<usize>)
        requires
            self.deep_view().wf(),
        ensures
            r is Some <==> self.deep_view().has_scope(id@),
            r matches Some(i) ==> i == self.deep_view().scope_index(id@) && i
                < self.scopes@.len(),
    {
        let mut i: usize = 0;
        while i < self.scopes.len()
            invariant
                i <= self.scopes@.len(),
                self.deep_view().wf(),
                forall|j: int|
                    0 <= j < i ==> (#[trigger] self.deep_view().scopes[j]).namespace.id != id@,
            decreases self.scopes@.len() - i,
        {
            if same(self.scopes[i].namespace.id.as_str(), id) {
                proof {
                    assert(self.deep_view().scopes[i as int].namespace.id == id@);
                    lemma_scope_unique(self.deep_view(), i as int);
                }
                return Some(i);
            }
            assert(self.deep_view().scopes[i as int].namespace.id != id@);
            i += 1;
        }
        None
    }
}

} // verus!
