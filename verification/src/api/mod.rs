//! The request-facing layer: argument validation, the operations on
//! namespaces, pipelines and runs, and the mapping of failures to
//! status codes.

pub mod validate;

use crate::api::validate::{identifier, valid_id};
use crate::conf::api::Config;
use crate::models::namespace::NamespaceView;
use crate::models::pipeline::{pipeline_of_config, PipelineView};
use crate::models::run::{fresh_run, RunFailureInfoView, RunView};
use crate::models::{RunFailureInfo, RunFailureReason};
use crate::models::{
    Namespace, Pipeline, PipelineConfig, PipelineState, Run, RunState, RunStatus, RunTriggerInfo,
    Variable,
};
use crate::orchestrator::tracker::StartError;
use crate::storage::{Db, DbView, ScopeView, StorageError};
use crate::text::owned;
use vstd::prelude::*;
use vstd::string::*;

verus! {

/// Why a request was turned away before it reached storage or the scheduler.
#[derive(Debug, PartialEq, Eq)]
pub enum ApiError {
    /// An argument broke a rule; the text says which.
    InvalidArguments(String),
    /// Anything else.
    Unknown(String),
}

/// How a request ended, for the caller.
#[derive(Debug, Clone, Copy, PartialEq, Eq, Structural)]
pub enum StatusCode {
    NotFound,
    AlreadyExists,
    FailedPrecondition,
    InvalidArgument,
    Internal,
}

/// A failed request: the code and a message for the caller.
#[derive(Debug, PartialEq, Eq)]
pub struct Status {
    pub code: StatusCode,
    pub message: String,
}

/// The build that the service runs: its version and the commit it was
/// built from.
#[derive(Debug, Clone, PartialEq, Eq)]
pub struct BuildInfo {
    pub semver: String,
    pub commit: String,
}

/// What the service says of itself.
#[derive(Debug, PartialEq, Eq)]
pub struct SystemInfo {
    pub commit: String,
    pub dev_mode_enabled: bool,
    pub semver: String,
}

/// The code that a storage error is answered with.
pub open spec fn code_of_storage(e: StorageError) -> StatusCode {
    match e {
        StorageError::NotFound => StatusCode::NotFound,
        StorageError::Exists => StatusCode::AlreadyExists,
        StorageError::FailedPrecondition => StatusCode::FailedPrecondition,
        StorageError::Parse { .. } => StatusCode::Internal,
        StorageError::Unknown(_) => StatusCode::Internal,
    }
}

/// The code that a validation error is answered with.
pub open spec fn code_of_api(e: ApiError) -> StatusCode {
    match e {
        ApiError::InvalidArguments(_) => StatusCode::InvalidArgument,
        ApiError::Unknown(_) => StatusCode::Internal,
    }
}

/// The words that a storage error is reported with.
pub open spec fn text_of_storage(e: StorageError) -> Seq<char> {
    match e {
        StorageError::NotFound => "requested entity not found"@,
        StorageError::Exists => "entity already exists"@,
        StorageError::FailedPrecondition => "entity is not in a state that allows the change"@,
        StorageError::Parse { value, column, err } => "could not read stored value; "@ + err@,
        StorageError::Unknown(why) => "unexpected storage error occurred; "@ + why@,
    }
}

/// The message that tells of an entity of kind `what` and identifier `id`
/// that `fate` befell: the kind, ` with id '`, the identifier, `' ` and the
/// fate.
pub open spec fn about(what: Seq<char>, id: Seq<char>, fate: Seq<char>) -> Seq<char> {
    what + " with id '"@ + id + "' "@ + fate
}

impl StorageError {
    /// The error in words.
    pub fn message(&self) -> (r: String)
        ensures
            r@ == text_of_storage(*self),
    {
        match self {
            StorageError::NotFound => owned("requested entity not found"),
            StorageError::Exists => owned("entity already exists"),
            StorageError::FailedPrecondition => owned(
                "entity is not in a state that allows the change",
            ),
            StorageError::Parse { value, column, err } => owned(
                "could not read stored value; ",
            ).concat(err.as_str()),
            StorageError::Unknown(why) => owned("unexpected storage error occurred; ").concat(
                why.as_str(),
            ),
        }
    }
}

impl Status {
    /// The status that answers a storage error about the entity of kind
    /// `what` with identifier `id`: a missing or a duplicate entity is named
    /// in the message; any other error is reported in its own words.
    pub fn of_storage(e: &StorageError, what: &str, id: &str) -> (r: Status)
        ensures
            r.code == code_of_storage(*e),
            r.message@ == (match *e {
                StorageError::NotFound => about(what@, id@, "does not exist"@),
                StorageError::Exists => about(what@, id@, "already exists"@),
                _ => text_of_storage(*e),
            }),
    {
        match e {
            StorageError::NotFound => Status {
                code: StatusCode::NotFound,
                message: owned(what).concat(" with id '").concat(id).concat("' ").concat(
                    "does not exist",
                ),
            },
            StorageError::Exists => Status {
                code: StatusCode::AlreadyExists,
                message: owned(what).concat(" with id '").concat(id).concat("' ").concat(
                    "already exists",
                ),
            },
            StorageError::FailedPrecondition => Status {
                code: StatusCode::FailedPrecondition,
                message: e.message(),
            },
            StorageError::Parse { .. } => Status { code: StatusCode::Internal, message: e.message() },
            StorageError::Unknown(_) => Status { code: StatusCode::Internal, message: e.message() },
        }
    }

    /// The status that answers a validation error: an invalid argument is
    /// the caller's fault, anything else the service's.
    pub fn of_api(e: ApiError) -> (r: Status)
        ensures
            r.code == code_of_api(e),
            r.message@ == (match e {
                ApiError::InvalidArguments(why) => why@,
                ApiError::Unknown(why) => why@,
            }),
    {
        match e {
            ApiError::InvalidArguments(why) => Status {
                code: StatusCode::InvalidArgument,
                message: why,
            },
            ApiError::Unknown(why) => Status { code: StatusCode::Internal, message: why },
        }
    }

    /// The status that answers a run that could not be taken up: a failed
    /// precondition in every case.
    pub fn of_start(e: StartError) -> (r: Status)
        ensures
            r.code == StatusCode::FailedPrecondition,
            r.message@ == (match e {
                StartError::RunNotPending => "the run is not pending"@,
                StartError::NotRunnable => "a task depends on a task that the pipeline does not have, or on itself"@,
            }),
    {
        match e {
            StartError::RunNotPending => Status {
                code: StatusCode::FailedPrecondition,
                message: owned("the run is not pending"),
            },
            StartError::NotRunnable => Status {
                code: StatusCode::FailedPrecondition,
                message: owned(
                    "a task depends on a task that the pipeline does not have, or on itself",
                ),
            },
        }
    }
}

/// The identifier of the namespace that every installation has.
pub open spec fn default_namespace_id() -> Seq<char> {
    "default"@
}

/// The default namespace as it is created at time `now`.
pub open spec fn default_namespace(now: u64) -> NamespaceView {
    NamespaceView {
        id: "default"@,
        name: "Default"@,
        description: "The default namespace when no other namespace is specified."@,
        created: now,
        modified: now,
    }
}

/// The service: its configuration, its build and its store.
pub struct Api {
    conf: Config,
    build: BuildInfo,
    storage: Db,
}

impl Api {
    /// What the service has stored.
    pub closed spec fn store(&self) -> DbView {
        self.storage.deep_view()
    }

    /// The service is in order: its store keeps its rules.
    pub open spec fn wf(&self) -> bool {
        self.store().wf()
    }

    /// Whether the service runs in development mode.
    pub closed spec fn dev_mode(&self) -> bool {
        self.conf.general.dev_mode
    }

    /// The build that the service runs.
    pub closed spec fn build(&self) -> BuildInfo {
        self.build
    }

    /// A service over the store `storage`, which gets the default namespace
    /// unless it has it.
    pub fn with_storage(conf: Config, build: BuildInfo, storage: Db, now: u64) -> (r: Api)
        requires
            storage.deep_view().wf(),
        ensures
            r.wf(),
            r.dev_mode() == conf.general.dev_mode,
            r.build() == build,
            r.store().has_scope(default_namespace_id()),
            if storage.deep_view().has_scope(default_namespace_id()) {
                r.store() == storage.deep_view()
            } else {
                r.store().scopes == storage.deep_view().scopes.insert(
                    storage.deep_view().scope_rank(default_namespace_id()),
                    ScopeView { namespace: default_namespace(now), shelves: Seq::empty() },
                )
            },
    {
        let mut api = Api { conf, build, storage };
        api.create_default_namespace(now);
        api
    }

    /// A service over an empty store, which holds the default namespace
    /// only.
    pub fn new(conf: Config, build: BuildInfo, now: u64) -> (r: Api)
        ensures
            r.wf(),
            r.dev_mode() == conf.general.dev_mode,
            r.build() == build,
            r.store().scopes == seq![
                ScopeView { namespace: default_namespace(now), shelves: Seq::empty() },
            ],
    {
        let r = Api::with_storage(conf, build, Db::new(), now);
        assert(r.store().scopes =~= seq![
            ScopeView { namespace: default_namespace(now), shelves: Seq::empty() },
        ]);
        r
    }

    /// Creates the default namespace unless it is stored.
    fn create_default_namespace(&mut self, now: u64)
        requires
            old(self).wf(),
        ensures
            final(self).wf(),
            final(self).conf == old(self).conf,
            final(self).build == old(self).build,
            final(self).store().has_scope(default_namespace_id()),
            if old(self).store().has_scope(default_namespace_id()) {
                final(self).store() == old(self).store()
            } else {
                final(self).store().scopes == old(self).store().scopes.insert(
                    old(self).store().scope_rank(default_namespace_id()),
                    ScopeView { namespace: default_namespace(now), shelves: Seq::empty() },
                )
            },
    {
        let namespace = Namespace::created_at(
            "default",
            "Default",
            "The default namespace when no other namespace is specified.",
            now,
        );
        let ghost before = self.store();
        match self.storage.create_namespace(&namespace) {
            Ok(()) => {
                proof {
                    let at = before.scope_rank(default_namespace_id());
                    crate::storage::lemma_rank_in_range(before, default_namespace_id());
                    assert(self.store().scopes[at].namespace.id == default_namespace_id());
                }
            },
            Err(_) => {},
        }
    }

    /// What the service says of itself.
    pub fn get_system_info(&self) -> (r: SystemInfo)
        ensures
            r.dev_mode_enabled == self.dev_mode(),
            r.commit@ == self.build().commit@,
            r.semver@ == self.build().semver@,
    {
        SystemInfo {
            commit: self.build.commit.clone(),
            dev_mode_enabled: self.conf.general.dev_mode,
            semver: self.build.semver.clone(),
        }
    }

    /// The store, for reading.
    pub fn storage(&self) -> (r: &Db)
        ensures
            r.deep_view() == self.store(),
    {
        &self.storage
    }

    /// Lists the namespaces.
    pub fn list_namespaces(&self, offset: u64, limit: u64) -> (r: Result<Vec<Namespace>, Status>)
        requires
            self.wf(),
        ensures
            r matches Ok(found) && found.deep_view() == crate::storage::page(
                self.store().namespaces(),
                offset,
                crate::storage::effective_limit(limit),
            ),
    {
        match self.storage.list_namespaces(offset, limit) {
            Ok(found) => Ok(found),
            Err(e) => Err(Status::of_storage(&e, "namespace", "")),
        }
    }

    /// Creates a namespace at time `now`. The identifier must be valid and
    /// new.
    pub fn create_namespace(&mut self, id: &str, name: &str, description: &str, now: u64) -> (r:
        Result<Namespace, Status>)
        requires
            old(self).wf(),
        ensures
            final(self).wf(),
            final(self).dev_mode() == old(self).dev_mode(),
            final(self).build() == old(self).build(),
            match r {
                Ok(created) => {
                    &&& valid_id(id@)
                    &&& !old(self).store().has_scope(id@)
                    &&& created.deep_view() == (NamespaceView {
                        id: id@,
                        name: name@,
                        description: description@,
                        created: now,
                        modified: now,
                    })
                    &&& final(self).store().scopes == old(self).store().scopes.insert(
                        old(self).store().scope_rank(id@),
                        ScopeView { namespace: created.deep_view(), shelves: Seq::empty() },
                    )
                },
                Err(status) => {
                    &&& final(self).store() == old(self).store()
                    &&& if !valid_id(id@) {
                        status.code == StatusCode::InvalidArgument
                    } else {
                        &&& old(self).store().has_scope(id@)
                        &&& status.code == StatusCode::AlreadyExists
                        &&& status.message@ == about("namespace"@, id@, "already exists"@)
                    }
                },
            },
    {
        match identifier(id) {
            Ok(()) => {},
            Err(e) => {
                return Err(Status::of_api(e));
            },
        }
        let namespace = Namespace::created_at(id, name, description, now);
        match self.storage.create_namespace(&namespace) {
            Ok(()) => Ok(namespace),
            Err(e) => Err(Status::of_storage(&e, "namespace", id)),
        }
    }

    /// The namespace `id`.
    pub fn get_namespace(&self, id: &str) -> (r: Result<Namespace, Status>)
        requires
            self.wf(),
        ensures
            match r {
                Ok(found) => {
                    &&& self.store().has_scope(id@)
                    &&& found.deep_view() == self.store().scopes[self.store().scope_index(
                        id@,
                    )].namespace
                },
                Err(status) => {
                    &&& !self.store().has_scope(id@)
                    &&& status.code == StatusCode::NotFound
                    &&& status.message@ == about("namespace"@, id@, "does not exist"@)
                },
            },
    {
        match self.storage.get_namespace(id) {
            Ok(found) => Ok(found),
            Err(e) => Err(Status::of_storage(&e, "namespace", id)),
        }
    }

    /// Gives the namespace `id` a new name and description at time `now`.
    /// The creation time stays.
    pub fn update_namespace(&mut self, id: &str, name: &str, description: &str, now: u64) -> (r:
        Result<(), Status>)
        requires
            old(self).wf(),
        ensures
            final(self).wf(),
            final(self).dev_mode() == old(self).dev_mode(),
            final(self).build() == old(self).build(),
            match r {
                Ok(()) => {
                    let before = old(self).store();
                    let at = before.scope_index(id@);
                    &&& before.has_scope(id@)
                    &&& final(self).store().scopes == before.scopes.update(
                        at,
                        ScopeView {
                            namespace: NamespaceView {
                                name: name@,
                                description: description@,
                                modified: now,
                                ..before.scopes[at].namespace
                            },
                            ..before.scopes[at]
                        },
                    )
                },
                Err(status) => {
                    &&& final(self).store() == old(self).store()
                    &&& !old(self).store().has_scope(id@)
                    &&& status.code == StatusCode::NotFound
                    &&& status.message@ == about("namespace"@, id@, "does not exist"@)
                },
            },
    {
        let namespace = Namespace::created_at(id, name, description, now);
        match self.storage.update_namespace(&namespace) {
            Ok(()) => Ok(()),
            Err(e) => Err(Status::of_storage(&e, "namespace", id)),
        }
    }

    /// Deletes the namespace `id` with everything in it.
    pub fn delete_namespace(&mut self, id: &str) -> (r: Result<(), Status>)
        requires
            old(self).wf(),
        ensures
            final(self).wf(),
            final(self).dev_mode() == old(self).dev_mode(),
            final(self).build() == old(self).build(),
            match r {
                Ok(()) => {
                    &&& old(self).store().has_scope(id@)
                    &&& final(self).store().scopes == old(self).store().scopes.remove(
                        old(self).store().scope_index(id@),
                    )
                },
                Err(status) => {
                    &&& final(self).store() == old(self).store()
                    &&& !old(self).store().has_scope(id@)
                    &&& status.code == StatusCode::NotFound
                    &&& status.message@ == about("namespace"@, id@, "does not exist"@)
                },
            },
    {
        match self.storage.delete_namespace(id) {
            Ok(()) => Ok(()),
            Err(e) => Err(Status::of_storage(&e, "namespace", id)),
        }
    }

    /// Lists the pipelines of a namespace.
    pub fn list_pipelines(&self, namespace: &str, offset: u64, limit: u64) -> (r: Result<
        Vec<Pipeline>,
        Status,
    >)
        requires
            self.wf(),
        ensures
            r matches Ok(found) && found.deep_view() == crate::storage::page(
                self.store().pipelines(namespace@),
                offset,
                crate::storage::effective_limit(limit),
            ),
    {
        match self.storage.list_pipelines(offset, limit, namespace) {
            Ok(found) => Ok(found),
            Err(e) => Err(Status::of_storage(&e, "pipeline", "")),
        }
    }

    /// Creates the pipeline that `config` describes in `namespace` at time
    /// `now`. A request without a configuration is refused, and so is a
    /// configuration whose identifier is not valid.
    pub fn create_pipeline(&mut self, namespace: &str, config: Option<PipelineConfig>, now: u64) -> (r:
        Result<Pipeline, Status>)
        requires
            old(self).wf(),
        ensures
            final(self).wf(),
            final(self).dev_mode() == old(self).dev_mode(),
            final(self).build() == old(self).build(),
            match r {
                Ok(created) => {
                    &&& config matches Some(c)
                    &&& valid_id(c.id@)
                    &&& created.deep_view() == pipeline_of_config(namespace@, c.deep_view(), now, now)
                    &&& old(self).store().has_scope(namespace@)
                    &&& !old(self).store().has_pipeline(namespace@, c.id@)
                    &&& crate::graph::runnable(created.deep_view().tasks)
                    &&& final(self).store() == crate::storage::pipelines::with_pipeline(
                        old(self).store(),
                        created.deep_view(),
                    )
                },
                Err(status) => {
                    &&& final(self).store() == old(self).store()
                    &&& match config {
                        None => status.code == StatusCode::FailedPrecondition,
                        Some(c) => if !valid_id(c.id@) {
                            status.code == StatusCode::InvalidArgument
                        } else if !old(self).store().has_scope(namespace@) {
                            status.code == StatusCode::NotFound
                        } else if old(self).store().has_pipeline(namespace@, c.id@) {
                            status.code == StatusCode::AlreadyExists
                        } else {
                            &&& status.code == StatusCode::FailedPrecondition
                            &&& !crate::graph::runnable(
                                pipeline_of_config(namespace@, c.deep_view(), now, now).tasks,
                            )
                        },
                    }
                },
            },
    {
        let config = match config {
            Some(config) => config,
            None => {
                return Err(
                    Status {
                        code: StatusCode::FailedPrecondition,
                        message: owned("must include valid pipeline config"),
                    },
                );
            },
        };
        match identifier(config.id.as_str()) {
            Ok(()) => {},
            Err(e) => {
                return Err(Status::of_api(e));
            },
        }
        let ghost id = config.id@;
        let ghost before = self.store();
        let pipeline = Pipeline::created_at(owned(namespace), config, now, now);
        match self.storage.create_pipeline(&pipeline) {
            Ok(()) => Ok(pipeline),
            Err(e) => Err(Status::of_storage(&e, "pipeline", pipeline.id.as_str())),
        }
    }

    /// The pipeline `id` of `namespace`.
    pub fn get_pipeline(&self, namespace: &str, id: &str) -> (r: Result<Pipeline, Status>)
        requires
            self.wf(),
        ensures
            match r {
                Ok(found) => {
                    &&& self.store().has_pipeline(namespace@, id@)
                    &&& found.deep_view() == self.store().shelf(namespace@, id@).shown()
                },
                Err(status) => {
                    &&& !self.store().has_pipeline(namespace@, id@)
                    &&& status.code == StatusCode::NotFound
                    &&& status.message@ == about("pipeline"@, id@, "does not exist"@)
                },
            },
    {
        match self.storage.get_pipeline(namespace, id) {
            Ok(found) => Ok(found),
            Err(e) => Err(Status::of_storage(&e, "pipeline", id)),
        }
    }

    /// Deletes the pipeline `id` of `namespace` with its runs.
    pub fn delete_pipeline(&mut self, namespace: &str, id: &str) -> (r: Result<(), Status>)
        requires
            old(self).wf(),
        ensures
            final(self).wf(),
            final(self).dev_mode() == old(self).dev_mode(),
            final(self).build() == old(self).build(),
            match r {
                Ok(()) => {
                    &&& old(self).store().has_pipeline(namespace@, id@)
                    &&& final(self).store() == crate::storage::pipelines::without_pipeline(
                        old(self).store(),
                        namespace@,
                        id@,
                    )
                },
                Err(status) => {
                    &&& final(self).store() == old(self).store()
                    &&& !old(self).store().has_pipeline(namespace@, id@)
                    &&& status.code == StatusCode::NotFound
                    &&& status.message@ == about("pipeline"@, id@, "does not exist"@)
                },
            },
    {
        match self.storage.delete_pipeline(namespace, id) {
            Ok(()) => Ok(()),
            Err(e) => Err(Status::of_storage(&e, "pipeline", id)),
        }
    }

    /// Replaces the pipeline that `config` names in `namespace` by what
    /// `config` describes, at time `now`. The pipeline stays disabled.
    pub fn update_pipeline(&mut self, namespace: &str, config: Option<PipelineConfig>, now: u64) -> (r:
        Result<(), Status>)
        requires
            old(self).wf(),
        ensures
            final(self).wf(),
            final(self).dev_mode() == old(self).dev_mode(),
            final(self).build() == old(self).build(),
            match r {
                Ok(()) => {
                    &&& config matches Some(c)
                    &&& old(self).store().has_pipeline(namespace@, c.id@)
                    &&& old(self).store().shelf(namespace@, c.id@).pipeline.state
                        == PipelineState::Disabled
                    &&& crate::storage::all_complete(old(self).store().shelf(namespace@, c.id@).runs)
                    &&& crate::graph::runnable(
                        pipeline_of_config(namespace@, c.deep_view(), now, now).tasks,
                    )
                    &&& final(self).store() == crate::storage::pipelines::with_stored_pipeline(
                        old(self).store(),
                        namespace@,
                        c.id@,
                        crate::storage::pipelines::updated_pipeline(
                            old(self).store().shelf(namespace@, c.id@).pipeline,
                            PipelineView {
                                state: PipelineState::Disabled,
                                ..pipeline_of_config(namespace@, c.deep_view(), now, now)
                            },
                        ),
                    )
                },
                Err(status) => {
                    &&& final(self).store() == old(self).store()
                    &&& match config {
                        None => status.code == StatusCode::FailedPrecondition,
                        Some(c) => if !old(self).store().has_pipeline(namespace@, c.id@) {
                            status.code == StatusCode::NotFound
                        } else {
                            let shelf = old(self).store().shelf(namespace@, c.id@);
                            &&& status.code == StatusCode::FailedPrecondition
                            &&& !(shelf.pipeline.state == PipelineState::Disabled
                                && crate::storage::all_complete(shelf.runs)
                                && crate::graph::runnable(
                                pipeline_of_config(namespace@, c.deep_view(), now, now).tasks,
                            ))
                        },
                    }
                },
            },
    {
        let config = match config {
            Some(config) => config,
            None => {
                return Err(
                    Status {
                        code: StatusCode::FailedPrecondition,
                        message: owned("must include valid pipeline config"),
                    },
                );
            },
        };
        let mut pipeline = Pipeline::created_at(owned(namespace), config, now, now);
        pipeline.state = PipelineState::Disabled;
        match self.storage.update_pipeline(&pipeline) {
            Ok(()) => Ok(()),
            Err(e) => Err(Status::of_storage(&e, "pipeline", pipeline.id.as_str())),
        }
    }

    /// Enables the pipeline `id` of `namespace`: it accepts runs again.
    pub fn enable_pipeline(&mut self, namespace: &str, id: &str) -> (r: Result<(), Status>)
        requires
            old(self).wf(),
        ensures
            final(self).wf(),
            final(self).dev_mode() == old(self).dev_mode(),
            final(self).build() == old(self).build(),
            match r {
                Ok(()) => {
                    let shelf = old(self).store().shelf(namespace@, id@);
                    &&& old(self).store().has_pipeline(namespace@, id@)
                    &&& shelf.runs.len() > 0 ==> shelf.runs[crate::storage::newest(
                        shelf.runs,
                    )].state == RunState::Complete
                    &&& final(self).store() == crate::storage::pipelines::with_stored_pipeline(
                        old(self).store(),
                        namespace@,
                        id@,
                        PipelineView { state: PipelineState::Active, ..shelf.pipeline },
                    )
                },
                Err(status) => {
                    &&& final(self).store() == old(self).store()
                    &&& if !old(self).store().has_pipeline(namespace@, id@) {
                        status.code == StatusCode::NotFound
                    } else {
                        let shelf = old(self).store().shelf(namespace@, id@);
                        &&& status.code == StatusCode::FailedPrecondition
                        &&& shelf.runs.len() > 0
                        &&& shelf.runs[crate::storage::newest(shelf.runs)].state
                            != RunState::Complete
                    }
                },
            },
    {
        match self.storage.update_pipeline_state(namespace, id, PipelineState::Active) {
            Ok(()) => Ok(()),
            Err(e) => Err(Status::of_storage(&e, "pipeline", id)),
        }
    }

    /// Disables the pipeline `id` of `namespace`: it accepts no run.
    pub fn disable_pipeline(&mut self, namespace: &str, id: &str) -> (r: Result<(), Status>)
        requires
            old(self).wf(),
        ensures
            final(self).wf(),
            final(self).dev_mode() == old(self).dev_mode(),
            final(self).build() == old(self).build(),
            match r {
                Ok(()) => {
                    let shelf = old(self).store().shelf(namespace@, id@);
                    &&& old(self).store().has_pipeline(namespace@, id@)
                    &&& shelf.runs.len() > 0 ==> shelf.runs[crate::storage::newest(
                        shelf.runs,
                    )].state == RunState::Complete
                    &&& final(self).store() == crate::storage::pipelines::with_stored_pipeline(
                        old(self).store(),
                        namespace@,
                        id@,
                        PipelineView { state: PipelineState::Disabled, ..shelf.pipeline },
                    )
                },
                Err(status) => {
                    &&& final(self).store() == old(self).store()
                    &&& if !old(self).store().has_pipeline(namespace@, id@) {
                        status.code == StatusCode::NotFound
                    } else {
                        let shelf = old(self).store().shelf(namespace@, id@);
                        &&& status.code == StatusCode::FailedPrecondition
                        &&& shelf.runs.len() > 0
                        &&& shelf.runs[crate::storage::newest(shelf.runs)].state
                            != RunState::Complete
                    }
                },
            },
    {
        match self.storage.update_pipeline_state(namespace, id, PipelineState::Disabled) {
            Ok(()) => Ok(()),
            Err(e) => Err(Status::of_storage(&e, "pipeline", id)),
        }
    }

    /// Lists the runs of a pipeline, the newest first.
    pub fn list_runs(&self, namespace: &str, pipeline: &str, offset: u64, limit: u64) -> (r: Result<
        Vec<Run>,
        Status,
    >)
        requires
            self.wf(),
        ensures
            r matches Ok(found) && found.deep_view() == crate::storage::page(
                crate::storage::newest_first(self.store().runs(namespace@, pipeline@)),
                offset,
                crate::storage::effective_limit(limit),
            ),
    {
        match self.storage.list_runs(offset, limit, namespace, pipeline) {
            Ok(found) => Ok(found),
            Err(e) => Err(Status::of_storage(&e, "run", "")),
        }
    }

    /// The run `id` of a pipeline.
    pub fn get_run(&self, namespace: &str, pipeline: &str, id: u64) -> (r: Result<Run, Status>)
        requires
            self.wf(),
        ensures
            match r {
                Ok(found) => {
                    &&& self.store().has_run(namespace@, pipeline@, id)
                    &&& found.deep_view() == self.store().run(namespace@, pipeline@, id)
                },
                Err(status) => {
                    &&& !self.store().has_run(namespace@, pipeline@, id)
                    &&& status.code == StatusCode::NotFound
                },
            },
    {
        match self.storage.get_run(namespace, pipeline, id) {
            Ok(found) => Ok(found),
            Err(e) => Err(Status::of_storage(&e, "run", crate::text::decimal(id).as_str())),
        }
    }

    /// Records a run of a pipeline that `trigger` asks for at time `now`
    /// with the variables `variables`, and returns its number. The run is
    /// pending: it starts when its turn has come.
    pub fn start_run(
        &mut self,
        namespace: &str,
        pipeline: &str,
        trigger: RunTriggerInfo,
        variables: Vec<Variable>,
        now: u64,
    ) -> (r: Result<u64, Status>)
        requires
            old(self).wf(),
        ensures
            final(self).wf(),
            final(self).dev_mode() == old(self).dev_mode(),
            final(self).build() == old(self).build(),
            match r {
                Ok(id) => {
                    let shelf = old(self).store().shelf(namespace@, pipeline@);
                    &&& old(self).store().has_pipeline(namespace@, pipeline@)
                    &&& shelf.pipeline.state == PipelineState::Active
                    &&& id == shelf.last_run_id + 1
                    &&& final(self).store() == crate::storage::runs::with_runs(
                        old(self).store(),
                        namespace@,
                        pipeline@,
                        id,
                        shelf.runs.push(
                            crate::storage::runs::numbered(
                                fresh_run(
                                    namespace@,
                                    pipeline@,
                                    trigger.deep_view(),
                                    variables.deep_view(),
                                    now,
                                ),
                                id,
                            ),
                        ),
                    )
                },
                Err(status) => {
                    &&& final(self).store() == old(self).store()
                    &&& if !old(self).store().has_pipeline(namespace@, pipeline@) {
                        status.code == StatusCode::NotFound
                    } else {
                        let shelf = old(self).store().shelf(namespace@, pipeline@);
                        &&& status.code == StatusCode::FailedPrecondition
                        &&& shelf.pipeline.state != PipelineState::Active || shelf.last_run_id
                            == u64::MAX
                    }
                },
            },
    {
        let run = Run::started_at(namespace, pipeline, trigger, variables, now);
        match self.storage.create_run(&run) {
            Ok(id) => Ok(id),
            Err(e) => Err(Status::of_storage(&e, "pipeline", pipeline)),
        }
    }

    /// Records a new run of a pipeline with the trigger and the variables of
    /// its run `id`, at time `now`, and returns the number of the new run.
    pub fn retry_run(&mut self, namespace: &str, pipeline: &str, id: u64, now: u64) -> (r: Result<
        u64,
        Status,
    >)
        requires
            old(self).wf(),
        ensures
            final(self).wf(),
            final(self).dev_mode() == old(self).dev_mode(),
            final(self).build() == old(self).build(),
            match r {
                Ok(new_id) => {
                    let shelf = old(self).store().shelf(namespace@, pipeline@);
                    let prior = old(self).store().run(namespace@, pipeline@, id);
                    &&& old(self).store().has_run(namespace@, pipeline@, id)
                    &&& shelf.pipeline.state == PipelineState::Active
                    &&& new_id == shelf.last_run_id + 1
                    &&& final(self).store() == crate::storage::runs::with_runs(
                        old(self).store(),
                        namespace@,
                        pipeline@,
                        new_id,
                        shelf.runs.push(
                            crate::storage::runs::numbered(
                                fresh_run(
                                    namespace@,
                                    pipeline@,
                                    prior.trigger,
                                    prior.variables,
                                    now,
                                ),
                                new_id,
                            ),
                        ),
                    )
                },
                Err(status) => {
                    &&& final(self).store() == old(self).store()
                    &&& if !old(self).store().has_run(namespace@, pipeline@, id) {
                        status.code == StatusCode::NotFound
                    } else {
                        let shelf = old(self).store().shelf(namespace@, pipeline@);
                        &&& status.code == StatusCode::FailedPrecondition
                        &&& shelf.pipeline.state != PipelineState::Active || shelf.last_run_id
                            == u64::MAX
                    }
                },
            },
    {
        let prior = match self.storage.get_run(namespace, pipeline, id) {
            Ok(prior) => prior,
            Err(e) => {
                return Err(Status::of_storage(&e, "run", crate::text::decimal(id).as_str()));
            },
        };
        let run = Run::started_at(namespace, pipeline, prior.trigger, prior.variables, now);
        match self.storage.create_run(&run) {
            Ok(new_id) => Ok(new_id),
            Err(e) => Err(Status::of_storage(&e, "pipeline", pipeline)),
        }
    }

    /// Writes down how a run stands, as the tracker of the run reports it.
    pub fn update_run(&mut self, run: &Run) -> (r: Result<(), Status>)
        requires
            old(self).wf(),
        ensures
            final(self).wf(),
            final(self).dev_mode() == old(self).dev_mode(),
            final(self).build() == old(self).build(),
            match r {
                Ok(()) => {
                    let shelf = old(self).store().shelf(run.namespace@, run.pipeline@);
                    let k = shelf.run_index(run.id);
                    &&& old(self).store().has_run(run.namespace@, run.pipeline@, run.id)
                    &&& crate::storage::may_write(shelf, shelf.runs[k].state, run.state)
                    &&& crate::storage::settled(run.deep_view())
                    &&& final(self).store() == crate::storage::runs::with_runs(
                        old(self).store(),
                        run.namespace@,
                        run.pipeline@,
                        shelf.last_run_id,
                        shelf.runs.update(
                            k,
                            crate::storage::runs::updated_run(shelf.runs[k], run.deep_view()),
                        ),
                    )
                },
                Err(status) => {
                    &&& final(self).store() == old(self).store()
                    &&& if !old(self).store().has_run(run.namespace@, run.pipeline@, run.id) {
                        status.code == StatusCode::NotFound
                    } else {
                        let shelf = old(self).store().shelf(run.namespace@, run.pipeline@);
                        &&& status.code == StatusCode::FailedPrecondition
                        &&& !(crate::storage::may_write(
                            shelf,
                            shelf.runs[shelf.run_index(run.id)].state,
                            run.state,
                        ) && crate::storage::settled(run.deep_view()))
                    }
                },
            },
    {
        match self.storage.update_run(run) {
            Ok(()) => Ok(()),
            Err(e) => Err(Status::of_storage(&e, "run", crate::text::decimal(run.id).as_str())),
        }
    }

    /// The numbers of the runs of a pipeline that are not complete, the
    /// lowest first.
    pub fn open_runs(&self, namespace: &str, pipeline: &str) -> (r: Result<Vec<u64>, Status>)
        requires
            self.wf(),
        ensures
            match r {
                Ok(ids) => {
                    &&& self.store().has_pipeline(namespace@, pipeline@)
                    &&& ids@ == crate::storage::runs::open_ids(
                        self.store().shelf(namespace@, pipeline@).runs,
                    )
                },
                Err(status) => {
                    &&& !self.store().has_pipeline(namespace@, pipeline@)
                    &&& status.code == StatusCode::NotFound
                },
            },
    {
        match self.storage.open_runs(namespace, pipeline) {
            Ok(ids) => Ok(ids),
            Err(e) => Err(Status::of_storage(&e, "pipeline", pipeline)),
        }
    }

    /// The run of a pipeline whose turn it is to start, if there is one and
    /// the pipeline has room for it.
    pub fn next_pending_run(&self, namespace: &str, pipeline: &str) -> (r: Result<
        Option<u64>,
        Status,
    >)
        requires
            self.wf(),
        ensures
            match r {
                Ok(next) => {
                    &&& self.store().has_pipeline(namespace@, pipeline@)
                    &&& next == crate::storage::next_to_start(
                        self.store().shelf(namespace@, pipeline@),
                    )
                },
                Err(status) => {
                    &&& !self.store().has_pipeline(namespace@, pipeline@)
                    &&& status.code == StatusCode::NotFound
                },
            },
    {
        match self.storage.next_pending_run(namespace, pipeline) {
            Ok(next) => Ok(next),
            Err(e) => Err(Status::of_storage(&e, "pipeline", pipeline)),
        }
    }

    /// The runs of a pipeline with the numbers `ids`, in the order of `ids`.
    /// The request fails as a whole where one of the runs is not stored.
    pub fn batch_get_runs(&self, namespace: &str, pipeline: &str, ids: &Vec<u64>) -> (r: Result<
        Vec<Run>,
        Status,
    >)
        requires
            self.wf(),
        ensures
            match r {
                Ok(found) => {
                    &&& found@.len() == ids@.len()
                    &&& forall|i: int|
                        0 <= i < ids@.len() ==> self.store().has_run(namespace@, pipeline@, ids@[i])
                            && (#[trigger] found@[i]).deep_view() == self.store().run(
                            namespace@,
                            pipeline@,
                            ids@[i],
                        )
                },
                Err(status) => {
                    &&& status.code == StatusCode::NotFound
                    &&& exists|i: int|
                        0 <= i < ids@.len() && !self.store().has_run(
                            namespace@,
                            pipeline@,
                            #[trigger] ids@[i],
                        )
                },
            },
    {
        let mut found: Vec<Run> = Vec::new();
        let mut i: usize = 0;
        while i < ids.len()
            invariant
                self.wf(),
                i <= ids@.len(),
                found@.len() == i,
                forall|j: int|
                    0 <= j < i ==> self.store().has_run(namespace@, pipeline@, ids@[j]) && (
                    #[trigger] found@[j]).deep_view() == self.store().run(
                        namespace@,
                        pipeline@,
                        ids@[j],
                    ),
            decreases ids@.len() - i,
        {
            match self.get_run(namespace, pipeline, ids[i]) {
                Ok(run) => {
                    found.push(run);
                },
                Err(status) => {
                    return Err(status);
                },
            }
            i += 1;
        }
        Ok(found)
    }

    /// Cancels a run that waits for its turn: the run is written up as
    /// complete and cancelled at time `now`, by the user where `by` names the
    /// user and by the administrator otherwise. A run that is complete is
    /// left as it is. A run that is running is not cancelled here: its
    /// tracker must be told.
    pub fn cancel_pending_run(
        &mut self,
        namespace: &str,
        pipeline: &str,
        id: u64,
        by: RunFailureReason,
        now: u64,
    ) -> (r: Result<(), Status>)
        requires
            old(self).wf(),
        ensures
            final(self).wf(),
            final(self).dev_mode() == old(self).dev_mode(),
            final(self).build() == old(self).build(),
            match r {
                Ok(()) => {
                    let shelf = old(self).store().shelf(namespace@, pipeline@);
                    let k = shelf.run_index(id);
                    &&& old(self).store().has_run(namespace@, pipeline@, id)
                    &&& shelf.runs[k].state != RunState::Running
                    &&& final(self).store() == (if shelf.runs[k].state == RunState::Pending {
                        crate::storage::runs::with_runs(
                            old(self).store(),
                            namespace@,
                            pipeline@,
                            shelf.last_run_id,
                            shelf.runs.update(k, cancelled_run(shelf.runs[k], by, now)),
                        )
                    } else {
                        old(self).store()
                    })
                },
                Err(status) => {
                    &&& final(self).store() == old(self).store()
                    &&& if !old(self).store().has_run(namespace@, pipeline@, id) {
                        status.code == StatusCode::NotFound
                    } else {
                        &&& status.code == StatusCode::FailedPrecondition
                        &&& old(self).store().run(namespace@, pipeline@, id).state
                            == RunState::Running
                    }
                },
            },
    {
        let mut run = match self.storage.get_run(namespace, pipeline, id) {
            Ok(run) => run,
            Err(e) => {
                return Err(Status::of_storage(&e, "run", crate::text::decimal(id).as_str()));
            },
        };
        proof {
            crate::storage::lemma_shelf_in_order(self.store(), namespace@, pipeline@);
            let shelf = self.store().shelf(namespace@, pipeline@);
            assert(crate::storage::settled(shelf.runs[shelf.run_index(id)]));
        }
        match run.state {
            RunState::Running => Err(
                Status {
                    code: StatusCode::FailedPrecondition,
                    message: owned("the run is running; its tracker must be told"),
                },
            ),
            RunState::Pending => {
                let ghost before = run.deep_view();
                run.state = RunState::Complete;
                run.status = RunStatus::Cancelled;
                run.ended = if now < run.started {
                    run.started
                } else {
                    now
                };
                run.failure_info = Some(
                    RunFailureInfo {
                        reason: if by == RunFailureReason::UserCancelled {
                            RunFailureReason::UserCancelled
                        } else {
                            RunFailureReason::AdminCancelled
                        },
                        description: owned("the run was cancelled before it started"),
                    },
                );
                assert(run.deep_view() == cancelled_run(before, by, now));
                match self.storage.update_run(&run) {
                    Ok(()) => Ok(()),
                    Err(e) => Err(Status::of_storage(&e, "run", crate::text::decimal(id).as_str())),
                }
            },
            _ => Ok(()),
        }
    }
}

/// The pending run `run` written up as cancelled at time `now`.
pub open spec fn cancelled_run(run: RunView, by: RunFailureReason, now: u64) -> RunView {
    RunView {
        state: RunState::Complete,
        status: RunStatus::Cancelled,
        ended: if now < run.started {
            run.started
        } else {
            now
        },
        failure_info: Some(
            RunFailureInfoView {
                reason: crate::orchestrator::tracker::canceller(by),
                description: "the run was cancelled before it started"@,
            },
        ),
        ..run
    }
}

} // verus!
