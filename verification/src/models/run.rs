//! Runs: one execution of a pipeline.

use crate::models::{epoch, Variable, VariableView};
use crate::text::{lowercase, lowercase_of, owned, same};
use vstd::prelude::*;

verus! {

/// How far a run has come on its way to completion.
#[derive(Debug, Clone, Copy, PartialEq, Eq, Structural)]
pub enum RunState {
    /// The state could not be determined.
    Unknown,
    /// The run is recorded and has not been handed to the scheduler.
    Pending,
    /// The run is being executed.
    Running,
    /// Every task has been resolved; the run is over.
    Complete,
}

impl DeepView for RunState {
    type V = RunState;

    open spec fn deep_view(&self) -> RunState {
        *self
    }
}

/// The run state that a lowercase word names.
pub open spec fn run_state_of_word(word: Seq<char>) -> Result<RunState, ()> {
    if word == "unknown"@ {
        Ok(RunState::Unknown)
    } else if word == "pending"@ {
        Ok(RunState::Pending)
    } else if word == "running"@ {
        Ok(RunState::Running)
    } else if word == "complete"@ {
        Ok(RunState::Complete)
    } else {
        Err(())
    }
}

impl RunState {
    /// The number that stands for this run state on the wire.
    pub open spec fn code(self) -> i32 {
        match self {
            RunState::Unknown => 0,
            RunState::Pending => 1,
            RunState::Running => 2,
            RunState::Complete => 3,
        }
    }

    /// The run state that a wire number stands for.
    pub open spec fn of_code(code: i32) -> Option<RunState> {
        if code == 0 {
            Some(RunState::Unknown)
        } else if code == 1 {
            Some(RunState::Pending)
        } else if code == 2 {
            Some(RunState::Running)
        } else if code == 3 {
            Some(RunState::Complete)
        } else {
            None
        }
    }

    /// Encodes the run state for the wire.
    pub fn to_i32(&self) -> (r: i32)
        ensures
            r == self.code(),
            RunState::of_code(r) == Some(*self),
    {
        match self {
            RunState::Unknown => 0,
            RunState::Pending => 1,
            RunState::Running => 2,
            RunState::Complete => 3,
        }
    }

    /// Decodes a wire number; a number that stands for no run state is refused.
    pub fn from_i32(code: i32) -> (r: Option<RunState>)
        ensures
            r == RunState::of_code(code),
            r matches Some(v) ==> v.code() == code,
    {
        if code == 0 {
            Some(RunState::Unknown)
        } else if code == 1 {
            Some(RunState::Pending)
        } else if code == 2 {
            Some(RunState::Running)
        } else if code == 3 {
            Some(RunState::Complete)
        } else {
            None
        }
    }

    /// The name of this run state.
    pub open spec fn name(self) -> Seq<char> {
        match self {
            RunState::Unknown => "Unknown"@,
            RunState::Pending => "Pending"@,
            RunState::Running => "Running"@,
            RunState::Complete => "Complete"@,
        }
    }

    /// The name of this run state, as text.
    pub fn to_string(&self) -> (r: String)
        ensures
            r@ == self.name(),
    {
        match self {
            RunState::Unknown => owned("Unknown"),
            RunState::Pending => owned("Pending"),
            RunState::Running => owned("Running"),
            RunState::Complete => owned("Complete"),
        }
    }

    /// Reads a run state from a word that is already in lowercase.
    pub fn from_lowercase(word: &str) -> (r: Result<RunState, ()>)
        ensures
            r == run_state_of_word(word@),
    {
        if same(word, "unknown") {
            Ok(RunState::Unknown)
        } else if same(word, "pending") {
            Ok(RunState::Pending)
        } else if same(word, "running") {
            Ok(RunState::Running)
        } else if same(word, "complete") {
            Ok(RunState::Complete)
        } else {
            Err(())
        }
    }

    /// Reads a run state from its name, whatever the case of its letters.
    pub fn from_str(input: &str) -> (r: Result<RunState, ()>)
        ensures
            r == run_state_of_word(lowercase_of(input@)),
    {
        let word = lowercase(input);
        RunState::from_lowercase(word.as_str())
    }
}

/// How a run ended. `Unknown` until the run is complete.
#[derive(Debug, Clone, Copy, PartialEq, Eq, Structural)]
pub enum RunStatus {
    /// The run is not over, or its outcome could not be determined.
    Unknown,
    /// Every task ended without failure.
    Successful,
    /// At least one task failed.
    Failed,
    /// At least one task was cancelled.
    Cancelled,
}

impl DeepView for RunStatus {
    type V = RunStatus;

    open spec fn deep_view(&self) -> RunStatus {
        *self
    }
}

/// The run status that a lowercase word names.
pub open spec fn run_status_of_word(word: Seq<char>) -> Result<RunStatus, ()> {
    if word == "unknown"@ {
        Ok(RunStatus::Unknown)
    } else if word == "successful"@ {
        Ok(RunStatus::Successful)
    } else if word == "failed"@ {
        Ok(RunStatus::Failed)
    } else if word == "cancelled"@ {
        Ok(RunStatus::Cancelled)
    } else {
        Err(())
    }
}

impl RunStatus {
    /// The number that stands for this run status on the wire.
    pub open spec fn code(self) -> i32 {
        match self {
            RunStatus::Unknown => 0,
            RunStatus::Successful => 1,
            RunStatus::Failed => 2,
            RunStatus::Cancelled => 3,
        }
    }

    /// The run status that a wire number stands for.
    pub open spec fn of_code(code: i32) -> Option<RunStatus> {
        if code == 0 {
            Some(RunStatus::Unknown)
        } else if code == 1 {
            Some(RunStatus::Successful)
        } else if code == 2 {
            Some(RunStatus::Failed)
        } else if code == 3 {
            Some(RunStatus::Cancelled)
        } else {
            None
        }
    }

    /// Encodes the run status for the wire.
    pub fn to_i32(&self) -> (r: i32)
        ensures
            r == self.code(),
            RunStatus::of_code(r) == Some(*self),
    {
        match self {
            RunStatus::Unknown => 0,
            RunStatus::Successful => 1,
            RunStatus::Failed => 2,
            RunStatus::Cancelled => 3,
        }
    }

    /// Decodes a wire number; a number that stands for no run status is refused.
    pub fn from_i32(code: i32) -> (r: Option<RunStatus>)
        ensures
            r == RunStatus::of_code(code),
            r matches Some(v) ==> v.code() == code,
    {
        if code == 0 {
            Some(RunStatus::Unknown)
        } else if code == 1 {
            Some(RunStatus::Successful)
        } else if code == 2 {
            Some(RunStatus::Failed)
        } else if code == 3 {
            Some(RunStatus::Cancelled)
        } else {
            None
        }
    }

    /// The name of this run status.
    pub open spec fn name(self) -> Seq<char> {
        match self {
            RunStatus::Unknown => "Unknown"@,
            RunStatus::Successful => "Successful"@,
            RunStatus::Failed => "Failed"@,
            RunStatus::Cancelled => "Cancelled"@,
        }
    }

    /// The name of this run status, as text.
    pub fn to_string(&self) -> (r: String)
        ensures
            r@ == self.name(),
    {
        match self {
            RunStatus::Unknown => owned("Unknown"),
            RunStatus::Successful => owned("Successful"),
            RunStatus::Failed => owned("Failed"),
            RunStatus::Cancelled => owned("Cancelled"),
        }
    }

    /// Reads a run status from a word that is already in lowercase.
    pub fn from_lowercase(word: &str) -> (r: Result<RunStatus, ()>)
        ensures
            r == run_status_of_word(word@),
    {
        if same(word, "unknown") {
            Ok(RunStatus::Unknown)
        } else if same(word, "successful") {
            Ok(RunStatus::Successful)
        } else if same(word, "failed") {
            Ok(RunStatus::Failed)
        } else if same(word, "cancelled") {
            Ok(RunStatus::Cancelled)
        } else {
            Err(())
        }
    }

    /// Reads a run status from its name, whatever the case of its letters.
    pub fn from_str(input: &str) -> (r: Result<RunStatus, ()>)
        ensures
            r == run_status_of_word(lowercase_of(input@)),
    {
        let word = lowercase(input);
        RunStatus::from_lowercase(word.as_str())
    }
}

/// Why a run or a task run did not succeed.
#[derive(Debug, Clone, Copy, PartialEq, Eq, Structural)]
pub enum RunFailureReason {
    /// The reason could not be determined.
    Unknown,
    /// A task exited with a code other than zero.
    AbnormalExit,
    /// A task could not be scheduled.
    SchedulerError,
    /// What the user asked for could not be met.
    FailedPrecondition,
    /// A user cancelled the run.
    UserCancelled,
    /// The system or an administrator cancelled the run.
    AdminCancelled,
}

impl DeepView for RunFailureReason {
    type V = RunFailureReason;

    open spec fn deep_view(&self) -> RunFailureReason {
        *self
    }
}

/// The failure reason that a lowercase word names.
pub open spec fn run_failure_reason_of_word(word: Seq<char>) -> Result<RunFailureReason, ()> {
    if word == "unknown"@ {
        Ok(RunFailureReason::Unknown)
    } else if word == "abnormal_exit"@ {
        Ok(RunFailureReason::AbnormalExit)
    } else if word == "scheduler_error"@ {
        Ok(RunFailureReason::SchedulerError)
    } else if word == "failed_precondition"@ {
        Ok(RunFailureReason::FailedPrecondition)
    } else if word == "user_cancelled"@ {
        Ok(RunFailureReason::UserCancelled)
    } else if word == "admin_cancelled"@ {
        Ok(RunFailureReason::AdminCancelled)
    } else {
        Err(())
    }
}

impl RunFailureReason {
    /// The number that stands for this failure reason on the wire.
    pub open spec fn code(self) -> i32 {
        match self {
            RunFailureReason::Unknown => 0,
            RunFailureReason::AbnormalExit => 1,
            RunFailureReason::SchedulerError => 2,
            RunFailureReason::FailedPrecondition => 3,
            RunFailureReason::UserCancelled => 4,
            RunFailureReason::AdminCancelled => 5,
        }
    }

    /// The failure reason that a wire number stands for.
    pub open spec fn of_code(code: i32) -> Option<RunFailureReason> {
        if code == 0 {
            Some(RunFailureReason::Unknown)
        } else if code == 1 {
            Some(RunFailureReason::AbnormalExit)
        } else if code == 2 {
            Some(RunFailureReason::SchedulerError)
        } else if code == 3 {
            Some(RunFailureReason::FailedPrecondition)
        } else if code == 4 {
            Some(RunFailureReason::UserCancelled)
        } else if code == 5 {
            Some(RunFailureReason::AdminCancelled)
        } else {
            None
        }
    }

    /// Encodes the failure reason for the wire.
    pub fn to_i32(&self) -> (r: i32)
        ensures
            r == self.code(),
            RunFailureReason::of_code(r) == Some(*self),
    {
        match self {
            RunFailureReason::Unknown => 0,
            RunFailureReason::AbnormalExit => 1,
            RunFailureReason::SchedulerError => 2,
            RunFailureReason::FailedPrecondition => 3,
            RunFailureReason::UserCancelled => 4,
            RunFailureReason::AdminCancelled => 5,
        }
    }

    /// Decodes a wire number; a number that stands for no failure reason is refused.
    pub fn from_i32(code: i32) -> (r: Option<RunFailureReason>)
        ensures
            r == RunFailureReason::of_code(code),
            r matches Some(v) ==> v.code() == code,
    {
        if code == 0 {
            Some(RunFailureReason::Unknown)
        } else if code == 1 {
            Some(RunFailureReason::AbnormalExit)
        } else if code == 2 {
            Some(RunFailureReason::SchedulerError)
        } else if code == 3 {
            Some(RunFailureReason::FailedPrecondition)
        } else if code == 4 {
            Some(RunFailureReason::UserCancelled)
        } else if code == 5 {
            Some(RunFailureReason::AdminCancelled)
        } else {
            None
        }
    }

    /// Reads a failure reason from a word that is already in lowercase.
    pub fn from_lowercase(word: &str) -> (r: Result<RunFailureReason, ()>)
        ensures
            r == run_failure_reason_of_word(word@),
    {
        if same(word, "unknown") {
            Ok(RunFailureReason::Unknown)
        } else if same(word, "abnormal_exit") {
            Ok(RunFailureReason::AbnormalExit)
        } else if same(word, "scheduler_error") {
            Ok(RunFailureReason::SchedulerError)
        } else if same(word, "failed_precondition") {
            Ok(RunFailureReason::FailedPrecondition)
        } else if same(word, "user_cancelled") {
            Ok(RunFailureReason::UserCancelled)
        } else if same(word, "admin_cancelled") {
            Ok(RunFailureReason::AdminCancelled)
        } else {
            Err(())
        }
    }

    /// Reads a failure reason from its name, whatever the case of its letters.
    pub fn from_str(input: &str) -> (r: Result<RunFailureReason, ()>)
        ensures
            r == run_failure_reason_of_word(lowercase_of(input@)),
    {
        let word = lowercase(input);
        RunFailureReason::from_lowercase(word.as_str())
    }
}

/// Why a run failed. Set only once the run is over.
#[derive(Debug, PartialEq, Eq)]
pub struct RunFailureInfo {
    pub reason: RunFailureReason,
    /// What happened, in words.
    pub description: String,
}

/// What a [`RunFailureInfo`] holds.
pub struct RunFailureInfoView {
    pub reason: RunFailureReason,
    pub description: Seq<char>,
}

impl DeepView for RunFailureInfo {
    type V = RunFailureInfoView;

    open spec fn deep_view(&self) -> RunFailureInfoView {
        RunFailureInfoView { reason: self.reason, description: self.description@ }
    }
}

impl Clone for RunFailureInfo {
    fn clone(&self) -> (r: Self)
        ensures
            r.deep_view() == self.deep_view(),
    {
        RunFailureInfo { reason: self.reason, description: self.description.clone() }
    }
}

/// The trigger that started a run.
#[derive(Debug, PartialEq, Eq)]
pub struct RunTriggerInfo {
    /// The kind of trigger.
    pub kind: String,
    /// The label that tells this trigger from others of its kind.
    pub label: String,
}

/// What a [`RunTriggerInfo`] holds.
pub struct RunTriggerInfoView {
    pub kind: Seq<char>,
    pub label: Seq<char>,
}

impl DeepView for RunTriggerInfo {
    type V = RunTriggerInfoView;

    open spec fn deep_view(&self) -> RunTriggerInfoView {
        RunTriggerInfoView { kind: self.kind@, label: self.label@ }
    }
}

impl Clone for RunTriggerInfo {
    fn clone(&self) -> (r: Self)
        ensures
            r.deep_view() == self.deep_view(),
    {
        RunTriggerInfo { kind: self.kind.clone(), label: self.label.clone() }
    }
}

/// The keys a run holds in the object store.
#[derive(Debug, PartialEq, Eq)]
pub struct RunStoreInfo {
    /// Whether the run's objects have been removed.
    pub is_expired: bool,
    pub keys: Vec<String>,
}

/// What a [`RunStoreInfo`] holds.
pub struct RunStoreInfoView {
    pub is_expired: bool,
    pub keys: Seq<Seq<char>>,
}

impl DeepView for RunStoreInfo {
    type V = RunStoreInfoView;

    open spec fn deep_view(&self) -> RunStoreInfoView {
        RunStoreInfoView { is_expired: self.is_expired, keys: self.keys.deep_view() }
    }
}

impl Clone for RunStoreInfo {
    fn clone(&self) -> (r: Self)
        ensures
            r.deep_view() == self.deep_view(),
    {
        let keys = self.keys.clone();
        assert(keys.deep_view() =~= self.keys.deep_view());
        RunStoreInfo { is_expired: self.is_expired, keys }
    }
}

/// One execution of a pipeline.
#[derive(Debug, PartialEq, Eq)]
pub struct Run {
    /// The namespace of the pipeline.
    pub namespace: String,
    /// The pipeline that is run.
    pub pipeline: String,
    /// Number of the run within its pipeline; 0 until storage assigns one.
    pub id: u64,
    /// Start time, in milliseconds since the Unix epoch.
    pub started: u64,
    /// End time, in milliseconds since the Unix epoch; 0 while the run is not over.
    pub ended: u64,
    pub state: RunState,
    pub status: RunStatus,
    pub failure_info: Option<RunFailureInfo>,
    /// The identifiers of the run's task runs.
    pub task_runs: Vec<String>,
    pub trigger: RunTriggerInfo,
    /// Environment variables handed to every task run of the run.
    pub variables: Vec<Variable>,
    pub store_info: Option<RunStoreInfo>,
}

/// What a [`Run`] holds.
pub struct RunView {
    pub namespace: Seq<char>,
    pub pipeline: Seq<char>,
    pub id: u64,
    pub started: u64,
    pub ended: u64,
    pub state: RunState,
    pub status: RunStatus,
    pub failure_info: Option<RunFailureInfoView>,
    pub task_runs: Seq<Seq<char>>,
    pub trigger: RunTriggerInfoView,
    pub variables: Seq<VariableView>,
    pub store_info: Option<RunStoreInfoView>,
}

impl DeepView for Run {
    type V = RunView;

    open spec fn deep_view(&self) -> RunView {
        RunView {
            namespace: self.namespace@,
            pipeline: self.pipeline@,
            id: self.id,
            started: self.started,
            ended: self.ended,
            state: self.state,
            status: self.status,
            failure_info: self.failure_info.deep_view(),
            task_runs: self.task_runs.deep_view(),
            trigger: self.trigger.deep_view(),
            variables: self.variables.deep_view(),
            store_info: self.store_info.deep_view(),
        }
    }
}

impl Clone for Run {
    fn clone(&self) -> (r: Self)
        ensures
            r.deep_view() == self.deep_view(),
    {
        let failure_info = match &self.failure_info {
            Some(f) => Some(f.clone()),
            None => None,
        };
        let store_info = match &self.store_info {
            Some(s) => Some(s.clone()),
            None => None,
        };
        let task_runs = self.task_runs.clone();
        assert(task_runs.deep_view() =~= self.task_runs.deep_view());
        let variables = self.variables.clone();
        assert(variables.deep_view() =~= self.variables.deep_view());
        Run {
            namespace: self.namespace.clone(),
            pipeline: self.pipeline.clone(),
            id: self.id,
            started: self.started,
            ended: self.ended,
            state: self.state,
            status: self.status,
            failure_info,
            task_runs,
            trigger: self.trigger.clone(),
            variables,
            store_info,
        }
    }
}

/// What a run holds when it is first recorded: pending, without an outcome,
/// without task runs, and with no number yet.
pub open spec fn fresh_run(
    namespace: Seq<char>,
    pipeline: Seq<char>,
    trigger: RunTriggerInfoView,
    variables: Seq<VariableView>,
    started: u64,
) -> RunView {
    RunView {
        namespace,
        pipeline,
        id: 0,
        started,
        ended: 0,
        state: RunState::Pending,
        status: RunStatus::Unknown,
        failure_info: None,
        task_runs: Seq::empty(),
        trigger,
        variables,
        store_info: None,
    }
}

impl Run {
    /// A pending run of `pipeline` that starts at time `started`.
    pub fn started_at(
        namespace: &str,
        pipeline: &str,
        trigger: RunTriggerInfo,
        variables: Vec<Variable>,
        started: u64,
    ) -> (r: Self)
        ensures
            r.deep_view() == fresh_run(
                namespace@,
                pipeline@,
                trigger.deep_view(),
                variables.deep_view(),
                started,
            ),
    {
        let r = Run {
            namespace: owned(namespace),
            pipeline: owned(pipeline),
            id: 0,
            started,
            ended: 0,
            state: RunState::Pending,
            status: RunStatus::Unknown,
            failure_info: None,
            task_runs: Vec::new(),
            trigger,
            variables,
            store_info: None,
        };
        assert(r.task_runs.deep_view() =~= Seq::empty());
        r
    }

    /// A pending run of `pipeline` that starts now: the clock gives the
    /// start time.
    pub fn new(
        namespace: &str,
        pipeline: &str,
        trigger: RunTriggerInfo,
        variables: Vec<Variable>,
    ) -> (r: Self)
        ensures
            r.deep_view() == fresh_run(
                namespace@,
                pipeline@,
                trigger.deep_view(),
                variables.deep_view(),
                r.started,
            ),
    {
        Run::started_at(namespace, pipeline, trigger, variables, epoch())
    }
}

} // verus!
