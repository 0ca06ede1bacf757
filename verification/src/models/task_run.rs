//! Task runs: one execution of one task within one run.

use crate::models::run::{RunFailureInfo, RunFailureInfoView, RunFailureReason, RunStatus};
use vstd::prelude::*;

verus! {

/// How far a task run, or the container behind it, has come.
#[derive(Debug, Clone, Copy, PartialEq, Eq, Structural)]
pub enum TaskRunState {
    /// The state could not be determined.
    Unknown,
    /// The task run is recorded and its container is being started.
    Processing,
    /// The container is created and waits to run.
    Waiting,
    /// The container runs.
    Running,
    /// The container exited with code zero.
    Success,
    /// The container could not be run, or exited with a code other than zero.
    Failed,
    /// The task run was stopped, or set aside before it ran.
    Cancelled,
}

impl DeepView for TaskRunState {
    type V = TaskRunState;

    open spec fn deep_view(&self) -> TaskRunState {
        *self
    }
}

impl TaskRunState {
    /// The number that stands for the state on the wire.
    pub open spec fn code(self) -> i32 {
        match self {
            TaskRunState::Unknown => 0,
            TaskRunState::Processing => 1,
            TaskRunState::Waiting => 2,
            TaskRunState::Running => 3,
            TaskRunState::Success => 4,
            TaskRunState::Failed => 5,
            TaskRunState::Cancelled => 6,
        }
    }

    /// The task run state that a wire number stands for.
    pub open spec fn of_code(code: i32) -> Option<TaskRunState> {
        if code == 0 {
            Some(TaskRunState::Unknown)
        } else if code == 1 {
            Some(TaskRunState::Processing)
        } else if code == 2 {
            Some(TaskRunState::Waiting)
        } else if code == 3 {
            Some(TaskRunState::Running)
        } else if code == 4 {
            Some(TaskRunState::Success)
        } else if code == 5 {
            Some(TaskRunState::Failed)
        } else if code == 6 {
            Some(TaskRunState::Cancelled)
        } else {
            None
        }
    }

    /// Encodes the task run state for the wire.
    pub fn to_i32(&self) -> (r: i32)
        ensures
            r == self.code(),
            TaskRunState::of_code(r) == Some(*self),
    {
        match self {
            TaskRunState::Unknown => 0,
            TaskRunState::Processing => 1,
            TaskRunState::Waiting => 2,
            TaskRunState::Running => 3,
            TaskRunState::Success => 4,
            TaskRunState::Failed => 5,
            TaskRunState::Cancelled => 6,
        }
    }

    /// Decodes a wire number; a number that stands for no task run state is refused.
    pub fn from_i32(code: i32) -> (r: Option<TaskRunState>)
        ensures
            r == TaskRunState::of_code(code),
            r matches Some(v) ==> v.code() == code,
    {
        if code == 0 {
            Some(TaskRunState::Unknown)
        } else if code == 1 {
            Some(TaskRunState::Processing)
        } else if code == 2 {
            Some(TaskRunState::Waiting)
        } else if code == 3 {
            Some(TaskRunState::Running)
        } else if code == 4 {
            Some(TaskRunState::Success)
        } else if code == 5 {
            Some(TaskRunState::Failed)
        } else if code == 6 {
            Some(TaskRunState::Cancelled)
        } else {
            None
        }
    }
}

impl TaskRunState {
    /// The task run is over: it will not change any more.
    pub open spec fn terminal(self) -> bool {
        self == TaskRunState::Success || self == TaskRunState::Failed || self
            == TaskRunState::Cancelled
    }

    /// The outcome that the state stands for; unknown while the task run is
    /// not over.
    pub open spec fn outcome(self) -> RunStatus {
        match self {
            TaskRunState::Success => RunStatus::Successful,
            TaskRunState::Failed => RunStatus::Failed,
            TaskRunState::Cancelled => RunStatus::Cancelled,
            _ => RunStatus::Unknown,
        }
    }

    /// Decides [`TaskRunState::terminal`].
    pub fn is_terminal(&self) -> (r: bool)
        ensures
            r == self.terminal(),
    {
        match self {
            TaskRunState::Success => true,
            TaskRunState::Failed => true,
            TaskRunState::Cancelled => true,
            _ => false,
        }
    }

    /// Computes [`TaskRunState::outcome`].
    pub fn status(&self) -> (r: RunStatus)
        ensures
            r == self.outcome(),
    {
        match self {
            TaskRunState::Success => RunStatus::Successful,
            TaskRunState::Failed => RunStatus::Failed,
            TaskRunState::Cancelled => RunStatus::Cancelled,
            _ => RunStatus::Unknown,
        }
    }
}

/// One execution of one task within one run.
#[derive(Debug, PartialEq, Eq)]
pub struct TaskRun {
    pub namespace: String,
    pub pipeline: String,
    /// The number of the run.
    pub run: u64,
    /// The identifier of the task.
    pub id: String,
    pub state: TaskRunState,
    /// The exit code of the container, once it has exited.
    pub exit_code: Option<u8>,
    /// Why the task run did not succeed, when it did not.
    pub failure: Option<RunFailureInfo>,
    /// The name under which the scheduler knows the container.
    pub scheduler_id: Option<String>,
    /// Where the container can be reached, when it has networking.
    pub url: Option<String>,
    /// When the container was asked for; 0 for a task run that never ran.
    pub started: u64,
    /// When the task run was over; 0 while it is not.
    pub ended: u64,
}

/// What a [`TaskRun`] holds.
pub struct TaskRunView {
    pub namespace: Seq<char>,
    pub pipeline: Seq<char>,
    pub run: u64,
    pub id: Seq<char>,
    pub state: TaskRunState,
    pub exit_code: Option<u8>,
    pub failure: Option<RunFailureInfoView>,
    pub scheduler_id: Option<Seq<char>>,
    pub url: Option<Seq<char>>,
    pub started: u64,
    pub ended: u64,
}

impl DeepView for TaskRun {
    type V = TaskRunView;

    open spec fn deep_view(&self) -> TaskRunView {
        TaskRunView {
            namespace: self.namespace@,
            pipeline: self.pipeline@,
            run: self.run,
            id: self.id@,
            state: self.state,
            exit_code: self.exit_code,
            failure: self.failure.deep_view(),
            scheduler_id: self.scheduler_id.deep_view(),
            url: self.url.deep_view(),
            started: self.started,
            ended: self.ended,
        }
    }
}

impl Clone for TaskRun {
    fn clone(&self) -> (r: Self)
        ensures
            r.deep_view() == self.deep_view(),
    {
        let failure = match &self.failure {
            Some(f) => Some(f.clone()),
            None => None,
        };
        let scheduler_id = match &self.scheduler_id {
            Some(s) => Some(s.clone()),
            None => None,
        };
        let url = match &self.url {
            Some(s) => Some(s.clone()),
            None => None,
        };
        TaskRun {
            namespace: self.namespace.clone(),
            pipeline: self.pipeline.clone(),
            run: self.run,
            id: self.id.clone(),
            state: self.state,
            exit_code: self.exit_code,
            failure,
            scheduler_id,
            url,
            started: self.started,
            ended: self.ended,
        }
    }
}

impl TaskRunView {
    /// The task run was set aside because a task it depends on ended in a
    /// way that it does not accept.
    pub open spec fn skipped(self) -> bool {
        &&& self.state == TaskRunState::Cancelled
        &&& self.failure matches Some(f)
        &&& f.reason == RunFailureReason::FailedPrecondition
    }

    /// The start time does not come after the end time where both are set.
    pub open spec fn times_in_order(self) -> bool {
        self.started != 0 && self.ended != 0 ==> self.started <= self.ended
    }
}

} // verus!
