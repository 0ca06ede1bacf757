//! The data model: namespaces, pipelines, tasks, runs and task runs.

pub mod namespace;
pub mod pipeline;
pub mod pipeline_config;
pub mod run;
pub mod task;
pub mod task_run;

pub use self::namespace::{Namespace, NamespaceView};
pub use self::pipeline::{
    Pipeline, PipelineNotifierSettings, PipelineState, PipelineTriggerSettings, PipelineView,
    SettingsView,
};
pub use self::pipeline_config::{PipelineConfig, PipelineConfigView};
pub use self::run::{
    Run, RunFailureInfo, RunFailureReason, RunState, RunStatus, RunStoreInfo, RunTriggerInfo,
    RunView,
};
pub use self::task::{Exec, RegistryAuth, RequiredParentStatus, Task, TaskView};
pub use self::task_run::{TaskRun, TaskRunState, TaskRunView};

use crate::text::{lowercase, lowercase_of, same};
use std::time::{SystemTime, UNIX_EPOCH};
use vstd::prelude::*;

verus! {

/// Wraps `SystemTime::now` and `SystemTime::duration_since`: the current time
/// in milliseconds since the Unix epoch, and 0 when the clock reads earlier
/// than the epoch. Nothing is promised of the value.
#[verifier::external_body]
pub(crate) fn epoch() -> u64 {
    match SystemTime::now().duration_since(UNIX_EPOCH) {
        Ok(elapsed) => elapsed.as_millis() as u64,
        Err(_) => 0,
    }
}

/// Who supplied a variable. The owner decides where the value may be shown
/// and which of two variables with one key wins.
#[derive(Debug, Clone, Copy, PartialEq, Eq, Structural)]
pub enum VariableOwner {
    Unknown,
    User,
    System,
}

impl DeepView for VariableOwner {
    type V = VariableOwner;

    open spec fn deep_view(&self) -> VariableOwner {
        *self
    }
}

/// The owner that a lowercase word names.
pub open spec fn variable_owner_of_word(word: Seq<char>) -> Result<VariableOwner, ()> {
    if word == "unknown"@ {
        Ok(VariableOwner::Unknown)
    } else if word == "user"@ {
        Ok(VariableOwner::User)
    } else if word == "system"@ {
        Ok(VariableOwner::System)
    } else {
        Err(())
    }
}

impl VariableOwner {
    /// The number that stands for this owner on the wire.
    pub open spec fn code(self) -> i32 {
        match self {
            VariableOwner::Unknown => 0,
            VariableOwner::User => 1,
            VariableOwner::System => 2,
        }
    }

    /// The owner that a wire number stands for.
    pub open spec fn of_code(code: i32) -> Option<VariableOwner> {
        if code == 0 {
            Some(VariableOwner::Unknown)
        } else if code == 1 {
            Some(VariableOwner::User)
        } else if code == 2 {
            Some(VariableOwner::System)
        } else {
            None
        }
    }

    /// Encodes the owner for the wire.
    pub fn to_i32(&self) -> (r: i32)
        ensures
            r == self.code(),
            VariableOwner::of_code(r) == Some(*self),
    {
        match self {
            VariableOwner::Unknown => 0,
            VariableOwner::User => 1,
            VariableOwner::System => 2,
        }
    }

    /// Decodes a wire number; a number that stands for no owner is refused.
    pub fn from_i32(code: i32) -> (r: Option<VariableOwner>)
        ensures
            r == VariableOwner::of_code(code),
            r matches Some(o) ==> o.code() == code,
    {
        if code == 0 {
            Some(VariableOwner::Unknown)
        } else if code == 1 {
            Some(VariableOwner::User)
        } else if code == 2 {
            Some(VariableOwner::System)
        } else {
            None
        }
    }

    /// Reads an owner from a word that is already in lowercase.
    pub fn from_lowercase(word: &str) -> (r: Result<VariableOwner, ()>)
        ensures
            r == variable_owner_of_word(word@),
    {
        if same(word, "unknown") {
            Ok(VariableOwner::Unknown)
        } else if same(word, "user") {
            Ok(VariableOwner::User)
        } else if same(word, "system") {
            Ok(VariableOwner::System)
        } else {
            Err(())
        }
    }

    /// Reads an owner from its name, whatever the case of its letters.
    pub fn from_str(input: &str) -> (r: Result<VariableOwner, ()>)
        ensures
            r == variable_owner_of_word(lowercase_of(input@)),
    {
        let word = lowercase(input);
        VariableOwner::from_lowercase(word.as_str())
    }
}

/// A key and a value handed to a task run as an environment variable.
#[derive(Debug, PartialEq, Eq)]
pub struct Variable {
    pub key: String,
    pub value: String,
    pub owner: VariableOwner,
}

/// What a [`Variable`] holds.
pub struct VariableView {
    pub key: Seq<char>,
    pub value: Seq<char>,
    pub owner: VariableOwner,
}

impl DeepView for Variable {
    type V = VariableView;

    open spec fn deep_view(&self) -> VariableView {
        VariableView { key: self.key@, value: self.value@, owner: self.owner }
    }
}

impl Clone for Variable {
    fn clone(&self) -> (r: Self)
        ensures
            r.deep_view() == self.deep_view(),
    {
        Variable { key: self.key.clone(), value: self.value.clone(), owner: self.owner }
    }
}

} // verus!
