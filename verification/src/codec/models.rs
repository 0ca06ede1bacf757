//! The text forms of the aggregates.

use crate::codec::{lemma_concat_assoc, lemma_text_round_trip, Codec};
use crate::models::namespace::NamespaceView;
use crate::models::pipeline::{PipelineView, SettingsView};
use crate::models::run::{RunFailureInfoView, RunStoreInfoView, RunTriggerInfoView, RunView};
use crate::models::task::{ExecView, RegistryAuthView, TaskView};
use crate::models::{
    Exec, Namespace, Pipeline, PipelineNotifierSettings, PipelineState, PipelineTriggerSettings,
    RegistryAuth, RequiredParentStatus, Run, RunFailureInfo, RunFailureReason, RunState, RunStatus,
    RunStoreInfo, RunTriggerInfo, Task, TaskRun, TaskRunState, TaskRunView, Variable,
    VariableOwner, VariableView,
};
use crate::string_map::StringMap;
use vstd::prelude::*;

verus! {

impl Codec for VariableOwner {
    open spec fn sound(v: VariableOwner) -> bool {
        true
    }

    open spec fn encoded(v: VariableOwner) -> Seq<char> {
        u64::encoded(
            match v {
                VariableOwner::Unknown => 0,
                VariableOwner::User => 1,
                VariableOwner::System => 2,
            },
        )
    }

    open spec fn decoded(text: Seq<char>) -> Option<(VariableOwner, Seq<char>)> {
        match u64::decoded(text) {
            Some((n, rest)) => if n == 0 {
                Some((VariableOwner::Unknown, rest))
            } else if n == 1 {
                Some((VariableOwner::User, rest))
            } else if n == 2 {
                Some((VariableOwner::System, rest))
            } else {
                None
            },
            None => None,
        }
    }

    proof fn lemma_round_trip(v: VariableOwner, rest: Seq<char>) {
        u64::lemma_round_trip(
            match v {
                VariableOwner::Unknown => 0,
                VariableOwner::User => 1,
                VariableOwner::System => 2,
            },
            rest,
        );
    }

    fn encode(&self, out: &mut Vec<char>) {
        let n: u64 = match self {
            VariableOwner::Unknown => 0,
            VariableOwner::User => 1,
            VariableOwner::System => 2,
        };
        n.encode(out);
    }

    fn decode(text: &Vec<char>, at: usize) -> (r: Option<(Self, usize)>) {
        match u64::decode(text, at) {
            Some((n, next)) => if n == 0 {
                Some((VariableOwner::Unknown, next))
            } else if n == 1 {
                Some((VariableOwner::User, next))
            } else if n == 2 {
                Some((VariableOwner::System, next))
            } else {
                None
            },
            None => None,
        }
    }
}

impl Codec for RequiredParentStatus {
    open spec fn sound(v: RequiredParentStatus) -> bool {
        true
    }

    open spec fn encoded(v: RequiredParentStatus) -> Seq<char> {
        u64::encoded(
            match v {
                RequiredParentStatus::Unknown => 0,
                RequiredParentStatus::Any => 1,
                RequiredParentStatus::Success => 2,
                RequiredParentStatus::Failure => 3,
            },
        )
    }

    open spec fn decoded(text: Seq<char>) -> Option<(RequiredParentStatus, Seq<char>)> {
        match u64::decoded(text) {
            Some((n, rest)) => if n == 0 {
                Some((RequiredParentStatus::Unknown, rest))
            } else if n == 1 {
                Some((RequiredParentStatus::Any, rest))
            } else if n == 2 {
                Some((RequiredParentStatus::Success, rest))
            } else if n == 3 {
                Some((RequiredParentStatus::Failure, rest))
            } else {
                None
            },
            None => None,
        }
    }

    proof fn lemma_round_trip(v: RequiredParentStatus, rest: Seq<char>) {
        u64::lemma_round_trip(
            match v {
                RequiredParentStatus::Unknown => 0,
                RequiredParentStatus::Any => 1,
                RequiredParentStatus::Success => 2,
                RequiredParentStatus::Failure => 3,
            },
            rest,
        );
    }

    fn encode(&self, out: &mut Vec<char>) {
        let n: u64 = match self {
            RequiredParentStatus::Unknown => 0,
            RequiredParentStatus::Any => 1,
            RequiredParentStatus::Success => 2,
            RequiredParentStatus::Failure => 3,
        };
        n.encode(out);
    }

    fn decode(text: &Vec<char>, at: usize) -> (r: Option<(Self, usize)>) {
        match u64::decode(text, at) {
            Some((n, next)) => if n == 0 {
                Some((RequiredParentStatus::Unknown, next))
            } else if n == 1 {
                Some((RequiredParentStatus::Any, next))
            } else if n == 2 {
                Some((RequiredParentStatus::Success, next))
            } else if n == 3 {
                Some((RequiredParentStatus::Failure, next))
            } else {
                None
            },
            None => None,
        }
    }
}

impl Codec for PipelineState {
    open spec fn sound(v: PipelineState) -> bool {
        true
    }

    open spec fn encoded(v: PipelineState) -> Seq<char> {
        u64::encoded(
            match v {
                PipelineState::Unknown => 0,
                PipelineState::Active => 1,
                PipelineState::Disabled => 2,
            },
        )
    }

    open spec fn decoded(text: Seq<char>) -> Option<(PipelineState, Seq<char>)> {
        match u64::decoded(text) {
            Some((n, rest)) => if n == 0 {
                Some((PipelineState::Unknown, rest))
            } else if n == 1 {
                Some((PipelineState::Active, rest))
            } else if n == 2 {
                Some((PipelineState::Disabled, rest))
            } else {
                None
            },
            None => None,
        }
    }

    proof fn lemma_round_trip(v: PipelineState, rest: Seq<char>) {
        u64::lemma_round_trip(
            match v {
                PipelineState::Unknown => 0,
                PipelineState::Active => 1,
                PipelineState::Disabled => 2,
            },
            rest,
        );
    }

    fn encode(&self, out: &mut Vec<char>) {
        let n: u64 = match self {
            PipelineState::Unknown => 0,
            PipelineState::Active => 1,
            PipelineState::Disabled => 2,
        };
        n.encode(out);
    }

    fn decode(text: &Vec<char>, at: usize) -> (r: Option<(Self, usize)>) {
        match u64::decode(text, at) {
            Some((n, next)) => if n == 0 {
                Some((PipelineState::Unknown, next))
            } else if n == 1 {
                Some((PipelineState::Active, next))
            } else if n == 2 {
                Some((PipelineState::Disabled, next))
            } else {
                None
            },
            None => None,
        }
    }
}

impl Codec for RunState {
    open spec fn sound(v: RunState) -> bool {
        true
    }

    open spec fn encoded(v: RunState) -> Seq<char> {
        u64::encoded(
            match v {
                RunState::Unknown => 0,
                RunState::Pending => 1,
                RunState::Running => 2,
                RunState::Complete => 3,
            },
        )
    }

    open spec fn decoded(text: Seq<char>) -> Option<(RunState, Seq<char>)> {
        match u64::decoded(text) {
            Some((n, rest)) => if n == 0 {
                Some((RunState::Unknown, rest))
            } else if n == 1 {
                Some((RunState::Pending, rest))
            } else if n == 2 {
                Some((RunState::Running, rest))
            } else if n == 3 {
                Some((RunState::Complete, rest))
            } else {
                None
            },
            None => None,
        }
    }

    proof fn lemma_round_trip(v: RunState, rest: Seq<char>) {
        u64::lemma_round_trip(
            match v {
                RunState::Unknown => 0,
                RunState::Pending => 1,
                RunState::Running => 2,
                RunState::Complete => 3,
            },
            rest,
        );
    }

    fn encode(&self, out: &mut Vec<char>) {
        let n: u64 = match self {
            RunState::Unknown => 0,
            RunState::Pending => 1,
            RunState::Running => 2,
            RunState::Complete => 3,
        };
        n.encode(out);
    }

    fn decode(text: &Vec<char>, at: usize) -> (r: Option<(Self, usize)>) {
        match u64::decode(text, at) {
            Some((n, next)) => if n == 0 {
                Some((RunState::Unknown, next))
            } else if n == 1 {
                Some((RunState::Pending, next))
            } else if n == 2 {
                Some((RunState::Running, next))
            } else if n == 3 {
                Some((RunState::Complete, next))
            } else {
                None
            },
            None => None,
        }
    }
}

impl Codec for RunStatus {
    open spec fn sound(v: RunStatus) -> bool {
        true
    }

    open spec fn encoded(v: RunStatus) -> Seq<char> {
        u64::encoded(
            match v {
                RunStatus::Unknown => 0,
                RunStatus::Successful => 1,
                RunStatus::Failed => 2,
                RunStatus::Cancelled => 3,
            },
        )
    }

    open spec fn decoded(text: Seq<char>) -> Option<(RunStatus, Seq<char>)> {
        match u64::decoded(text) {
            Some((n, rest)) => if n == 0 {
                Some((RunStatus::Unknown, rest))
            } else if n == 1 {
                Some((RunStatus::Successful, rest))
            } else if n == 2 {
                Some((RunStatus::Failed, rest))
            } else if n == 3 {
                Some((RunStatus::Cancelled, rest))
            } else {
                None
            },
            None => None,
        }
    }

    proof fn lemma_round_trip(v: RunStatus, rest: Seq<char>) {
        u64::lemma_round_trip(
            match v {
                RunStatus::Unknown => 0,
                RunStatus::Successful => 1,
                RunStatus::Failed => 2,
                RunStatus::Cancelled => 3,
            },
            rest,
        );
    }

    fn encode(&self, out: &mut Vec<char>) {
        let n: u64 = match self {
            RunStatus::Unknown => 0,
            RunStatus::Successful => 1,
            RunStatus::Failed => 2,
            RunStatus::Cancelled => 3,
        };
        n.encode(out);
    }

    fn decode(text: &Vec<char>, at: usize) -> (r: Option<(Self, usize)>) {
        match u64::decode(text, at) {
            Some((n, next)) => if n == 0 {
                Some((RunStatus::Unknown, next))
            } else if n == 1 {
                Some((RunStatus::Successful, next))
            } else if n == 2 {
                Some((RunStatus::Failed, next))
            } else if n == 3 {
                Some((RunStatus::Cancelled, next))
            } else {
                None
            },
            None => None,
        }
    }
}

impl Codec for RunFailureReason {
    open spec fn sound(v: RunFailureReason) -> bool {
        true
    }

    open spec fn encoded(v: RunFailureReason) -> Seq<char> {
        u64::encoded(
            match v {
                RunFailureReason::Unknown => 0,
                RunFailureReason::AbnormalExit => 1,
                RunFailureReason::SchedulerError => 2,
                RunFailureReason::FailedPrecondition => 3,
                RunFailureReason::UserCancelled => 4,
                RunFailureReason::AdminCancelled => 5,
            },
        )
    }

    open spec fn decoded(text: Seq<char>) -> Option<(RunFailureReason, Seq<char>)> {
        match u64::decoded(text) {
            Some((n, rest)) => if n == 0 {
                Some((RunFailureReason::Unknown, rest))
            } else if n == 1 {
                Some((RunFailureReason::AbnormalExit, rest))
            } else if n == 2 {
                Some((RunFailureReason::SchedulerError, rest))
            } else if n == 3 {
                Some((RunFailureReason::FailedPrecondition, rest))
            } else if n == 4 {
                Some((RunFailureReason::UserCancelled, rest))
            } else if n == 5 {
                Some((RunFailureReason::AdminCancelled, rest))
            } else {
                None
            },
            None => None,
        }
    }

    proof fn lemma_round_trip(v: RunFailureReason, rest: Seq<char>) {
        u64::lemma_round_trip(
            match v {
                RunFailureReason::Unknown => 0,
                RunFailureReason::AbnormalExit => 1,
                RunFailureReason::SchedulerError => 2,
                RunFailureReason::FailedPrecondition => 3,
                RunFailureReason::UserCancelled => 4,
                RunFailureReason::AdminCancelled => 5,
            },
            rest,
        );
    }

    fn encode(&self, out: &mut Vec<char>) {
        let n: u64 = match self {
            RunFailureReason::Unknown => 0,
            RunFailureReason::AbnormalExit => 1,
            RunFailureReason::SchedulerError => 2,
            RunFailureReason::FailedPrecondition => 3,
            RunFailureReason::UserCancelled => 4,
            RunFailureReason::AdminCancelled => 5,
        };
        n.encode(out);
    }

    fn decode(text: &Vec<char>, at: usize) -> (r: Option<(Self, usize)>) {
        match u64::decode(text, at) {
            Some((n, next)) => if n == 0 {
                Some((RunFailureReason::Unknown, next))
            } else if n == 1 {
                Some((RunFailureReason::AbnormalExit, next))
            } else if n == 2 {
                Some((RunFailureReason::SchedulerError, next))
            } else if n == 3 {
                Some((RunFailureReason::FailedPrecondition, next))
            } else if n == 4 {
                Some((RunFailureReason::UserCancelled, next))
            } else if n == 5 {
                Some((RunFailureReason::AdminCancelled, next))
            } else {
                None
            },
            None => None,
        }
    }
}

impl Codec for TaskRunState {
    open spec fn sound(v: TaskRunState) -> bool {
        true
    }

    open spec fn encoded(v: TaskRunState) -> Seq<char> {
        u64::encoded(
            match v {
                TaskRunState::Unknown => 0,
                TaskRunState::Processing => 1,
                TaskRunState::Waiting => 2,
                TaskRunState::Running => 3,
                TaskRunState::Success => 4,
                TaskRunState::Failed => 5,
                TaskRunState::Cancelled => 6,
            },
        )
    }

    open spec fn decoded(text: Seq<char>) -> Option<(TaskRunState, Seq<char>)> {
        match u64::decoded(text) {
            Some((n, rest)) => if n == 0 {
                Some((TaskRunState::Unknown, rest))
            } else if n == 1 {
                Some((TaskRunState::Processing, rest))
            } else if n == 2 {
                Some((TaskRunState::Waiting, rest))
            } else if n == 3 {
                Some((TaskRunState::Running, rest))
            } else if n == 4 {
                Some((TaskRunState::Success, rest))
            } else if n == 5 {
                Some((TaskRunState::Failed, rest))
            } else if n == 6 {
                Some((TaskRunState::Cancelled, rest))
            } else {
                None
            },
            None => None,
        }
    }

    proof fn lemma_round_trip(v: TaskRunState, rest: Seq<char>) {
        u64::lemma_round_trip(
            match v {
                TaskRunState::Unknown => 0,
                TaskRunState::Processing => 1,
                TaskRunState::Waiting => 2,
                TaskRunState::Running => 3,
                TaskRunState::Success => 4,
                TaskRunState::Failed => 5,
                TaskRunState::Cancelled => 6,
            },
            rest,
        );
    }

    fn encode(&self, out: &mut Vec<char>) {
        let n: u64 = match self {
            TaskRunState::Unknown => 0,
            TaskRunState::Processing => 1,
            TaskRunState::Waiting => 2,
            TaskRunState::Running => 3,
            TaskRunState::Success => 4,
            TaskRunState::Failed => 5,
            TaskRunState::Cancelled => 6,
        };
        n.encode(out);
    }

    fn decode(text: &Vec<char>, at: usize) -> (r: Option<(Self, usize)>) {
        match u64::decode(text, at) {
            Some((n, next)) => if n == 0 {
                Some((TaskRunState::Unknown, next))
            } else if n == 1 {
                Some((TaskRunState::Processing, next))
            } else if n == 2 {
                Some((TaskRunState::Waiting, next))
            } else if n == 3 {
                Some((TaskRunState::Running, next))
            } else if n == 4 {
                Some((TaskRunState::Success, next))
            } else if n == 5 {
                Some((TaskRunState::Failed, next))
            } else if n == 6 {
                Some((TaskRunState::Cancelled, next))
            } else {
                None
            },
            None => None,
        }
    }
}

/// The fields of a [`Variable`], in the order in which they are written.
pub type VariableFields = (String, (String, VariableOwner));

impl Codec for Variable {
    open spec fn sound(v: VariableView) -> bool {
        VariableFields::sound(Self::fields(v))
    }

    open spec fn encoded(v: VariableView) -> Seq<char> {
        VariableFields::encoded(Self::fields(v))
    }

    open spec fn decoded(text: Seq<char>) -> Option<(VariableView, Seq<char>)> {
        match VariableFields::decoded(text) {
            Some((fields, rest)) => Some((Self::of_fields(fields), rest)),
            None => None,
        }
    }

    proof fn lemma_round_trip(v: VariableView, rest: Seq<char>) {
        VariableFields::lemma_round_trip(Self::fields(v), rest);
    }

    fn encode(&self, out: &mut Vec<char>) {
        let ghost v = self.deep_view();
        let ghost h0 = out@;
        self.key.encode(out);
        let ghost h1 = out@;
        self.value.encode(out);
        let ghost h2 = out@;
        self.owner.encode(out);
        proof {
            let s3 = VariableOwner::encoded(v.owner);
            let s2 = String::encoded(v.value) + s3;
            lemma_concat_assoc(h1, String::encoded(v.value), s3);
            let s1 = String::encoded(v.key) + s2;
            lemma_concat_assoc(h0, String::encoded(v.key), s2);
        }
    }

    fn decode(text: &Vec<char>, at: usize) -> (r: Option<(Self, usize)>) {
        match VariableFields::decode(text, at) {
            Some(((key, (value, owner)), next)) => {
                Some((Variable { key, value, owner }, next))
            },
            None => None,
        }
    }
}

impl Variable {
    /// The fields of `v`, in the order in which they are written.
    pub open spec fn fields(v: VariableView) -> <VariableFields as DeepView>::V {
        (v.key, (v.value, v.owner))
    }

    /// The value that holds `fields`.
    pub open spec fn of_fields(fields: <VariableFields as DeepView>::V) -> VariableView {
        VariableView {
            key: fields.0,
            value: fields.1.0,
            owner: fields.1.1,
        }
    }
}

/// The fields of a [`RegistryAuth`], in the order in which they are written.
pub type RegistryAuthFields = (String, String);

impl Codec for RegistryAuth {
    open spec fn sound(v: RegistryAuthView) -> bool {
        RegistryAuthFields::sound(Self::fields(v))
    }

    open spec fn encoded(v: RegistryAuthView) -> Seq<char> {
        RegistryAuthFields::encoded(Self::fields(v))
    }

    open spec fn decoded(text: Seq<char>) -> Option<(RegistryAuthView, Seq<char>)> {
        match RegistryAuthFields::decoded(text) {
            Some((fields, rest)) => Some((Self::of_fields(fields), rest)),
            None => None,
        }
    }

    proof fn lemma_round_trip(v: RegistryAuthView, rest: Seq<char>) {
        RegistryAuthFields::lemma_round_trip(Self::fields(v), rest);
    }

    fn encode(&self, out: &mut Vec<char>) {
        let ghost v = self.deep_view();
        let ghost h0 = out@;
        self.user.encode(out);
        let ghost h1 = out@;
        self.pass.encode(out);
        proof {
            let s2 = String::encoded(v.pass);
            let s1 = String::encoded(v.user) + s2;
            lemma_concat_assoc(h0, String::encoded(v.user), s2);
        }
    }

    fn decode(text: &Vec<char>, at: usize) -> (r: Option<(Self, usize)>) {
        match RegistryAuthFields::decode(text, at) {
            Some(((user, pass), next)) => {
                Some((RegistryAuth { user, pass }, next))
            },
            None => None,
        }
    }
}

impl RegistryAuth {
    /// The fields of `v`, in the order in which they are written.
    pub open spec fn fields(v: RegistryAuthView) -> <RegistryAuthFields as DeepView>::V {
        (v.user, v.pass)
    }

    /// The value that holds `fields`.
    pub open spec fn of_fields(fields: <RegistryAuthFields as DeepView>::V) -> RegistryAuthView {
        RegistryAuthView {
            user: fields.0,
            pass: fields.1,
        }
    }
}

/// The fields of a [`Exec`], in the order in which they are written.
pub type ExecFields = (String, String);

impl Codec for Exec {
    open spec fn sound(v: ExecView) -> bool {
        ExecFields::sound(Self::fields(v))
    }

    open spec fn encoded(v: ExecView) -> Seq<char> {
        ExecFields::encoded(Self::fields(v))
    }

    open spec fn decoded(text: Seq<char>) -> Option<(ExecView, Seq<char>)> {
        match ExecFields::decoded(text) {
            Some((fields, rest)) => Some((Self::of_fields(fields), rest)),
            None => None,
        }
    }

    proof fn lemma_round_trip(v: ExecView, rest: Seq<char>) {
        ExecFields::lemma_round_trip(Self::fields(v), rest);
    }

    fn encode(&self, out: &mut Vec<char>) {
        let ghost v = self.deep_view();
        let ghost h0 = out@;
        self.shell.encode(out);
        let ghost h1 = out@;
        self.script.encode(out);
        proof {
            let s2 = String::encoded(v.script);
            let s1 = String::encoded(v.shell) + s2;
            lemma_concat_assoc(h0, String::encoded(v.shell), s2);
        }
    }

    fn decode(text: &Vec<char>, at: usize) -> (r: Option<(Self, usize)>) {
        match ExecFields::decode(text, at) {
            Some(((shell, script), next)) => {
                Some((Exec { shell, script }, next))
            },
            None => None,
        }
    }
}

impl Exec {
    /// The fields of `v`, in the order in which they are written.
    pub open spec fn fields(v: ExecView) -> <ExecFields as DeepView>::V {
        (v.shell, v.script)
    }

    /// The value that holds `fields`.
    pub open spec fn of_fields(fields: <ExecFields as DeepView>::V) -> ExecView {
        ExecView {
            shell: fields.0,
            script: fields.1,
        }
    }
}

/// The fields of a [`Task`], in the order in which they are written.
pub type TaskFields = (String, (Option<String>, (String, (Option<RegistryAuth>,
    (StringMap<RequiredParentStatus>, (Vec<Variable>, Option<Exec>))))));

impl Codec for Task {
    open spec fn sound(v: TaskView) -> bool {
        TaskFields::sound(Self::fields(v))
    }

    open spec fn encoded(v: TaskView) -> Seq<char> {
        TaskFields::encoded(Self::fields(v))
    }

    open spec fn decoded(text: Seq<char>) -> Option<(TaskView, Seq<char>)> {
        match TaskFields::decoded(text) {
            Some((fields, rest)) => Some((Self::of_fields(fields), rest)),
            None => None,
        }
    }

    proof fn lemma_round_trip(v: TaskView, rest: Seq<char>) {
        TaskFields::lemma_round_trip(Self::fields(v), rest);
    }

    fn encode(&self, out: &mut Vec<char>) {
        let ghost v = self.deep_view();
        let ghost h0 = out@;
        self.id.encode(out);
        let ghost h1 = out@;
        self.description.encode(out);
        let ghost h2 = out@;
        self.image.encode(out);
        let ghost h3 = out@;
        self.registry_auth.encode(out);
        let ghost h4 = out@;
        self.depends_on.encode(out);
        assert(self.depends_on.deep_view() =~= self.depends_on@);
        let ghost h5 = out@;
        self.variables.encode(out);
        let ghost h6 = out@;
        self.entrypoint.encode(out);
        proof {
            let s7 = Option::<Exec>::encoded(v.entrypoint);
            let s6 = Vec::<Variable>::encoded(v.variables) + s7;
            lemma_concat_assoc(h5, Vec::<Variable>::encoded(v.variables), s7);
            let s5 = StringMap::<RequiredParentStatus>::encoded(v.depends_on) + s6;
            lemma_concat_assoc(h4, StringMap::<RequiredParentStatus>::encoded(v.depends_on), s6);
            let s4 = Option::<RegistryAuth>::encoded(v.registry_auth) + s5;
            lemma_concat_assoc(h3, Option::<RegistryAuth>::encoded(v.registry_auth), s5);
            let s3 = String::encoded(v.image) + s4;
            lemma_concat_assoc(h2, String::encoded(v.image), s4);
            let s2 = Option::<String>::encoded(v.description) + s3;
            lemma_concat_assoc(h1, Option::<String>::encoded(v.description), s3);
            let s1 = String::encoded(v.id) + s2;
            lemma_concat_assoc(h0, String::encoded(v.id), s2);
        }
    }

    fn decode(text: &Vec<char>, at: usize) -> (r: Option<(Self, usize)>) {
        match TaskFields::decode(text, at) {
            Some((fields, next)) => {
                let (id, (description, (image, (registry_auth, (depends_on, (variables, entrypoint
                    )))))) = fields;
                assert(depends_on.deep_view() =~= depends_on@);
                Some((Task {
                    id,
                    description,
                    image,
                    registry_auth,
                    depends_on,
                    variables,
                    entrypoint,
                }, next))
            },
            None => None,
        }
    }
}

impl Task {
    /// The fields of `v`, in the order in which they are written.
    pub open spec fn fields(v: TaskView) -> <TaskFields as DeepView>::V {
        (v.id, (v.description, (v.image, (v.registry_auth, (v.depends_on, (v.variables, v.entrypoint
            ))))))
    }

    /// The value that holds `fields`.
    pub open spec fn of_fields(fields: <TaskFields as DeepView>::V) -> TaskView {
        TaskView {
            id: fields.0,
            description: fields.1.0,
            image: fields.1.1.0,
            registry_auth: fields.1.1.1.0,
            depends_on: fields.1.1.1.1.0,
            variables: fields.1.1.1.1.1.0,
            entrypoint: fields.1.1.1.1.1.1,
        }
    }
}

/// The fields of a [`PipelineTriggerSettings`], in the order in which they are written.
pub type PipelineTriggerSettingsFields = (String, (String, (StringMap<String>, Option<String>)));

impl Codec for PipelineTriggerSettings {
    open spec fn sound(v: SettingsView) -> bool {
        PipelineTriggerSettingsFields::sound(Self::fields(v))
    }

    open spec fn encoded(v: SettingsView) -> Seq<char> {
        PipelineTriggerSettingsFields::encoded(Self::fields(v))
    }

    open spec fn decoded(text: Seq<char>) -> Option<(SettingsView, Seq<char>)> {
        match PipelineTriggerSettingsFields::decoded(text) {
            Some((fields, rest)) => Some((Self::of_fields(fields), rest)),
            None => None,
        }
    }

    proof fn lemma_round_trip(v: SettingsView, rest: Seq<char>) {
        PipelineTriggerSettingsFields::lemma_round_trip(Self::fields(v), rest);
    }

    fn encode(&self, out: &mut Vec<char>) {
        let ghost v = self.deep_view();
        let ghost h0 = out@;
        self.kind.encode(out);
        let ghost h1 = out@;
        self.label.encode(out);
        let ghost h2 = out@;
        self.settings.encode(out);
        let ghost h3 = out@;
        self.error.encode(out);
        proof {
            let s4 = Option::<String>::encoded(v.error);
            let s3 = StringMap::<String>::encoded(v.settings) + s4;
            lemma_concat_assoc(h2, StringMap::<String>::encoded(v.settings), s4);
            let s2 = String::encoded(v.label) + s3;
            lemma_concat_assoc(h1, String::encoded(v.label), s3);
            let s1 = String::encoded(v.kind) + s2;
            lemma_concat_assoc(h0, String::encoded(v.kind), s2);
        }
    }

    fn decode(text: &Vec<char>, at: usize) -> (r: Option<(Self, usize)>) {
        match PipelineTriggerSettingsFields::decode(text, at) {
            Some(((kind, (label, (settings, error))), next)) => {
                Some((PipelineTriggerSettings { kind, label, settings, error }, next))
            },
            None => None,
        }
    }
}

impl PipelineTriggerSettings {
    /// The fields of `v`, in the order in which they are written.
    pub open spec fn fields(v: SettingsView) -> <PipelineTriggerSettingsFields as DeepView>::V {
        (v.kind, (v.label, (v.settings, v.error)))
    }

    /// The value that holds `fields`.
    pub open spec fn of_fields(
        fields: <PipelineTriggerSettingsFields as DeepView>::V,
    ) -> SettingsView {
        SettingsView {
            kind: fields.0,
            label: fields.1.0,
            settings: fields.1.1.0,
            error: fields.1.1.1,
        }
    }
}

/// The fields of a [`PipelineNotifierSettings`], in the order in which they are written.
pub type PipelineNotifierSettingsFields = (String, (String, (StringMap<String>, Option<String>)));

impl Codec for PipelineNotifierSettings {
    open spec fn sound(v: SettingsView) -> bool {
        PipelineNotifierSettingsFields::sound(Self::fields(v))
    }

    open spec fn encoded(v: SettingsView) -> Seq<char> {
        PipelineNotifierSettingsFields::encoded(Self::fields(v))
    }

    open spec fn decoded(text: Seq<char>) -> Option<(SettingsView, Seq<char>)> {
        match PipelineNotifierSettingsFields::decoded(text) {
            Some((fields, rest)) => Some((Self::of_fields(fields), rest)),
            None => None,
        }
    }

    proof fn lemma_round_trip(v: SettingsView, rest: Seq<char>) {
        PipelineNotifierSettingsFields::lemma_round_trip(Self::fields(v), rest);
    }

    fn encode(&self, out: &mut Vec<char>) {
        let ghost v = self.deep_view();
        let ghost h0 = out@;
        self.kind.encode(out);
        let ghost h1 = out@;
        self.label.encode(out);
        let ghost h2 = out@;
        self.settings.encode(out);
        let ghost h3 = out@;
        self.error.encode(out);
        proof {
            let s4 = Option::<String>::encoded(v.error);
            let s3 = StringMap::<String>::encoded(v.settings) + s4;
            lemma_concat_assoc(h2, StringMap::<String>::encoded(v.settings), s4);
            let s2 = String::encoded(v.label) + s3;
            lemma_concat_assoc(h1, String::encoded(v.label), s3);
            let s1 = String::encoded(v.kind) + s2;
            lemma_concat_assoc(h0, String::encoded(v.kind), s2);
        }
    }

    fn decode(text: &Vec<char>, at: usize) -> (r: Option<(Self, usize)>) {
        match PipelineNotifierSettingsFields::decode(text, at) {
            Some(((kind, (label, (settings, error))), next)) => {
                Some((PipelineNotifierSettings { kind, label, settings, error }, next))
            },
            None => None,
        }
    }
}

impl PipelineNotifierSettings {
    /// The fields of `v`, in the order in which they are written.
    pub open spec fn fields(v: SettingsView) -> <PipelineNotifierSettingsFields as DeepView>::V {
        (v.kind, (v.label, (v.settings, v.error)))
    }

    /// The value that holds `fields`.
    pub open spec fn of_fields(
        fields: <PipelineNotifierSettingsFields as DeepView>::V,
    ) -> SettingsView {
        SettingsView {
            kind: fields.0,
            label: fields.1.0,
            settings: fields.1.1.0,
            error: fields.1.1.1,
        }
    }
}

/// The fields of a [`Pipeline`], in the order in which they are written.
pub type PipelineFields = (String, (String, (String, (String, (u64, (u64, (u64, (u64, (u64,
    (PipelineState, (StringMap<Task>, (StringMap<PipelineTriggerSettings>,
    (StringMap<PipelineNotifierSettings>, Vec<String>)))))))))))));

impl Codec for Pipeline {
    open spec fn sound(v: PipelineView) -> bool {
        PipelineFields::sound(Self::fields(v))
    }

    open spec fn encoded(v: PipelineView) -> Seq<char> {
        PipelineFields::encoded(Self::fields(v))
    }

    open spec fn decoded(text: Seq<char>) -> Option<(PipelineView, Seq<char>)> {
        match PipelineFields::decoded(text) {
            Some((fields, rest)) => Some((Self::of_fields(fields), rest)),
            None => None,
        }
    }

    proof fn lemma_round_trip(v: PipelineView, rest: Seq<char>) {
        PipelineFields::lemma_round_trip(Self::fields(v), rest);
    }

    fn encode(&self, out: &mut Vec<char>) {
        let ghost v = self.deep_view();
        let ghost h0 = out@;
        self.namespace.encode(out);
        let ghost h1 = out@;
        self.id.encode(out);
        let ghost h2 = out@;
        self.name.encode(out);
        let ghost h3 = out@;
        self.description.encode(out);
        let ghost h4 = out@;
        self.last_run_id.encode(out);
        let ghost h5 = out@;
        self.last_run_time.encode(out);
        let ghost h6 = out@;
        self.parallelism.encode(out);
        let ghost h7 = out@;
        self.created.encode(out);
        let ghost h8 = out@;
        self.modified.encode(out);
        let ghost h9 = out@;
        self.state.encode(out);
        let ghost h10 = out@;
        self.tasks.encode(out);
        let ghost h11 = out@;
        self.triggers.encode(out);
        let ghost h12 = out@;
        self.notifiers.encode(out);
        let ghost h13 = out@;
        self.store_keys.encode(out);
        proof {
            let s14 = Vec::<String>::encoded(v.store_keys);
            let s13 = StringMap::<PipelineNotifierSettings>::encoded(v.notifiers) + s14;
            lemma_concat_assoc(
                h12,
                StringMap::<PipelineNotifierSettings>::encoded(v.notifiers),
                s14,
            );
            let s12 = StringMap::<PipelineTriggerSettings>::encoded(v.triggers) + s13;
            lemma_concat_assoc(h11, StringMap::<PipelineTriggerSettings>::encoded(v.triggers), s13);
            let s11 = StringMap::<Task>::encoded(v.tasks) + s12;
            lemma_concat_assoc(h10, StringMap::<Task>::encoded(v.tasks), s12);
            let s10 = PipelineState::encoded(v.state) + s11;
            lemma_concat_assoc(h9, PipelineState::encoded(v.state), s11);
            let s9 = u64::encoded(v.modified) + s10;
            lemma_concat_assoc(h8, u64::encoded(v.modified), s10);
            let s8 = u64::encoded(v.created) + s9;
            lemma_concat_assoc(h7, u64::encoded(v.created), s9);
            let s7 = u64::encoded(v.parallelism) + s8;
            lemma_concat_assoc(h6, u64::encoded(v.parallelism), s8);
            let s6 = u64::encoded(v.last_run_time) + s7;
            lemma_concat_assoc(h5, u64::encoded(v.last_run_time), s7);
            let s5 = u64::encoded(v.last_run_id) + s6;
            lemma_concat_assoc(h4, u64::encoded(v.last_run_id), s6);
            let s4 = String::encoded(v.description) + s5;
            lemma_concat_assoc(h3, String::encoded(v.description), s5);
            let s3 = String::encoded(v.name) + s4;
            lemma_concat_assoc(h2, String::encoded(v.name), s4);
            let s2 = String::encoded(v.id) + s3;
            lemma_concat_assoc(h1, String::encoded(v.id), s3);
            let s1 = String::encoded(v.namespace) + s2;
            lemma_concat_assoc(h0, String::encoded(v.namespace), s2);
        }
    }

    fn decode(text: &Vec<char>, at: usize) -> (r: Option<(Self, usize)>) {
        match PipelineFields::decode(text, at) {
            Some((fields, next)) => {
                let (namespace, (id, (name, (description, (last_run_id, (last_run_time,
                    (parallelism, (created, (modified, (state, (tasks, (triggers, (notifiers,
                    store_keys))))))))))))) = fields;
                Some((Pipeline {
                    namespace,
                    id,
                    name,
                    description,
                    last_run_id,
                    last_run_time,
                    parallelism,
                    created,
                    modified,
                    state,
                    tasks,
                    triggers,
                    notifiers,
                    store_keys,
                }, next))
            },
            None => None,
        }
    }
}

impl Pipeline {
    /// The fields of `v`, in the order in which they are written.
    pub open spec fn fields(v: PipelineView) -> <PipelineFields as DeepView>::V {
        (v.namespace, (v.id, (v.name, (v.description, (v.last_run_id, (v.last_run_time,
            (v.parallelism, (v.created, (v.modified, (v.state, (v.tasks, (v.triggers, (v.notifiers,
            v.store_keys)))))))))))))
    }

    /// The value that holds `fields`.
    pub open spec fn of_fields(fields: <PipelineFields as DeepView>::V) -> PipelineView {
        PipelineView {
            namespace: fields.0,
            id: fields.1.0,
            name: fields.1.1.0,
            description: fields.1.1.1.0,
            last_run_id: fields.1.1.1.1.0,
            last_run_time: fields.1.1.1.1.1.0,
            parallelism: fields.1.1.1.1.1.1.0,
            created: fields.1.1.1.1.1.1.1.0,
            modified: fields.1.1.1.1.1.1.1.1.0,
            state: fields.1.1.1.1.1.1.1.1.1.0,
            tasks: fields.1.1.1.1.1.1.1.1.1.1.0,
            triggers: fields.1.1.1.1.1.1.1.1.1.1.1.0,
            notifiers: fields.1.1.1.1.1.1.1.1.1.1.1.1.0,
            store_keys: fields.1.1.1.1.1.1.1.1.1.1.1.1.1,
        }
    }
}

/// The fields of a [`Namespace`], in the order in which they are written.
pub type NamespaceFields = (String, (String, (String, (u64, u64))));

impl Codec for Namespace {
    open spec fn sound(v: NamespaceView) -> bool {
        NamespaceFields::sound(Self::fields(v))
    }

    open spec fn encoded(v: NamespaceView) -> Seq<char> {
        NamespaceFields::encoded(Self::fields(v))
    }

    open spec fn decoded(text: Seq<char>) -> Option<(NamespaceView, Seq<char>)> {
        match NamespaceFields::decoded(text) {
            Some((fields, rest)) => Some((Self::of_fields(fields), rest)),
            None => None,
        }
    }

    proof fn lemma_round_trip(v: NamespaceView, rest: Seq<char>) {
        NamespaceFields::lemma_round_trip(Self::fields(v), rest);
    }

    fn encode(&self, out: &mut Vec<char>) {
        let ghost v = self.deep_view();
        let ghost h0 = out@;
        self.id.encode(out);
        let ghost h1 = out@;
        self.name.encode(out);
        let ghost h2 = out@;
        self.description.encode(out);
        let ghost h3 = out@;
        self.created.encode(out);
        let ghost h4 = out@;
        self.modified.encode(out);
        proof {
            let s5 = u64::encoded(v.modified);
            let s4 = u64::encoded(v.created) + s5;
            lemma_concat_assoc(h3, u64::encoded(v.created), s5);
            let s3 = String::encoded(v.description) + s4;
            lemma_concat_assoc(h2, String::encoded(v.description), s4);
            let s2 = String::encoded(v.name) + s3;
            lemma_concat_assoc(h1, String::encoded(v.name), s3);
            let s1 = String::encoded(v.id) + s2;
            lemma_concat_assoc(h0, String::encoded(v.id), s2);
        }
    }

    fn decode(text: &Vec<char>, at: usize) -> (r: Option<(Self, usize)>) {
        match NamespaceFields::decode(text, at) {
            Some(((id, (name, (description, (created, modified)))), next)) => {
                Some((Namespace { id, name, description, created, modified }, next))
            },
            None => None,
        }
    }
}

impl Namespace {
    /// The fields of `v`, in the order in which they are written.
    pub open spec fn fields(v: NamespaceView) -> <NamespaceFields as DeepView>::V {
        (v.id, (v.name, (v.description, (v.created, v.modified))))
    }

    /// The value that holds `fields`.
    pub open spec fn of_fields(fields: <NamespaceFields as DeepView>::V) -> NamespaceView {
        NamespaceView {
            id: fields.0,
            name: fields.1.0,
            description: fields.1.1.0,
            created: fields.1.1.1.0,
            modified: fields.1.1.1.1,
        }
    }
}

/// The fields of a [`RunFailureInfo`], in the order in which they are written.
pub type RunFailureInfoFields = (RunFailureReason, String);

impl Codec for RunFailureInfo {
    open spec fn sound(v: RunFailureInfoView) -> bool {
        RunFailureInfoFields::sound(Self::fields(v))
    }

    open spec fn encoded(v: RunFailureInfoView) -> Seq<char> {
        RunFailureInfoFields::encoded(Self::fields(v))
    }

    open spec fn decoded(text: Seq<char>) -> Option<(RunFailureInfoView, Seq<char>)> {
        match RunFailureInfoFields::decoded(text) {
            Some((fields, rest)) => Some((Self::of_fields(fields), rest)),
            None => None,
        }
    }

    proof fn lemma_round_trip(v: RunFailureInfoView, rest: Seq<char>) {
        RunFailureInfoFields::lemma_round_trip(Self::fields(v), rest);
    }

    fn encode(&self, out: &mut Vec<char>) {
        let ghost v = self.deep_view();
        let ghost h0 = out@;
        self.reason.encode(out);
        let ghost h1 = out@;
        self.description.encode(out);
        proof {
            let s2 = String::encoded(v.description);
            let s1 = RunFailureReason::encoded(v.reason) + s2;
            lemma_concat_assoc(h0, RunFailureReason::encoded(v.reason), s2);
        }
    }

    fn decode(text: &Vec<char>, at: usize) -> (r: Option<(Self, usize)>) {
        match RunFailureInfoFields::decode(text, at) {
            Some(((reason, description), next)) => {
                Some((RunFailureInfo { reason, description }, next))
            },
            None => None,
        }
    }
}

impl RunFailureInfo {
    /// The fields of `v`, in the order in which they are written.
    pub open spec fn fields(v: RunFailureInfoView) -> <RunFailureInfoFields as DeepView>::V {
        (v.reason, v.description)
    }

    /// The value that holds `fields`.
    pub open spec fn of_fields(
        fields: <RunFailureInfoFields as DeepView>::V,
    ) -> RunFailureInfoView {
        RunFailureInfoView {
            reason: fields.0,
            description: fields.1,
        }
    }
}

/// The fields of a [`RunTriggerInfo`], in the order in which they are written.
pub type RunTriggerInfoFields = (String, String);

impl Codec for RunTriggerInfo {
    open spec fn sound(v: RunTriggerInfoView) -> bool {
        RunTriggerInfoFields::sound(Self::fields(v))
    }

    open spec fn encoded(v: RunTriggerInfoView) -> Seq<char> {
        RunTriggerInfoFields::encoded(Self::fields(v))
    }

    open spec fn decoded(text: Seq<char>) -> Option<(RunTriggerInfoView, Seq<char>)> {
        match RunTriggerInfoFields::decoded(text) {
            Some((fields, rest)) => Some((Self::of_fields(fields), rest)),
            None => None,
        }
    }

    proof fn lemma_round_trip(v: RunTriggerInfoView, rest: Seq<char>) {
        RunTriggerInfoFields::lemma_round_trip(Self::fields(v), rest);
    }

    fn encode(&self, out: &mut Vec<char>) {
        let ghost v = self.deep_view();
        let ghost h0 = out@;
        self.kind.encode(out);
        let ghost h1 = out@;
        self.label.encode(out);
        proof {
            let s2 = String::encoded(v.label);
            let s1 = String::encoded(v.kind) + s2;
            lemma_concat_assoc(h0, String::encoded(v.kind), s2);
        }
    }

    fn decode(text: &Vec<char>, at: usize) -> (r: Option<(Self, usize)>) {
        match RunTriggerInfoFields::decode(text, at) {
            Some(((kind, label), next)) => {
                Some((RunTriggerInfo { kind, label }, next))
            },
            None => None,
        }
    }
}

impl RunTriggerInfo {
    /// The fields of `v`, in the order in which they are written.
    pub open spec fn fields(v: RunTriggerInfoView) -> <RunTriggerInfoFields as DeepView>::V {
        (v.kind, v.label)
    }

    /// The value that holds `fields`.
    pub open spec fn of_fields(
        fields: <RunTriggerInfoFields as DeepView>::V,
    ) -> RunTriggerInfoView {
        RunTriggerInfoView {
            kind: fields.0,
            label: fields.1,
        }
    }
}

/// The fields of a [`RunStoreInfo`], in the order in which they are written.
pub type RunStoreInfoFields = (bool, Vec<String>);

impl Codec for RunStoreInfo {
    open spec fn sound(v: RunStoreInfoView) -> bool {
        RunStoreInfoFields::sound(Self::fields(v))
    }

    open spec fn encoded(v: RunStoreInfoView) -> Seq<char> {
        RunStoreInfoFields::encoded(Self::fields(v))
    }

    open spec fn decoded(text: Seq<char>) -> Option<(RunStoreInfoView, Seq<char>)> {
        match RunStoreInfoFields::decoded(text) {
            Some((fields, rest)) => Some((Self::of_fields(fields), rest)),
            None => None,
        }
    }

    proof fn lemma_round_trip(v: RunStoreInfoView, rest: Seq<char>) {
        RunStoreInfoFields::lemma_round_trip(Self::fields(v), rest);
    }

    fn encode(&self, out: &mut Vec<char>) {
        let ghost v = self.deep_view();
        let ghost h0 = out@;
        self.is_expired.encode(out);
        let ghost h1 = out@;
        self.keys.encode(out);
        proof {
            let s2 = Vec::<String>::encoded(v.keys);
            let s1 = bool::encoded(v.is_expired) + s2;
            lemma_concat_assoc(h0, bool::encoded(v.is_expired), s2);
        }
    }

    fn decode(text: &Vec<char>, at: usize) -> (r: Option<(Self, usize)>) {
        match RunStoreInfoFields::decode(text, at) {
            Some(((is_expired, keys), next)) => {
                Some((RunStoreInfo { is_expired, keys }, next))
            },
            None => None,
        }
    }
}

impl RunStoreInfo {
    /// The fields of `v`, in the order in which they are written.
    pub open spec fn fields(v: RunStoreInfoView) -> <RunStoreInfoFields as DeepView>::V {
        (v.is_expired, v.keys)
    }

    /// The value that holds `fields`.
    pub open spec fn of_fields(fields: <RunStoreInfoFields as DeepView>::V) -> RunStoreInfoView {
        RunStoreInfoView {
            is_expired: fields.0,
            keys: fields.1,
        }
    }
}

/// The fields of a [`Run`], in the order in which they are written.
pub type RunFields = (String, (String, (u64, (u64, (u64, (RunState, (RunStatus,
    (Option<RunFailureInfo>, (Vec<String>, (RunTriggerInfo, (Vec<Variable>, Option<RunStoreInfo>
    )))))))))));

impl Codec for Run {
    open spec fn sound(v: RunView) -> bool {
        RunFields::sound(Self::fields(v))
    }

    open spec fn encoded(v: RunView) -> Seq<char> {
        RunFields::encoded(Self::fields(v))
    }

    open spec fn decoded(text: Seq<char>) -> Option<(RunView, Seq<char>)> {
        match RunFields::decoded(text) {
            Some((fields, rest)) => Some((Self::of_fields(fields), rest)),
            None => None,
        }
    }

    proof fn lemma_round_trip(v: RunView, rest: Seq<char>) {
        RunFields::lemma_round_trip(Self::fields(v), rest);
    }

    fn encode(&self, out: &mut Vec<char>) {
        let ghost v = self.deep_view();
        let ghost h0 = out@;
        self.namespace.encode(out);
        let ghost h1 = out@;
        self.pipeline.encode(out);
        let ghost h2 = out@;
        self.id.encode(out);
        let ghost h3 = out@;
        self.started.encode(out);
        let ghost h4 = out@;
        self.ended.encode(out);
        let ghost h5 = out@;
        self.state.encode(out);
        let ghost h6 = out@;
        self.status.encode(out);
        let ghost h7 = out@;
        self.failure_info.encode(out);
        let ghost h8 = out@;
        self.task_runs.encode(out);
        let ghost h9 = out@;
        self.trigger.encode(out);
        let ghost h10 = out@;
        self.variables.encode(out);
        let ghost h11 = out@;
        self.store_info.encode(out);
        proof {
            let s12 = Option::<RunStoreInfo>::encoded(v.store_info);
            let s11 = Vec::<Variable>::encoded(v.variables) + s12;
            lemma_concat_assoc(h10, Vec::<Variable>::encoded(v.variables), s12);
            let s10 = RunTriggerInfo::encoded(v.trigger) + s11;
            lemma_concat_assoc(h9, RunTriggerInfo::encoded(v.trigger), s11);
            let s9 = Vec::<String>::encoded(v.task_runs) + s10;
            lemma_concat_assoc(h8, Vec::<String>::encoded(v.task_runs), s10);
            let s8 = Option::<RunFailureInfo>::encoded(v.failure_info) + s9;
            lemma_concat_assoc(h7, Option::<RunFailureInfo>::encoded(v.failure_info), s9);
            let s7 = RunStatus::encoded(v.status) + s8;
            lemma_concat_assoc(h6, RunStatus::encoded(v.status), s8);
            let s6 = RunState::encoded(v.state) + s7;
            lemma_concat_assoc(h5, RunState::encoded(v.state), s7);
            let s5 = u64::encoded(v.ended) + s6;
            lemma_concat_assoc(h4, u64::encoded(v.ended), s6);
            let s4 = u64::encoded(v.started) + s5;
            lemma_concat_assoc(h3, u64::encoded(v.started), s5);
            let s3 = u64::encoded(v.id) + s4;
            lemma_concat_assoc(h2, u64::encoded(v.id), s4);
            let s2 = String::encoded(v.pipeline) + s3;
            lemma_concat_assoc(h1, String::encoded(v.pipeline), s3);
            let s1 = String::encoded(v.namespace) + s2;
            lemma_concat_assoc(h0, String::encoded(v.namespace), s2);
        }
    }

    fn decode(text: &Vec<char>, at: usize) -> (r: Option<(Self, usize)>) {
        match RunFields::decode(text, at) {
            Some((fields, next)) => {
                let (namespace, (pipeline, (id, (started, (ended, (state, (status, (failure_info,
                    (task_runs, (trigger, (variables, store_info))))))))))) = fields;
                Some((Run {
                    namespace,
                    pipeline,
                    id,
                    started,
                    ended,
                    state,
                    status,
                    failure_info,
                    task_runs,
                    trigger,
                    variables,
                    store_info,
                }, next))
            },
            None => None,
        }
    }
}

impl Run {
    /// The fields of `v`, in the order in which they are written.
    pub open spec fn fields(v: RunView) -> <RunFields as DeepView>::V {
        (v.namespace, (v.pipeline, (v.id, (v.started, (v.ended, (v.state, (v.status,
            (v.failure_info, (v.task_runs, (v.trigger, (v.variables, v.store_info)))))))))))
    }

    /// The value that holds `fields`.
    pub open spec fn of_fields(fields: <RunFields as DeepView>::V) -> RunView {
        RunView {
            namespace: fields.0,
            pipeline: fields.1.0,
            id: fields.1.1.0,
            started: fields.1.1.1.0,
            ended: fields.1.1.1.1.0,
            state: fields.1.1.1.1.1.0,
            status: fields.1.1.1.1.1.1.0,
            failure_info: fields.1.1.1.1.1.1.1.0,
            task_runs: fields.1.1.1.1.1.1.1.1.0,
            trigger: fields.1.1.1.1.1.1.1.1.1.0,
            variables: fields.1.1.1.1.1.1.1.1.1.1.0,
            store_info: fields.1.1.1.1.1.1.1.1.1.1.1,
        }
    }
}

/// The fields of a [`TaskRun`], in the order in which they are written.
pub type TaskRunFields = (String, (String, (u64, (String, (TaskRunState, (Option<u8>,
    (Option<RunFailureInfo>, (Option<String>, (Option<String>, (u64, u64))))))))));

impl Codec for TaskRun {
    open spec fn sound(v: TaskRunView) -> bool {
        TaskRunFields::sound(Self::fields(v))
    }

    open spec fn encoded(v: TaskRunView) -> Seq<char> {
        TaskRunFields::encoded(Self::fields(v))
    }

    open spec fn decoded(text: Seq<char>) -> Option<(TaskRunView, Seq<char>)> {
        match TaskRunFields::decoded(text) {
            Some((fields, rest)) => Some((Self::of_fields(fields), rest)),
            None => None,
        }
    }

    proof fn lemma_round_trip(v: TaskRunView, rest: Seq<char>) {
        TaskRunFields::lemma_round_trip(Self::fields(v), rest);
    }

    fn encode(&self, out: &mut Vec<char>) {
        let ghost v = self.deep_view();
        let ghost h0 = out@;
        self.namespace.encode(out);
        let ghost h1 = out@;
        self.pipeline.encode(out);
        let ghost h2 = out@;
        self.run.encode(out);
        let ghost h3 = out@;
        self.id.encode(out);
        let ghost h4 = out@;
        self.state.encode(out);
        let ghost h5 = out@;
        self.exit_code.encode(out);
        let ghost h6 = out@;
        self.failure.encode(out);
        let ghost h7 = out@;
        self.scheduler_id.encode(out);
        let ghost h8 = out@;
        self.url.encode(out);
        let ghost h9 = out@;
        self.started.encode(out);
        let ghost h10 = out@;
        self.ended.encode(out);
        proof {
            let s11 = u64::encoded(v.ended);
            let s10 = u64::encoded(v.started) + s11;
            lemma_concat_assoc(h9, u64::encoded(v.started), s11);
            let s9 = Option::<String>::encoded(v.url) + s10;
            lemma_concat_assoc(h8, Option::<String>::encoded(v.url), s10);
            let s8 = Option::<String>::encoded(v.scheduler_id) + s9;
            lemma_concat_assoc(h7, Option::<String>::encoded(v.scheduler_id), s9);
            let s7 = Option::<RunFailureInfo>::encoded(v.failure) + s8;
            lemma_concat_assoc(h6, Option::<RunFailureInfo>::encoded(v.failure), s8);
            let s6 = Option::<u8>::encoded(v.exit_code) + s7;
            lemma_concat_assoc(h5, Option::<u8>::encoded(v.exit_code), s7);
            let s5 = TaskRunState::encoded(v.state) + s6;
            lemma_concat_assoc(h4, TaskRunState::encoded(v.state), s6);
            let s4 = String::encoded(v.id) + s5;
            lemma_concat_assoc(h3, String::encoded(v.id), s5);
            let s3 = u64::encoded(v.run) + s4;
            lemma_concat_assoc(h2, u64::encoded(v.run), s4);
            let s2 = String::encoded(v.pipeline) + s3;
            lemma_concat_assoc(h1, String::encoded(v.pipeline), s3);
            let s1 = String::encoded(v.namespace) + s2;
            lemma_concat_assoc(h0, String::encoded(v.namespace), s2);
        }
    }

    fn decode(text: &Vec<char>, at: usize) -> (r: Option<(Self, usize)>) {
        match TaskRunFields::decode(text, at) {
            Some((fields, next)) => {
                let (namespace, (pipeline, (run, (id, (state, (exit_code, (failure, (scheduler_id,
                    (url, (started, ended)))))))))) = fields;
                Some((TaskRun {
                    namespace,
                    pipeline,
                    run,
                    id,
                    state,
                    exit_code,
                    failure,
                    scheduler_id,
                    url,
                    started,
                    ended,
                }, next))
            },
            None => None,
        }
    }
}

impl TaskRun {
    /// The fields of `v`, in the order in which they are written.
    pub open spec fn fields(v: TaskRunView) -> <TaskRunFields as DeepView>::V {
        (v.namespace, (v.pipeline, (v.run, (v.id, (v.state, (v.exit_code, (v.failure,
            (v.scheduler_id, (v.url, (v.started, v.ended))))))))))
    }

    /// The value that holds `fields`.
    pub open spec fn of_fields(fields: <TaskRunFields as DeepView>::V) -> TaskRunView {
        TaskRunView {
            namespace: fields.0,
            pipeline: fields.1.0,
            run: fields.1.1.0,
            id: fields.1.1.1.0,
            state: fields.1.1.1.1.0,
            exit_code: fields.1.1.1.1.1.0,
            failure: fields.1.1.1.1.1.1.0,
            scheduler_id: fields.1.1.1.1.1.1.1.0,
            url: fields.1.1.1.1.1.1.1.1.0,
            started: fields.1.1.1.1.1.1.1.1.1.0,
            ended: fields.1.1.1.1.1.1.1.1.1.1,
        }
    }
}

/// Reading the text form of a task gives the task back.
pub proof fn lemma_task_round_trip(task: TaskView)
    requires
        Task::sound(task),
    ensures
        Task::decoded(Task::encoded(task)) == Some((task, Seq::<char>::empty())),
{
    lemma_text_round_trip::<Task>(task);
}

/// Reading the text form of a pipeline gives the pipeline back.
pub proof fn lemma_pipeline_round_trip(pipeline: PipelineView)
    requires
        Pipeline::sound(pipeline),
    ensures
        Pipeline::decoded(Pipeline::encoded(pipeline)) == Some((pipeline, Seq::<char>::empty())),
{
    lemma_text_round_trip::<Pipeline>(pipeline);
}

/// Reading the text form of a run gives the run back.
pub proof fn lemma_run_round_trip(run: RunView)
    requires
        Run::sound(run),
    ensures
        Run::decoded(Run::encoded(run)) == Some((run, Seq::<char>::empty())),
{
    lemma_text_round_trip::<Run>(run);
}

} // verus!
