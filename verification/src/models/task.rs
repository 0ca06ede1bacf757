//! Tasks: one container workload of a pipeline and what it depends on.

use crate::models::{Variable, VariableOwner, VariableView};
use crate::string_map::StringMap;
use crate::text::{lowercase, lowercase_of, owned, same};
use vstd::prelude::*;

verus! {

/// What a task asks of a task it depends on before it may start.
#[derive(Debug, Clone, Copy, PartialEq, Eq, Structural)]
pub enum RequiredParentStatus {
    /// No requirement could be read; never satisfied.
    Unknown,
    /// The parent has finished, whatever its outcome.
    Any,
    /// The parent has finished successfully.
    Success,
    /// The parent has finished with a failure.
    Failure,
}

impl DeepView for RequiredParentStatus {
    type V = RequiredParentStatus;

    open spec fn deep_view(&self) -> RequiredParentStatus {
        *self
    }
}

/// The required parent status that a lowercase word names.
pub open spec fn required_parent_status_of_word(word: Seq<char>) -> Result<RequiredParentStatus, ()> {
    if word == "unknown"@ {
        Ok(RequiredParentStatus::Unknown)
    } else if word == "any"@ {
        Ok(RequiredParentStatus::Any)
    } else if word == "success"@ {
        Ok(RequiredParentStatus::Success)
    } else if word == "failure"@ {
        Ok(RequiredParentStatus::Failure)
    } else {
        Err(())
    }
}

impl RequiredParentStatus {
    /// The number that stands for this required parent status on the wire.
    pub open spec fn code(self) -> i32 {
        match self {
            RequiredParentStatus::Unknown => 0,
            RequiredParentStatus::Any => 1,
            RequiredParentStatus::Success => 2,
            RequiredParentStatus::Failure => 3,
        }
    }

    /// The required parent status that a wire number stands for.
    pub open spec fn of_code(code: i32) -> Option<RequiredParentStatus> {
        if code == 0 {
            Some(RequiredParentStatus::Unknown)
        } else if code == 1 {
            Some(RequiredParentStatus::Any)
        } else if code == 2 {
            Some(RequiredParentStatus::Success)
        } else if code == 3 {
            Some(RequiredParentStatus::Failure)
        } else {
            None
        }
    }

    /// Encodes the required parent status for the wire.
    pub fn to_i32(&self) -> (r: i32)
        ensures
            r == self.code(),
            RequiredParentStatus::of_code(r) == Some(*self),
    {
        match self {
            RequiredParentStatus::Unknown => 0,
            RequiredParentStatus::Any => 1,
            RequiredParentStatus::Success => 2,
            RequiredParentStatus::Failure => 3,
        }
    }

    /// Decodes a wire number; a number that stands for no required parent status is refused.
    pub fn from_i32(code: i32) -> (r: Option<RequiredParentStatus>)
        ensures
            r == RequiredParentStatus::of_code(code),
            r matches Some(v) ==> v.code() == code,
    {
        if code == 0 {
            Some(RequiredParentStatus::Unknown)
        } else if code == 1 {
            Some(RequiredParentStatus::Any)
        } else if code == 2 {
            Some(RequiredParentStatus::Success)
        } else if code == 3 {
            Some(RequiredParentStatus::Failure)
        } else {
            None
        }
    }

    /// Reads a required parent status from a word that is already in lowercase.
    pub fn from_lowercase(word: &str) -> (r: Result<RequiredParentStatus, ()>)
        ensures
            r == required_parent_status_of_word(word@),
    {
        if same(word, "unknown") {
            Ok(RequiredParentStatus::Unknown)
        } else if same(word, "any") {
            Ok(RequiredParentStatus::Any)
        } else if same(word, "success") {
            Ok(RequiredParentStatus::Success)
        } else if same(word, "failure") {
            Ok(RequiredParentStatus::Failure)
        } else {
            Err(())
        }
    }

    /// Reads a required parent status from its name, whatever the case of its letters.
    pub fn from_str(input: &str) -> (r: Result<RequiredParentStatus, ()>)
        ensures
            r == required_parent_status_of_word(lowercase_of(input@)),
    {
        let word = lowercase(input);
        RequiredParentStatus::from_lowercase(word.as_str())
    }
}

/// Credentials for the registry that holds a task's image.
#[derive(Debug, PartialEq, Eq)]
pub struct RegistryAuth {
    pub user: String,
    pub pass: String,
}

/// What a [`RegistryAuth`] holds.
pub struct RegistryAuthView {
    pub user: Seq<char>,
    pub pass: Seq<char>,
}

impl DeepView for RegistryAuth {
    type V = RegistryAuthView;

    open spec fn deep_view(&self) -> RegistryAuthView {
        RegistryAuthView { user: self.user@, pass: self.pass@ }
    }
}

impl Clone for RegistryAuth {
    fn clone(&self) -> (r: Self)
        ensures
            r.deep_view() == self.deep_view(),
    {
        RegistryAuth { user: self.user.clone(), pass: self.pass.clone() }
    }
}

/// A script that replaces the image's entrypoint: the shell that runs it and
/// the script itself, base64-encoded.
#[derive(Debug, PartialEq, Eq)]
pub struct Exec {
    pub shell: String,
    pub script: String,
}

/// What an [`Exec`] holds.
pub struct ExecView {
    pub shell: Seq<char>,
    pub script: Seq<char>,
}

impl DeepView for Exec {
    type V = ExecView;

    open spec fn deep_view(&self) -> ExecView {
        ExecView { shell: self.shell@, script: self.script@ }
    }
}

impl Clone for Exec {
    fn clone(&self) -> (r: Self)
        ensures
            r.deep_view() == self.deep_view(),
    {
        Exec { shell: self.shell.clone(), script: self.script.clone() }
    }
}

/// One container workload of a pipeline.
#[derive(Debug, PartialEq, Eq)]
pub struct Task {
    /// Identifier, unique within the pipeline.
    pub id: String,
    pub description: Option<String>,
    /// The container image to run.
    pub image: String,
    pub registry_auth: Option<RegistryAuth>,
    /// For each task this one waits for, what that task must have come to.
    pub depends_on: StringMap<RequiredParentStatus>,
    /// Environment variables of the task's container.
    pub variables: Vec<Variable>,
    /// A script that replaces the image's entrypoint.
    pub entrypoint: Option<Exec>,
}

/// What a [`Task`] holds.
pub struct TaskView {
    pub id: Seq<char>,
    pub description: Option<Seq<char>>,
    pub image: Seq<char>,
    pub registry_auth: Option<RegistryAuthView>,
    pub depends_on: Seq<(Seq<char>, RequiredParentStatus)>,
    pub variables: Seq<VariableView>,
    pub entrypoint: Option<ExecView>,
}

impl DeepView for Task {
    type V = TaskView;

    open spec fn deep_view(&self) -> TaskView {
        TaskView {
            id: self.id@,
            description: self.description.deep_view(),
            image: self.image@,
            registry_auth: self.registry_auth.deep_view(),
            depends_on: self.depends_on@,
            variables: self.variables.deep_view(),
            entrypoint: self.entrypoint.deep_view(),
        }
    }
}

/// The variables that a map of keys and values gives: one per entry, in the
/// map's order, each owned by the user.
pub open spec fn user_variables(entries: Seq<(Seq<char>, String)>) -> Seq<VariableView> {
    Seq::new(
        entries.len(),
        |i: int| VariableView { key: entries[i].0, value: entries[i].1@, owner: VariableOwner::User },
    )
}

/// `vars` with every owner set to the user.
pub open spec fn owned_by_user(vars: Seq<VariableView>) -> Seq<VariableView> {
    Seq::new(
        vars.len(),
        |i: int| VariableView { key: vars[i].key, value: vars[i].value, owner: VariableOwner::User },
    )
}

impl Clone for Task {
    fn clone(&self) -> (r: Self)
        ensures
            r.deep_view() == self.deep_view(),
    {
        let description = match &self.description {
            Some(d) => Some(d.clone()),
            None => None,
        };
        let registry_auth = match &self.registry_auth {
            Some(a) => Some(a.clone()),
            None => None,
        };
        let entrypoint = match &self.entrypoint {
            Some(e) => Some(e.clone()),
            None => None,
        };
        let variables = self.variables.clone();
        assert(variables.deep_view() =~= self.variables.deep_view());
        let depends_on = self.depends_on.clone();
        assert(depends_on@ =~= self.depends_on@);
        Task {
            id: self.id.clone(),
            description,
            image: self.image.clone(),
            registry_auth,
            depends_on,
            variables,
            entrypoint,
        }
    }
}

impl Task {
    /// A task that runs `image`, with nothing else set.
    pub fn new(id: &str, image: &str) -> (r: Self)
        ensures
            r.deep_view() == (TaskView {
                id: id@,
                description: None,
                image: image@,
                registry_auth: None,
                depends_on: Seq::empty(),
                variables: Seq::empty(),
                entrypoint: None,
            }),
    {
        let r = Task {
            id: owned(id),
            description: None,
            image: owned(image),
            registry_auth: None,
            depends_on: StringMap::new(),
            variables: Vec::new(),
            entrypoint: None,
        };
        assert(r.variables.deep_view() =~= Seq::empty());
        r
    }

    /// Sets the description.
    pub fn description(self, description: &str) -> (r: Self)
        ensures
            r.deep_view() == (TaskView { description: Some(description@), ..self.deep_view() }),
    {
        let mut r = self;
        r.description = Some(owned(description));
        r
    }

    /// Sets the registry credentials.
    pub fn registry_auth(self, username: &str, password: &str) -> (r: Self)
        ensures
            r.deep_view() == (TaskView {
                registry_auth: Some(RegistryAuthView { user: username@, pass: password@ }),
                ..self.deep_view()
            }),
    {
        let mut r = self;
        r.registry_auth = Some(RegistryAuth { user: owned(username), pass: owned(password) });
        r
    }

    /// Makes the task wait for `task_id` to reach `state`; a requirement
    /// already set on `task_id` is replaced.
    pub fn depends_on_one(self, task_id: &str, state: RequiredParentStatus) -> (r: Self)
        ensures
            r.deep_view() == (TaskView {
                depends_on: crate::string_map::bind(self.deep_view().depends_on, task_id@, state),
                ..self.deep_view()
            }),
    {
        let mut r = self;
        r.depends_on.insert(owned(task_id), state);
        r
    }

    /// Adds every requirement of `depends_on`, in its order; each replaces
    /// the requirement already set on its task.
    pub fn depends_on_many(self, depends_on: StringMap<RequiredParentStatus>) -> (r: Self)
        ensures
            r.deep_view() == (TaskView {
                depends_on: crate::string_map::bind_all(self.deep_view().depends_on, depends_on@),
                ..self.deep_view()
            }),
    {
        let mut r = self;
        r.depends_on.extend(depends_on);
        r
    }

    /// Replaces the task's variables by one per entry of `variables`, each
    /// owned by the user.
    pub fn variables(self, variables: StringMap<String>) -> (r: Self)
        ensures
            r.deep_view() == (TaskView {
                variables: user_variables(variables@),
                ..self.deep_view()
            }),
    {
        let mut vars: Vec<Variable> = Vec::new();
        let n: usize = variables.len();
        let mut i: usize = 0;
        while i < n
            invariant
                n == variables@.len(),
                i <= n,
                vars@.len() == i,
                forall|j: int|
                    0 <= j < i ==> (#[trigger] vars@[j]).deep_view() == user_variables(
                        variables@,
                    )[j],
            decreases n - i,
        {
            vars.push(
                Variable {
                    key: variables.key_at(i).clone(),
                    value: variables.value_at(i).clone(),
                    owner: VariableOwner::User,
                },
            );
            i += 1;
        }
        assert(vars.deep_view() =~= user_variables(variables@));
        let mut r = self;
        r.variables = vars;
        r
    }

    /// Sets the script that replaces the entrypoint.
    pub fn entrypoint(self, script: Exec) -> (r: Self)
        ensures
            r.deep_view() == (TaskView { entrypoint: Some(script.deep_view()), ..self.deep_view() }),
    {
        let mut r = self;
        r.entrypoint = Some(script);
        r
    }

    /// A copy of the task in which every variable is owned by the user.
    pub fn user_owned(&self) -> (r: Self)
        ensures
            r.deep_view() == (TaskView {
                variables: owned_by_user(self.deep_view().variables),
                ..self.deep_view()
            }),
    {
        let mut r = self.clone();
        let mut vars: Vec<Variable> = Vec::new();
        let n: usize = self.variables.len();
        let mut i: usize = 0;
        while i < n
            invariant
                n == self.variables@.len(),
                i <= n,
                vars@.len() == i,
                forall|j: int|
                    0 <= j < i ==> (#[trigger] vars@[j]).deep_view() == owned_by_user(
                        self.variables.deep_view(),
                    )[j],
            decreases n - i,
        {
            vars.push(
                Variable {
                    key: self.variables[i].key.clone(),
                    value: self.variables[i].value.clone(),
                    owner: VariableOwner::User,
                },
            );
            i += 1;
        }
        assert(vars.deep_view() =~= owned_by_user(self.variables.deep_view()));
        r.variables = vars;
        r
    }
}

} // verus!
