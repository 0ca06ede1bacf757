//! Pipelines: a graph of tasks with its triggers and notifiers.

use crate::models::pipeline_config::{PipelineConfig, PipelineConfigView};
use crate::models::task::{owned_by_user, Task, TaskView};
use crate::models::epoch;
use crate::string_map::{bind, lemma_deep_bind, StringMap};
use crate::text::{owned, same};
use vstd::prelude::*;

verus! {

/// Whether a pipeline accepts runs.
#[derive(Debug, Clone, Copy, PartialEq, Eq, Structural)]
pub enum PipelineState {
    /// The state could not be determined.
    Unknown,
    /// The pipeline accepts runs.
    Active,
    /// The pipeline accepts no run and drops the events of its triggers.
    Disabled,
}

impl DeepView for PipelineState {
    type V = PipelineState;

    open spec fn deep_view(&self) -> PipelineState {
        *self
    }
}

/// The pipeline state that a name spells, letter for letter.
pub open spec fn pipeline_state_of_name(name: Seq<char>) -> Result<PipelineState, ()> {
    if name == "Unknown"@ {
        Ok(PipelineState::Unknown)
    } else if name == "Active"@ {
        Ok(PipelineState::Active)
    } else if name == "Disabled"@ {
        Ok(PipelineState::Disabled)
    } else {
        Err(())
    }
}

impl PipelineState {
    /// The number that stands for this pipeline state on the wire.
    pub open spec fn code(self) -> i32 {
        match self {
            PipelineState::Unknown => 0,
            PipelineState::Active => 1,
            PipelineState::Disabled => 2,
        }
    }

    /// The pipeline state that a wire number stands for.
    pub open spec fn of_code(code: i32) -> Option<PipelineState> {
        if code == 0 {
            Some(PipelineState::Unknown)
        } else if code == 1 {
            Some(PipelineState::Active)
        } else if code == 2 {
            Some(PipelineState::Disabled)
        } else {
            None
        }
    }

    /// Encodes the pipeline state for the wire.
    pub fn to_i32(&self) -> (r: i32)
        ensures
            r == self.code(),
            PipelineState::of_code(r) == Some(*self),
    {
        match self {
            PipelineState::Unknown => 0,
            PipelineState::Active => 1,
            PipelineState::Disabled => 2,
        }
    }

    /// Decodes a wire number; a number that stands for no pipeline state is refused.
    pub fn from_i32(code: i32) -> (r: Option<PipelineState>)
        ensures
            r == PipelineState::of_code(code),
            r matches Some(v) ==> v.code() == code,
    {
        if code == 0 {
            Some(PipelineState::Unknown)
        } else if code == 1 {
            Some(PipelineState::Active)
        } else if code == 2 {
            Some(PipelineState::Disabled)
        } else {
            None
        }
    }

    /// The name of this pipeline state.
    pub open spec fn name(self) -> Seq<char> {
        match self {
            PipelineState::Unknown => "Unknown"@,
            PipelineState::Active => "Active"@,
            PipelineState::Disabled => "Disabled"@,
        }
    }

    /// The name of this pipeline state, as text.
    pub fn to_string(&self) -> (r: String)
        ensures
            r@ == self.name(),
    {
        match self {
            PipelineState::Unknown => owned("Unknown"),
            PipelineState::Active => owned("Active"),
            PipelineState::Disabled => owned("Disabled"),
        }
    }

    /// Reads a pipeline state from its name; the name must match letter for letter.
    pub fn from_str(input: &str) -> (r: Result<PipelineState, ()>)
        ensures
            r == pipeline_state_of_name(input@),
    {
        if same(input, "Unknown") {
            Ok(PipelineState::Unknown)
        } else if same(input, "Active") {
            Ok(PipelineState::Active)
        } else if same(input, "Disabled") {
            Ok(PipelineState::Disabled)
        } else {
            Err(())
        }
    }
}

/// What a [`PipelineTriggerSettings`] or a [`PipelineNotifierSettings`] holds.
pub struct SettingsView {
    pub kind: Seq<char>,
    pub label: Seq<char>,
    pub settings: Seq<(Seq<char>, Seq<char>)>,
    pub error: Option<Seq<char>>,
}

/// What a pipeline hands a trigger when it subscribes to it. Kept so that the
/// subscription can be restored when the trigger restarts.
#[derive(Debug, PartialEq, Eq)]
pub struct PipelineTriggerSettings {
    /// The kind of trigger.
    pub kind: String,
    /// The label that tells this trigger from the pipeline's others.
    pub label: String,
    pub settings: StringMap<String>,
    /// Why the subscription failed, when it did.
    pub error: Option<String>,
}

impl DeepView for PipelineTriggerSettings {
    type V = SettingsView;

    open spec fn deep_view(&self) -> SettingsView {
        SettingsView {
            kind: self.kind@,
            label: self.label@,
            settings: self.settings.deep_view(),
            error: self.error.deep_view(),
        }
    }
}

impl Clone for PipelineTriggerSettings {
    fn clone(&self) -> (r: Self)
        ensures
            r.deep_view() == self.deep_view(),
    {
        let error = match &self.error {
            Some(e) => Some(e.clone()),
            None => None,
        };
        let settings = self.settings.clone();
        assert(settings.deep_view() =~= self.settings.deep_view());
        PipelineTriggerSettings { kind: self.kind.clone(), label: self.label.clone(), settings, error }
    }
}

impl PipelineTriggerSettings {
    /// Settings for the trigger of kind `kind` labelled `label`, with nothing set.
    pub fn new(kind: &str, label: &str) -> (r: Self)
        ensures
            r.deep_view() == (SettingsView {
                kind: kind@,
                label: label@,
                settings: Seq::empty(),
                error: None,
            }),
    {
        let r = PipelineTriggerSettings {
            kind: owned(kind),
            label: owned(label),
            settings: StringMap::new(),
            error: None,
        };
        assert(r.settings.deep_view() =~= Seq::empty());
        r
    }

    /// Replaces the settings.
    pub fn settings(self, settings: StringMap<String>) -> (r: Self)
        ensures
            r.deep_view() == (SettingsView {
                settings: settings.deep_view(),
                ..self.deep_view()
            }),
    {
        let mut r = self;
        r.settings = settings;
        r
    }
}

/// What a pipeline hands a notifier when it subscribes to it. Kept so that the
/// subscription can be restored when the notifier restarts.
#[derive(Debug, PartialEq, Eq)]
pub struct PipelineNotifierSettings {
    /// The kind of notifier.
    pub kind: String,
    /// The label that tells this notifier from the pipeline's others.
    pub label: String,
    pub settings: StringMap<String>,
    /// Why the subscription failed, when it did.
    pub error: Option<String>,
}

impl DeepView for PipelineNotifierSettings {
    type V = SettingsView;

    open spec fn deep_view(&self) -> SettingsView {
        SettingsView {
            kind: self.kind@,
            label: self.label@,
            settings: self.settings.deep_view(),
            error: self.error.deep_view(),
        }
    }
}

impl Clone for PipelineNotifierSettings {
    fn clone(&self) -> (r: Self)
        ensures
            r.deep_view() == self.deep_view(),
    {
        let error = match &self.error {
            Some(e) => Some(e.clone()),
            None => None,
        };
        let settings = self.settings.clone();
        assert(settings.deep_view() =~= self.settings.deep_view());
        PipelineNotifierSettings { kind: self.kind.clone(), label: self.label.clone(), settings, error }
    }
}

impl PipelineNotifierSettings {
    /// Settings for the notifier of kind `kind` labelled `label`, with nothing set.
    pub fn new(kind: &str, label: &str) -> (r: Self)
        ensures
            r.deep_view() == (SettingsView {
                kind: kind@,
                label: label@,
                settings: Seq::empty(),
                error: None,
            }),
    {
        let r = PipelineNotifierSettings {
            kind: owned(kind),
            label: owned(label),
            settings: StringMap::new(),
            error: None,
        };
        assert(r.settings.deep_view() =~= Seq::empty());
        r
    }

    /// Replaces the settings.
    pub fn settings(self, settings: StringMap<String>) -> (r: Self)
        ensures
            r.deep_view() == (SettingsView {
                settings: settings.deep_view(),
                ..self.deep_view()
            }),
    {
        let mut r = self;
        r.settings = settings;
        r
    }
}

/// A graph of tasks, with the triggers that start it and the notifiers that
/// report on it.
#[derive(Debug, PartialEq, Eq)]
pub struct Pipeline {
    /// The namespace the pipeline belongs to.
    pub namespace: String,
    /// Identifier, unique within the namespace.
    pub id: String,
    /// Name meant for display.
    pub name: String,
    pub description: String,
    /// Number of the last run; 0 when the pipeline never ran.
    pub last_run_id: u64,
    /// Start time of the last run; 0 when the pipeline never ran.
    pub last_run_time: u64,
    /// How many runs may be running at once; 0 sets no limit.
    pub parallelism: u64,
    /// Creation time, in milliseconds since the Unix epoch.
    pub created: u64,
    /// Time of the last change to the pipeline's own attributes.
    pub modified: u64,
    pub state: PipelineState,
    /// The tasks, by identifier.
    pub tasks: StringMap<Task>,
    /// The trigger settings, by label.
    pub triggers: StringMap<PipelineTriggerSettings>,
    /// The notifier settings, by label.
    pub notifiers: StringMap<PipelineNotifierSettings>,
    /// The keys the pipeline holds in the object store.
    pub store_keys: Vec<String>,
}

/// What a [`Pipeline`] holds.
pub struct PipelineView {
    pub namespace: Seq<char>,
    pub id: Seq<char>,
    pub name: Seq<char>,
    pub description: Seq<char>,
    pub last_run_id: u64,
    pub last_run_time: u64,
    pub parallelism: u64,
    pub created: u64,
    pub modified: u64,
    pub state: PipelineState,
    pub tasks: Seq<(Seq<char>, TaskView)>,
    pub triggers: Seq<(Seq<char>, SettingsView)>,
    pub notifiers: Seq<(Seq<char>, SettingsView)>,
    pub store_keys: Seq<Seq<char>>,
}

impl DeepView for Pipeline {
    type V = PipelineView;

    open spec fn deep_view(&self) -> PipelineView {
        PipelineView {
            namespace: self.namespace@,
            id: self.id@,
            name: self.name@,
            description: self.description@,
            last_run_id: self.last_run_id,
            last_run_time: self.last_run_time,
            parallelism: self.parallelism,
            created: self.created,
            modified: self.modified,
            state: self.state,
            tasks: self.tasks.deep_view(),
            triggers: self.triggers.deep_view(),
            notifiers: self.notifiers.deep_view(),
            store_keys: self.store_keys.deep_view(),
        }
    }
}

impl Clone for Pipeline {
    fn clone(&self) -> (r: Self)
        ensures
            r.deep_view() == self.deep_view(),
    {
        let tasks = self.tasks.clone();
        assert(tasks.deep_view() =~= self.tasks.deep_view());
        let triggers = self.triggers.clone();
        assert(triggers.deep_view() =~= self.triggers.deep_view());
        let notifiers = self.notifiers.clone();
        assert(notifiers.deep_view() =~= self.notifiers.deep_view());
        let store_keys = self.store_keys.clone();
        assert(store_keys.deep_view() =~= self.store_keys.deep_view());
        Pipeline {
            namespace: self.namespace.clone(),
            id: self.id.clone(),
            name: self.name.clone(),
            description: self.description.clone(),
            last_run_id: self.last_run_id,
            last_run_time: self.last_run_time,
            parallelism: self.parallelism,
            created: self.created,
            modified: self.modified,
            state: self.state,
            tasks,
            triggers,
            notifiers,
            store_keys,
        }
    }
}

/// A task as a pipeline holds it: every variable owned by the user.
pub open spec fn held_task(t: TaskView) -> TaskView {
    TaskView { variables: owned_by_user(t.variables), ..t }
}

/// The tasks of a configuration by identifier: each task is bound to its
/// identifier in turn, so of two tasks with one identifier the later stays,
/// in the place of the earlier.
pub open spec fn tasks_by_id(items: Seq<TaskView>) -> Seq<(Seq<char>, TaskView)>
    decreases items.len(),
{
    if items.len() == 0 {
        Seq::empty()
    } else {
        bind(tasks_by_id(items.drop_last()), items.last().id, held_task(items.last()))
    }
}

/// Trigger or notifier settings by label: each is bound to its label in
/// turn, so of two with one label the later stays, in the place of the
/// earlier.
pub open spec fn settings_by_label(items: Seq<SettingsView>) -> Seq<(Seq<char>, SettingsView)>
    decreases items.len(),
{
    if items.len() == 0 {
        Seq::empty()
    } else {
        bind(settings_by_label(items.drop_last()), items.last().label, items.last())
    }
}

/// The pipeline that a configuration describes: active, never run, holding
/// no store keys, with an empty description where none is given.
pub open spec fn pipeline_of_config(
    namespace: Seq<char>,
    config: PipelineConfigView,
    created: u64,
    modified: u64,
) -> PipelineView {
    PipelineView {
        namespace,
        id: config.id,
        name: config.name,
        description: match config.description {
            Some(d) => d,
            None => Seq::empty(),
        },
        last_run_id: 0,
        last_run_time: 0,
        parallelism: config.parallelism,
        created,
        modified,
        state: PipelineState::Active,
        tasks: tasks_by_id(config.tasks),
        triggers: settings_by_label(config.triggers),
        notifiers: settings_by_label(config.notifiers),
        store_keys: Seq::empty(),
    }
}

fn index_tasks(tasks: &Vec<Task>) -> (r: StringMap<Task>)
    ensures
        r.deep_view() == tasks_by_id(tasks.deep_view()),
{
    let mut r: StringMap<Task> = StringMap::new();
    let n: usize = tasks.len();
    let mut i: usize = 0;
    assert(tasks.deep_view().take(0) =~= Seq::empty());
    assert(r.deep_view() =~= Seq::empty());
    while i < n
        invariant
            n == tasks@.len(),
            i <= n,
            r.deep_view() == tasks_by_id(tasks.deep_view().take(i as int)),
        decreases n - i,
    {
        let held = tasks[i].user_owned();
        let key = tasks[i].id.clone();
        proof {
            use_type_invariant(&r);
            lemma_deep_bind(r@, key@, held);
            let next = tasks.deep_view().take(i as int + 1);
            assert(next.drop_last() =~= tasks.deep_view().take(i as int));
            assert(next.last() == tasks@[i as int].deep_view());
        }
        r.insert(key, held);
        i += 1;
    }
    assert(tasks.deep_view().take(n as int) =~= tasks.deep_view());
    r
}

fn index_triggers(items: &Vec<PipelineTriggerSettings>) -> (r: StringMap<PipelineTriggerSettings>)
    ensures
        r.deep_view() == settings_by_label(items.deep_view()),
{
    let mut r: StringMap<PipelineTriggerSettings> = StringMap::new();
    let n: usize = items.len();
    let mut i: usize = 0;
    assert(items.deep_view().take(0) =~= Seq::empty());
    assert(r.deep_view() =~= Seq::empty());
    while i < n
        invariant
            n == items@.len(),
            i <= n,
            r.deep_view() == settings_by_label(items.deep_view().take(i as int)),
        decreases n - i,
    {
        let held = items[i].clone();
        let key = items[i].label.clone();
        proof {
            use_type_invariant(&r);
            lemma_deep_bind(r@, key@, held);
            let next = items.deep_view().take(i as int + 1);
            assert(next.drop_last() =~= items.deep_view().take(i as int));
            assert(next.last() == items@[i as int].deep_view());
        }
        r.insert(key, held);
        i += 1;
    }
    assert(items.deep_view().take(n as int) =~= items.deep_view());
    r
}

fn index_notifiers(items: &Vec<PipelineNotifierSettings>) -> (r: StringMap<
    PipelineNotifierSettings,
>)
    ensures
        r.deep_view() == settings_by_label(items.deep_view()),
{
    let mut r: StringMap<PipelineNotifierSettings> = StringMap::new();
    let n: usize = items.len();
    let mut i: usize = 0;
    assert(items.deep_view().take(0) =~= Seq::empty());
    assert(r.deep_view() =~= Seq::empty());
    while i < n
        invariant
            n == items@.len(),
            i <= n,
            r.deep_view() == settings_by_label(items.deep_view().take(i as int)),
        decreases n - i,
    {
        let held = items[i].clone();
        let key = items[i].label.clone();
        proof {
            use_type_invariant(&r);
            lemma_deep_bind(r@, key@, held);
            let next = items.deep_view().take(i as int + 1);
            assert(next.drop_last() =~= items.deep_view().take(i as int));
            assert(next.last() == items@[i as int].deep_view());
        }
        r.insert(key, held);
        i += 1;
    }
    assert(items.deep_view().take(n as int) =~= items.deep_view());
    r
}

impl Pipeline {
    /// The pipeline that `config` describes in `namespace`, created at time
    /// `created` and last changed at time `modified`.
    pub fn created_at(namespace: String, config: PipelineConfig, created: u64, modified: u64) -> (r:
        Self)
        ensures
            r.deep_view() == pipeline_of_config(namespace@, config.deep_view(), created, modified),
    {
        let tasks = index_tasks(&config.tasks);
        let triggers = index_triggers(&config.triggers);
        let notifiers = index_notifiers(&config.notifiers);
        let description = match config.description {
            Some(d) => d,
            None => String::new(),
        };
        let r = Pipeline {
            namespace,
            id: config.id,
            name: config.name,
            description,
            last_run_id: 0,
            last_run_time: 0,
            parallelism: config.parallelism,
            created,
            modified,
            state: PipelineState::Active,
            tasks,
            triggers,
            notifiers,
            store_keys: Vec::new(),
        };
        assert(r.store_keys.deep_view() =~= Seq::empty());
        r
    }

    /// The pipeline that `config` describes in `namespace`, created now: the
    /// clock gives the two times.
    pub fn new(namespace: String, config: PipelineConfig) -> (r: Self)
        ensures
            r.deep_view() == pipeline_of_config(
                namespace@,
                config.deep_view(),
                r.created,
                r.modified,
            ),
    {
        let created: u64 = epoch();
        let modified: u64 = epoch();
        Pipeline::created_at(namespace, config, created, modified)
    }
}

} // verus!
