//! Pipeline configurations: what a user submits to create or update a pipeline.

use crate::models::pipeline::{PipelineNotifierSettings, PipelineTriggerSettings, SettingsView};
use crate::models::task::{Task, TaskView};
use crate::text::owned;
use vstd::prelude::*;

verus! {

/// What a user submits to create or update a pipeline.
#[derive(Debug, PartialEq, Eq)]
pub struct PipelineConfig {
    /// Identifier of the pipeline, unique within its namespace.
    pub id: String,
    /// Name meant for display.
    pub name: String,
    pub description: Option<String>,
    /// How many runs may be running at once; 0 sets no limit.
    pub parallelism: u64,
    pub tasks: Vec<Task>,
    pub triggers: Vec<PipelineTriggerSettings>,
    pub notifiers: Vec<PipelineNotifierSettings>,
}

/// What a [`PipelineConfig`] holds.
pub struct PipelineConfigView {
    pub id: Seq<char>,
    pub name: Seq<char>,
    pub description: Option<Seq<char>>,
    pub parallelism: u64,
    pub tasks: Seq<TaskView>,
    pub triggers: Seq<SettingsView>,
    pub notifiers: Seq<SettingsView>,
}

impl DeepView for PipelineConfig {
    type V = PipelineConfigView;

    open spec fn deep_view(&self) -> PipelineConfigView {
        PipelineConfigView {
            id: self.id@,
            name: self.name@,
            description: self.description.deep_view(),
            parallelism: self.parallelism,
            tasks: self.tasks.deep_view(),
            triggers: self.triggers.deep_view(),
            notifiers: self.notifiers.deep_view(),
        }
    }
}

impl PipelineConfig {
    /// A configuration with no description, no limit on parallel runs, and
    /// no tasks, triggers or notifiers.
    pub fn new(id: &str, name: &str) -> (r: Self)
        ensures
            r.deep_view() == (PipelineConfigView {
                id: id@,
                name: name@,
                description: None,
                parallelism: 0,
                tasks: Seq::empty(),
                triggers: Seq::empty(),
                notifiers: Seq::empty(),
            }),
    {
        let r = PipelineConfig {
            id: owned(id),
            name: owned(name),
            description: None,
            parallelism: 0,
            tasks: Vec::new(),
            triggers: Vec::new(),
            notifiers: Vec::new(),
        };
        assert(r.tasks.deep_view() =~= Seq::empty());
        assert(r.triggers.deep_view() =~= Seq::empty());
        assert(r.notifiers.deep_view() =~= Seq::empty());
        r
    }

    /// Sets the description.
    pub fn description(self, description: &str) -> (r: Self)
        ensures
            r.deep_view() == (PipelineConfigView {
                description: Some(description@),
                ..self.deep_view()
            }),
    {
        let mut r = self;
        r.description = Some(owned(description));
        r
    }

    /// Sets how many runs may be running at once.
    pub fn parallelism(self, parallelism: u64) -> (r: Self)
        ensures
            r.deep_view() == (PipelineConfigView { parallelism, ..self.deep_view() }),
    {
        let mut r = self;
        r.parallelism = parallelism;
        r
    }

    /// Replaces the tasks.
    pub fn tasks(self, tasks: Vec<Task>) -> (r: Self)
        ensures
            r.deep_view() == (PipelineConfigView { tasks: tasks.deep_view(), ..self.deep_view() }),
    {
        let mut r = self;
        r.tasks = tasks;
        r
    }

    /// Replaces the trigger settings.
    pub fn triggers(self, triggers: Vec<PipelineTriggerSettings>) -> (r: Self)
        ensures
            r.deep_view() == (PipelineConfigView {
                triggers: triggers.deep_view(),
                ..self.deep_view()
            }),
    {
        let mut r = self;
        r.triggers = triggers;
        r
    }

    /// Replaces the notifier settings.
    pub fn notifiers(self, notifiers: Vec<PipelineNotifierSettings>) -> (r: Self)
        ensures
            r.deep_view() == (PipelineConfigView {
                notifiers: notifiers.deep_view(),
                ..self.deep_view()
            }),
    {
        let mut r = self;
        r.notifiers = notifiers;
        r
    }
}

} // verus!
