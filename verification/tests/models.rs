use gofer::models::{
    Exec, Namespace, Pipeline, PipelineConfig, PipelineNotifierSettings, PipelineState,
    PipelineTriggerSettings, RegistryAuth, RequiredParentStatus, Run, RunFailureReason, RunState,
    RunStatus, RunTriggerInfo, Task, TaskRunState, Variable, VariableOwner,
};
use gofer::string_map::StringMap;

fn map_of(pairs: &[(&str, &str)]) -> StringMap<String> {
    let mut map = StringMap::new();
    for (key, value) in pairs {
        map.insert(key.to_string(), value.to_string());
    }
    map
}

#[test]
fn pipeline_test_pipeline() {
    let pipeline = PipelineConfig::new("simple_pipeline", "Simple Pipeline")
        .description("Test Description")
        .tasks(vec![]);
    assert_eq!(pipeline.id, "simple_pipeline");
    assert_eq!(pipeline.name, "Simple Pipeline");
    assert_eq!(pipeline.description, Some("Test Description".to_string()));
    assert_eq!(pipeline.tasks.len(), 0);
}

#[test]
fn pipeline_config_test_pipeline() {
    let pipeline = PipelineConfig::new("simple_pipeline", "Simple Pipeline")
        .description("Test Description")
        .tasks(vec![]);
    assert_eq!(pipeline.parallelism, 0);
    assert_eq!(pipeline.triggers.len(), 0);
    assert_eq!(pipeline.notifiers.len(), 0);
    let built = Pipeline::created_at("default".to_string(), pipeline, 1, 2);
    assert_eq!(built.description, "Test Description");
    assert_eq!(built.tasks.len(), 0);
}

#[test]
fn a_configuration_is_built_step_by_step() {
    let config = PipelineConfig::new("build", "Build")
        .parallelism(3)
        .tasks(vec![Task::new("compile", "rust:latest")])
        .triggers(vec![PipelineTriggerSettings::new("cron", "nightly")])
        .notifiers(vec![PipelineNotifierSettings::new("mail", "team")]);
    assert_eq!(config.description, None);
    assert_eq!(config.parallelism, 3);
    assert_eq!(config.tasks.len(), 1);
    assert_eq!(config.triggers[0].kind, "cron");
    assert_eq!(config.notifiers[0].label, "team");
}

#[test]
fn a_task_is_built_step_by_step() {
    let task = Task::new("compile", "rust:latest");
    assert_eq!(task.id, "compile");
    assert_eq!(task.image, "rust:latest");
    assert_eq!(task.description, None);
    assert_eq!(task.registry_auth, None);
    assert_eq!(task.depends_on.len(), 0);
    assert_eq!(task.variables.len(), 0);
    assert_eq!(task.entrypoint, None);

    let mut more = StringMap::new();
    more.insert("fetch".to_string(), RequiredParentStatus::Failure);
    more.insert("lint".to_string(), RequiredParentStatus::Any);
    let task = task
        .description("compiles")
        .registry_auth("me", "secret")
        .depends_on_one("fetch", RequiredParentStatus::Success)
        .depends_on_one("check", RequiredParentStatus::Any)
        .depends_on_many(more)
        .variables(map_of(&[("MODE", "release"), ("TARGET", "x86")]))
        .entrypoint(Exec { shell: "/bin/sh".to_string(), script: "ZWNobyBoaQ==".to_string() });
    assert_eq!(task.description, Some("compiles".to_string()));
    assert_eq!(
        task.registry_auth,
        Some(RegistryAuth { user: "me".to_string(), pass: "secret".to_string() })
    );
    // A requirement set twice is replaced in its place; new ones are added at the end.
    assert_eq!(task.depends_on.len(), 3);
    assert_eq!(task.depends_on.key_at(0), "fetch");
    assert_eq!(*task.depends_on.value_at(0), RequiredParentStatus::Failure);
    assert_eq!(task.depends_on.key_at(1), "check");
    assert_eq!(task.depends_on.key_at(2), "lint");
    assert_eq!(
        task.variables,
        vec![
            Variable { key: "MODE".to_string(), value: "release".to_string(), owner: VariableOwner::User },
            Variable { key: "TARGET".to_string(), value: "x86".to_string(), owner: VariableOwner::User },
        ]
    );
    assert_eq!(task.entrypoint.unwrap().shell, "/bin/sh");
}

#[test]
fn a_string_map_keeps_one_value_per_key_in_order_of_arrival() {
    let mut map: StringMap<u64> = StringMap::new();
    assert_eq!(map.len(), 0);
    map.insert("b".to_string(), 1);
    map.insert("a".to_string(), 2);
    map.insert("b".to_string(), 3);
    assert_eq!(map.len(), 2);
    assert_eq!(map.key_at(0), "b");
    assert_eq!(*map.value_at(0), 3);
    assert_eq!(map.get(&"a".to_string()), Some(&2));
    assert_eq!(map.get(&"c".to_string()), None);
    assert!(map.contains_key(&"b".to_string()));
    assert_eq!(map.position(&"a".to_string()), Some(1));
    let mut other: StringMap<u64> = StringMap::new();
    other.insert("c".to_string(), 7);
    other.insert("a".to_string(), 8);
    map.extend(other);
    assert_eq!(map.len(), 3);
    assert_eq!(map.get(&"a".to_string()), Some(&8));
    assert_eq!(map.key_at(2), "c");
    assert_eq!(map.clone(), map);
}

#[test]
fn a_pipeline_is_made_from_its_configuration() {
    let mut compile = Task::new("compile", "rust:latest");
    compile.variables.push(Variable {
        key: "MODE".to_string(),
        value: "debug".to_string(),
        owner: VariableOwner::System,
    });
    let config = PipelineConfig::new("build", "Build")
        .parallelism(2)
        .tasks(vec![
            compile,
            Task::new("test", "rust:latest"),
            Task::new("compile", "rust:nightly"),
        ])
        .triggers(vec![
            PipelineTriggerSettings::new("cron", "nightly"),
            PipelineTriggerSettings::new("interval", "nightly"),
        ])
        .notifiers(vec![PipelineNotifierSettings::new("mail", "team")]);
    let pipeline = Pipeline::created_at("default".to_string(), config, 10, 11);
    assert_eq!(pipeline.namespace, "default");
    assert_eq!(pipeline.id, "build");
    assert_eq!(pipeline.name, "Build");
    assert_eq!(pipeline.description, "");
    assert_eq!((pipeline.last_run_id, pipeline.last_run_time), (0, 0));
    assert_eq!(pipeline.parallelism, 2);
    assert_eq!((pipeline.created, pipeline.modified), (10, 11));
    assert_eq!(pipeline.state, PipelineState::Active);
    assert_eq!(pipeline.store_keys, Vec::<String>::new());
    // Of two tasks with one identifier the later stays, in the place of the earlier.
    assert_eq!(pipeline.tasks.len(), 2);
    assert_eq!(pipeline.tasks.key_at(0), "compile");
    assert_eq!(pipeline.tasks.value_at(0).image, "rust:nightly");
    assert_eq!(pipeline.tasks.key_at(1), "test");
    assert_eq!(pipeline.triggers.len(), 1);
    assert_eq!(pipeline.triggers.value_at(0).kind, "interval");
    assert_eq!(pipeline.notifiers.len(), 1);
}

#[test]
fn a_pipeline_holds_every_task_variable_as_the_users() {
    let mut task = Task::new("compile", "rust:latest");
    task.variables.push(Variable {
        key: "TOKEN".to_string(),
        value: "abc".to_string(),
        owner: VariableOwner::System,
    });
    task.variables.push(Variable {
        key: "MODE".to_string(),
        value: "debug".to_string(),
        owner: VariableOwner::Unknown,
    });
    let held = task.user_owned();
    assert_eq!(held.variables.len(), 2);
    assert!(held.variables.iter().all(|v| v.owner == VariableOwner::User));
    assert_eq!(held.variables[0].key, "TOKEN");
    assert_eq!(held.variables[1].value, "debug");
    let config = PipelineConfig::new("build", "Build").tasks(vec![task]);
    let pipeline = Pipeline::created_at("default".to_string(), config, 1, 1);
    assert!(pipeline.tasks.value_at(0).variables.iter().all(|v| v.owner == VariableOwner::User));
}

#[test]
fn settings_are_built_step_by_step() {
    let trigger = PipelineTriggerSettings::new("cron", "nightly").settings(map_of(&[("at", "02:00")]));
    assert_eq!(trigger.kind, "cron");
    assert_eq!(trigger.label, "nightly");
    assert_eq!(trigger.error, None);
    assert_eq!(trigger.settings.get(&"at".to_string()), Some(&"02:00".to_string()));
    let notifier = PipelineNotifierSettings::new("mail", "team").settings(map_of(&[("to", "a@b.c")]));
    assert_eq!(notifier.settings.len(), 1);
    assert_eq!(notifier.clone(), notifier);
}

#[test]
fn a_new_namespace_is_created_and_modified_at_the_same_time() {
    let namespace = Namespace::new("team_a", "Team A", "the a team");
    assert_eq!(namespace.id, "team_a");
    assert_eq!(namespace.name, "Team A");
    assert_eq!(namespace.description, "the a team");
    assert_eq!(namespace.created, namespace.modified);
    let fixed = Namespace::created_at("team_a", "Team A", "the a team", 42);
    assert_eq!((fixed.created, fixed.modified), (42, 42));
}

#[test]
fn a_new_run_is_pending_and_has_no_number() {
    let trigger = RunTriggerInfo { kind: "cron".to_string(), label: "nightly".to_string() };
    let variables = vec![Variable {
        key: "A".to_string(),
        value: "1".to_string(),
        owner: VariableOwner::System,
    }];
    let run = Run::started_at("default", "build", trigger.clone(), variables.clone(), 77);
    assert_eq!(run.namespace, "default");
    assert_eq!(run.pipeline, "build");
    assert_eq!(run.id, 0);
    assert_eq!((run.started, run.ended), (77, 0));
    assert_eq!(run.state, RunState::Pending);
    assert_eq!(run.status, RunStatus::Unknown);
    assert_eq!(run.failure_info, None);
    assert_eq!(run.task_runs, Vec::<String>::new());
    assert_eq!(run.trigger, trigger);
    assert_eq!(run.variables, variables);
    assert_eq!(run.store_info, None);
    let now = Run::new("default", "build", trigger, vec![]);
    assert_eq!(now.state, RunState::Pending);
    assert_eq!(now.ended, 0);
}

#[test]
fn names_are_read_whatever_their_case() {
    assert_eq!(RunState::from_str("pending"), Ok(RunState::Pending));
    assert_eq!(RunState::from_str("PENDING"), Ok(RunState::Pending));
    assert_eq!(RunState::from_str("Running"), Ok(RunState::Running));
    assert_eq!(RunState::from_str("complete"), Ok(RunState::Complete));
    assert_eq!(RunState::from_str("unknown"), Ok(RunState::Unknown));
    assert_eq!(RunState::from_str("done"), Err(()));
    assert_eq!(RunState::from_str(""), Err(()));
    assert_eq!(RunStatus::from_str("Successful"), Ok(RunStatus::Successful));
    assert_eq!(RunStatus::from_str("FAILED"), Ok(RunStatus::Failed));
    assert_eq!(RunStatus::from_str("cancelled"), Ok(RunStatus::Cancelled));
    assert_eq!(RunStatus::from_str("canceled"), Err(()));
    assert_eq!(RunFailureReason::from_str("Abnormal_Exit"), Ok(RunFailureReason::AbnormalExit));
    assert_eq!(RunFailureReason::from_str("scheduler_error"), Ok(RunFailureReason::SchedulerError));
    assert_eq!(
        RunFailureReason::from_str("FAILED_PRECONDITION"),
        Ok(RunFailureReason::FailedPrecondition)
    );
    assert_eq!(RunFailureReason::from_str("user_cancelled"), Ok(RunFailureReason::UserCancelled));
    assert_eq!(RunFailureReason::from_str("admin_cancelled"), Ok(RunFailureReason::AdminCancelled));
    assert_eq!(RunFailureReason::from_str("abnormalexit"), Err(()));
    assert_eq!(RequiredParentStatus::from_str("Any"), Ok(RequiredParentStatus::Any));
    assert_eq!(RequiredParentStatus::from_str("SUCCESS"), Ok(RequiredParentStatus::Success));
    assert_eq!(RequiredParentStatus::from_str("failure"), Ok(RequiredParentStatus::Failure));
    assert_eq!(RequiredParentStatus::from_str("always"), Err(()));
    assert_eq!(VariableOwner::from_str("User"), Ok(VariableOwner::User));
    assert_eq!(VariableOwner::from_str("SYSTEM"), Ok(VariableOwner::System));
    assert_eq!(VariableOwner::from_str("unknown"), Ok(VariableOwner::Unknown));
    assert_eq!(VariableOwner::from_str("root"), Err(()));
}

#[test]
fn words_in_lowercase_are_read_letter_for_letter() {
    assert_eq!(RunState::from_lowercase("pending"), Ok(RunState::Pending));
    assert_eq!(RunState::from_lowercase("Pending"), Err(()));
    assert_eq!(RunStatus::from_lowercase("failed"), Ok(RunStatus::Failed));
    assert_eq!(RunFailureReason::from_lowercase("abnormal_exit"), Ok(RunFailureReason::AbnormalExit));
    assert_eq!(RequiredParentStatus::from_lowercase("ANY"), Err(()));
    assert_eq!(VariableOwner::from_lowercase("user"), Ok(VariableOwner::User));
}

#[test]
fn the_state_of_a_pipeline_is_named_letter_for_letter() {
    assert_eq!(PipelineState::Active.to_string(), "Active");
    assert_eq!(PipelineState::Disabled.to_string(), "Disabled");
    assert_eq!(PipelineState::Unknown.to_string(), "Unknown");
    for state in [PipelineState::Unknown, PipelineState::Active, PipelineState::Disabled] {
        assert_eq!(PipelineState::from_str(&state.to_string()), Ok(state));
    }
    assert_eq!(PipelineState::from_str("active"), Err(()));
    assert_eq!(PipelineState::from_str("Enabled"), Err(()));
    assert_eq!(RunState::Pending.to_string(), "Pending");
    assert_eq!(RunStatus::Cancelled.to_string(), "Cancelled");
}

#[test]
fn every_enum_has_a_zero_valued_unknown_on_the_wire() {
    assert_eq!(VariableOwner::Unknown.to_i32(), 0);
    assert_eq!(RequiredParentStatus::Unknown.to_i32(), 0);
    assert_eq!(PipelineState::Unknown.to_i32(), 0);
    assert_eq!(RunState::Unknown.to_i32(), 0);
    assert_eq!(RunStatus::Unknown.to_i32(), 0);
    assert_eq!(RunFailureReason::Unknown.to_i32(), 0);
    assert_eq!(TaskRunState::Unknown.to_i32(), 0);
}

#[test]
fn wire_numbers_are_read_back_and_strangers_refused() {
    for state in [RunState::Unknown, RunState::Pending, RunState::Running, RunState::Complete] {
        assert_eq!(RunState::from_i32(state.to_i32()), Some(state));
    }
    assert_eq!(RunState::Complete.to_i32(), 3);
    assert_eq!(RunState::from_i32(4), None);
    assert_eq!(RunState::from_i32(-1), None);
    assert_eq!(RunStatus::from_i32(2), Some(RunStatus::Failed));
    assert_eq!(RunStatus::from_i32(9), None);
    assert_eq!(RunFailureReason::from_i32(5), Some(RunFailureReason::AdminCancelled));
    assert_eq!(RunFailureReason::from_i32(6), None);
    assert_eq!(PipelineState::from_i32(2), Some(PipelineState::Disabled));
    assert_eq!(PipelineState::from_i32(3), None);
    assert_eq!(RequiredParentStatus::from_i32(1), Some(RequiredParentStatus::Any));
    assert_eq!(RequiredParentStatus::from_i32(4), None);
    assert_eq!(VariableOwner::from_i32(2), Some(VariableOwner::System));
    assert_eq!(VariableOwner::from_i32(3), None);
    assert_eq!(TaskRunState::from_i32(6), Some(TaskRunState::Cancelled));
    assert_eq!(TaskRunState::from_i32(7), None);
}

#[test]
fn a_task_run_is_over_in_three_states() {
    let over = [TaskRunState::Success, TaskRunState::Failed, TaskRunState::Cancelled];
    let live = [
        TaskRunState::Unknown,
        TaskRunState::Processing,
        TaskRunState::Waiting,
        TaskRunState::Running,
    ];
    assert!(over.iter().all(|s| s.is_terminal()));
    assert!(live.iter().all(|s| !s.is_terminal()));
    assert_eq!(TaskRunState::Success.status(), RunStatus::Successful);
    assert_eq!(TaskRunState::Failed.status(), RunStatus::Failed);
    assert_eq!(TaskRunState::Cancelled.status(), RunStatus::Cancelled);
    assert!(live.iter().all(|s| s.status() == RunStatus::Unknown));
}
