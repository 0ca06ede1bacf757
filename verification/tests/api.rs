use gofer::api::validate::identifier;
use gofer::api::{Api, ApiError, BuildInfo, Status, StatusCode};
use gofer::conf::api::Config;
use gofer::models::{
    PipelineConfig, PipelineState, RequiredParentStatus, RunFailureReason, RunState, RunStatus,
    RunTriggerInfo, Task, TaskRunState, Variable, VariableOwner,
};
use gofer::orchestrator::tracker::{Event, RunTracker, StartError};
use gofer::storage::{Db, StorageError};

fn build() -> BuildInfo {
    BuildInfo { semver: "0.1.0".to_string(), commit: "abcdef".to_string() }
}

fn service() -> Api {
    Api::new(Config::default(), build(), 1)
}

fn manual() -> RunTriggerInfo {
    RunTriggerInfo { kind: "manual".to_string(), label: "api".to_string() }
}

fn ids(api: &Api) -> Vec<String> {
    api.list_namespaces(0, 0).unwrap().into_iter().map(|n| n.id).collect()
}

/// Namespace CRUD: create, list, update, get, delete, get again.
#[test]
fn a_namespace_is_created_listed_updated_and_deleted() {
    let mut api = service();
    let created = api.create_namespace("team_a", "Team A", "", 10).unwrap();
    assert_eq!((created.id.as_str(), created.name.as_str()), ("team_a", "Team A"));
    assert_eq!(ids(&api), vec!["default", "team_a"]);
    api.update_namespace("team_a", "Team Alpha", "", 20).unwrap();
    let stored = api.get_namespace("team_a").unwrap();
    assert_eq!(stored.name, "Team Alpha");
    assert_eq!((stored.created, stored.modified), (10, 20));
    api.delete_namespace("team_a").unwrap();
    let status = api.get_namespace("team_a").unwrap_err();
    assert_eq!(status.code, StatusCode::NotFound);
    assert_eq!(status.message, "namespace with id 'team_a' does not exist");
    assert_eq!(ids(&api), vec!["default"]);
}

#[test]
fn the_default_namespace_is_provided_once() {
    let api = service();
    let default = api.get_namespace("default").unwrap();
    assert_eq!(default.name, "Default");
    assert_eq!(default.description, "The default namespace when no other namespace is specified.");
    assert_eq!((default.created, default.modified), (1, 1));
    // A store that has the namespace keeps it as it is.
    let mut db = Db::new();
    db.create_namespace(&api.get_namespace("default").unwrap()).unwrap();
    let again = Api::with_storage(Config::default(), build(), db, 99);
    assert_eq!(again.get_namespace("default").unwrap().created, 1);
    assert_eq!(ids(&again), vec!["default"]);
    assert_eq!(again.storage().list_namespaces(0, 0).unwrap().len(), 1);
}

#[test]
fn the_service_says_what_it_is() {
    let mut conf = Config::default();
    conf.general.dev_mode = true;
    let info = Api::new(conf, build(), 1).get_system_info();
    assert_eq!(info.commit, "abcdef");
    assert_eq!(info.semver, "0.1.0");
    assert!(info.dev_mode_enabled);
    assert!(!service().get_system_info().dev_mode_enabled);
}

#[test]
fn an_invalid_identifier_is_an_invalid_argument() {
    let mut api = service();
    for id in ["ab", "", "has space", "dash-ed", "a23456789012345678901234567890123"] {
        let status = api.create_namespace(id, "Name", "", 1).unwrap_err();
        assert_eq!(status.code, StatusCode::InvalidArgument);
    }
    assert!(matches!(identifier("ab"), Err(ApiError::InvalidArguments(_))));
    let status = api.create_pipeline("default", Some(PipelineConfig::new("x", "X")), 1).unwrap_err();
    assert_eq!(status.code, StatusCode::InvalidArgument);
    assert_eq!(ids(&api), vec!["default"]);
}

#[test]
fn a_namespace_that_exists_is_not_created_again() {
    let mut api = service();
    api.create_namespace("team_a", "Team A", "", 1).unwrap();
    let status = api.create_namespace("team_a", "Other", "", 2).unwrap_err();
    assert_eq!(status.code, StatusCode::AlreadyExists);
    assert_eq!(status.message, "namespace with id 'team_a' already exists");
    assert_eq!(api.get_namespace("team_a").unwrap().name, "Team A");
    assert_eq!(api.update_namespace("nobody", "", "", 1).unwrap_err().code, StatusCode::NotFound);
    assert_eq!(api.delete_namespace("nobody").unwrap_err().code, StatusCode::NotFound);
}

#[test]
fn errors_are_answered_with_their_status() {
    let of = |e: StorageError| Status::of_storage(&e, "pipeline", "build");
    assert_eq!(of(StorageError::NotFound).code, StatusCode::NotFound);
    assert_eq!(of(StorageError::NotFound).message, "pipeline with id 'build' does not exist");
    assert_eq!(of(StorageError::Exists).code, StatusCode::AlreadyExists);
    assert_eq!(of(StorageError::Exists).message, "pipeline with id 'build' already exists");
    assert_eq!(of(StorageError::FailedPrecondition).code, StatusCode::FailedPrecondition);
    let parse = StorageError::Parse {
        value: "x".to_string(),
        column: "state".to_string(),
        err: "bad".to_string(),
    };
    assert_eq!(of(parse).code, StatusCode::Internal);
    assert_eq!(of(StorageError::Unknown("disk full".to_string())).code, StatusCode::Internal);
    assert_eq!(
        of(StorageError::Unknown("disk full".to_string())).message,
        "unexpected storage error occurred; disk full"
    );
    assert_eq!(StorageError::NotFound.message(), "requested entity not found");
    assert_eq!(StorageError::Exists.message(), "entity already exists");
    let invalid = Status::of_api(ApiError::InvalidArguments("too short".to_string()));
    assert_eq!((invalid.code, invalid.message.as_str()), (StatusCode::InvalidArgument, "too short"));
    assert_eq!(Status::of_api(ApiError::Unknown("x".to_string())).code, StatusCode::Internal);
    assert_eq!(Status::of_start(StartError::NotRunnable).code, StatusCode::FailedPrecondition);
    assert_eq!(Status::of_start(StartError::RunNotPending).code, StatusCode::FailedPrecondition);
}

#[test]
fn a_pipeline_is_created_read_and_deleted() {
    let mut api = service();
    assert_eq!(
        api.create_pipeline("default", None, 5).unwrap_err().code,
        StatusCode::FailedPrecondition
    );
    let config = PipelineConfig::new("build", "Build").tasks(vec![Task::new("compile", "rust")]);
    let created = api.create_pipeline("default", Some(config), 5).unwrap();
    assert_eq!((created.created, created.modified), (5, 5));
    assert_eq!(api.get_pipeline("default", "build").unwrap(), created);
    assert_eq!(api.list_pipelines("default", 0, 0).unwrap(), vec![created]);
    assert_eq!(api.list_pipelines("nowhere", 0, 0).unwrap().len(), 0);
    let again = api.create_pipeline("default", Some(PipelineConfig::new("build", "B")), 6).unwrap_err();
    assert_eq!(again.code, StatusCode::AlreadyExists);
    let nowhere = api.create_pipeline("nowhere", Some(PipelineConfig::new("build", "B")), 6).unwrap_err();
    assert_eq!(nowhere.code, StatusCode::NotFound);
    api.delete_pipeline("default", "build").unwrap();
    let status = api.get_pipeline("default", "build").unwrap_err();
    assert_eq!(status.code, StatusCode::NotFound);
    assert_eq!(status.message, "pipeline with id 'build' does not exist");
    assert_eq!(api.delete_pipeline("default", "build").unwrap_err().code, StatusCode::NotFound);
}

#[test]
fn a_pipeline_with_a_cycle_is_refused() {
    let mut api = service();
    let config = PipelineConfig::new("loop", "Loop").tasks(vec![
        Task::new("a", "alpine").depends_on_one("b", RequiredParentStatus::Any),
        Task::new("b", "alpine").depends_on_one("a", RequiredParentStatus::Any),
    ]);
    assert_eq!(
        api.create_pipeline("default", Some(config), 5).unwrap_err().code,
        StatusCode::FailedPrecondition
    );
    let config = PipelineConfig::new("gap", "Gap")
        .tasks(vec![Task::new("a", "alpine").depends_on_one("missing", RequiredParentStatus::Any)]);
    assert_eq!(
        api.create_pipeline("default", Some(config), 5).unwrap_err().code,
        StatusCode::FailedPrecondition
    );
    assert_eq!(api.list_pipelines("default", 0, 0).unwrap().len(), 0);
}

/// Pipeline update rejected while runs are active.
#[test]
fn a_pipeline_is_not_updated_while_a_run_is_active() {
    let mut api = service();
    api.create_namespace("space", "Space", "", 1).unwrap();
    let config = || PipelineConfig::new("pipe", "Pipe").tasks(vec![Task::new("t1", "never-exits")]);
    let pipeline = api.create_pipeline("space", Some(config()), 2).unwrap();
    let id = api.start_run("space", "pipe", manual(), vec![], 3).unwrap();
    assert_eq!(id, 1);
    assert_eq!(api.next_pending_run("space", "pipe"), Ok(Some(1)));
    let run = api.get_run("space", "pipe", id).unwrap();
    let (mut tracker, actions) = RunTracker::begin(run, &pipeline.tasks, 5, 4).unwrap();
    assert_eq!(actions.len(), 1);
    api.update_run(tracker.run()).unwrap();
    assert_eq!(api.get_run("space", "pipe", 1).unwrap().state, RunState::Running);

    // The run is running: the update is refused, and so is disabling the pipeline.
    assert_eq!(
        api.update_pipeline("space", Some(config()), 6).unwrap_err().code,
        StatusCode::FailedPrecondition
    );
    assert_eq!(api.disable_pipeline("space", "pipe").unwrap_err().code, StatusCode::FailedPrecondition);

    // Cancel the run by force: it is over at once.
    tracker.step(Event::Cancel { by: RunFailureReason::UserCancelled, force: true }, 7);
    assert!(tracker.is_complete());
    assert_eq!(tracker.run().status, RunStatus::Cancelled);
    assert_eq!(tracker.task_run("t1").unwrap().state, TaskRunState::Cancelled);
    api.update_run(tracker.run()).unwrap();
    let stored = api.get_run("space", "pipe", 1).unwrap();
    assert_eq!(stored.state, RunState::Complete);
    assert_eq!(stored.status, RunStatus::Cancelled);
    assert_eq!(stored.failure_info.unwrap().reason, RunFailureReason::UserCancelled);

    // Every run is complete, but the pipeline is still active: it must be disabled first.
    assert_eq!(
        api.update_pipeline("space", Some(config()), 9).unwrap_err().code,
        StatusCode::FailedPrecondition
    );
    api.disable_pipeline("space", "pipe").unwrap();
    let changed = PipelineConfig::new("pipe", "Pipe changed").tasks(vec![Task::new("t2", "alpine")]);
    api.update_pipeline("space", Some(changed), 10).unwrap();
    let stored = api.get_pipeline("space", "pipe").unwrap();
    assert_eq!(stored.name, "Pipe changed");
    assert_eq!(stored.state, PipelineState::Disabled);
    assert_eq!((stored.created, stored.modified), (2, 10));
    assert_eq!(stored.tasks.len(), 1);
    assert_eq!(stored.tasks.key_at(0), "t2");
    api.enable_pipeline("space", "pipe").unwrap();
    assert_eq!(api.get_pipeline("space", "pipe").unwrap().state, PipelineState::Active);
    assert_eq!(api.update_pipeline("space", None, 11).unwrap_err().code, StatusCode::FailedPrecondition);
    assert_eq!(
        api.update_pipeline("space", Some(PipelineConfig::new("zzz", "Z")), 11).unwrap_err().code,
        StatusCode::NotFound
    );
    assert_eq!(api.enable_pipeline("space", "zzz").unwrap_err().code, StatusCode::NotFound);
    let mut gone = tracker.run().clone();
    gone.id = 9;
    assert_eq!(api.update_run(&gone).unwrap_err().code, StatusCode::NotFound);
}

/// Parallelism of one queues runs: one running at a time, numbered in order.
#[test]
fn runs_of_a_pipeline_with_parallelism_one_take_turns() {
    let mut api = service();
    let config = PipelineConfig::new("build", "Build")
        .parallelism(1)
        .tasks(vec![Task::new("compile", "rust")]);
    let pipeline = api.create_pipeline("default", Some(config), 2).unwrap();
    let ns = "default";
    let pl = "build";
    assert_eq!(api.start_run(ns, pl, manual(), vec![], 10), Ok(1));
    assert_eq!(api.start_run(ns, pl, manual(), vec![], 11), Ok(2));
    assert_eq!(api.start_run(ns, pl, manual(), vec![], 12), Ok(3));

    let running = |api: &Api| -> Vec<u64> {
        api.list_runs(ns, pl, 0, 0)
            .unwrap()
            .into_iter()
            .filter(|r| r.state == RunState::Running)
            .map(|r| r.id)
            .collect()
    };
    let mut finished = Vec::new();
    let mut now = 20;
    while let Some(id) = api.next_pending_run(ns, pl).unwrap() {
        let (mut tracker, _) =
            RunTracker::begin(api.get_run(ns, pl, id).unwrap(), &pipeline.tasks, 5, now).unwrap();
        api.update_run(tracker.run()).unwrap();
        assert_eq!(running(&api), vec![id]);
        // While the run is running nothing else may start.
        assert_eq!(api.next_pending_run(ns, pl), Ok(None));
        for other in 1..=3 {
            let mut waiting = api.get_run(ns, pl, other).unwrap();
            if other != id && waiting.state == RunState::Pending {
                waiting.state = RunState::Running;
                assert_eq!(api.update_run(&waiting).unwrap_err().code, StatusCode::FailedPrecondition);
            }
        }
        tracker.step(
            Event::Observed { task: "compile".to_string(), state: TaskRunState::Success, exit_code: Some(0) },
            now + 1,
        );
        assert!(tracker.is_complete());
        api.update_run(tracker.run()).unwrap();
        assert_eq!(running(&api), Vec::<u64>::new());
        finished.push(id);
        now += 10;
    }
    assert_eq!(finished, vec![1, 2, 3]);
    assert!(api.list_runs(ns, pl, 0, 0).unwrap().iter().all(|r| r.status == RunStatus::Successful));
}

#[test]
fn a_run_is_started_listed_and_retried() {
    let mut api = service();
    let config = PipelineConfig::new("build", "Build").tasks(vec![Task::new("compile", "rust")]);
    api.create_pipeline("default", Some(config), 2).unwrap();
    let variables =
        vec![Variable { key: "A".to_string(), value: "1".to_string(), owner: VariableOwner::User }];
    assert_eq!(api.start_run("default", "build", manual(), variables.clone(), 10), Ok(1));
    let run = api.get_run("default", "build", 1).unwrap();
    assert_eq!(run.state, RunState::Pending);
    assert_eq!(run.started, 10);
    assert_eq!(run.variables, variables);
    assert_eq!(api.retry_run("default", "build", 1, 20), Ok(2));
    let retried = api.get_run("default", "build", 2).unwrap();
    assert_eq!(retried.variables, variables);
    assert_eq!(retried.trigger, manual());
    assert_eq!(retried.started, 20);
    assert_eq!(retried.state, RunState::Pending);
    let listed: Vec<u64> =
        api.list_runs("default", "build", 0, 0).unwrap().into_iter().map(|r| r.id).collect();
    assert_eq!(listed, vec![2, 1]);
    assert_eq!(api.retry_run("default", "build", 9, 30).unwrap_err().code, StatusCode::NotFound);
    assert_eq!(api.get_run("default", "build", 9).unwrap_err().code, StatusCode::NotFound);
    assert_eq!(
        api.start_run("default", "nothing", manual(), vec![], 10).unwrap_err().code,
        StatusCode::NotFound
    );
    api.storage().get_run("default", "build", 2).unwrap();
}

#[test]
fn a_disabled_pipeline_starts_no_run() {
    let mut api = service();
    api.create_pipeline("default", Some(PipelineConfig::new("build", "Build")), 2).unwrap();
    api.disable_pipeline("default", "build").unwrap();
    assert_eq!(
        api.start_run("default", "build", manual(), vec![], 10).unwrap_err().code,
        StatusCode::FailedPrecondition
    );
    api.enable_pipeline("default", "build").unwrap();
    assert_eq!(api.start_run("default", "build", manual(), vec![], 10), Ok(1));
    assert_eq!(
        api.retry_run("default", "build", 1, 11),
        Ok(2)
    );
}

#[test]
fn several_runs_are_read_at_once() {
    let mut api = service();
    api.create_pipeline("default", Some(PipelineConfig::new("build", "Build")), 2).unwrap();
    for now in [10, 11, 12] {
        api.start_run("default", "build", manual(), vec![], now).unwrap();
    }
    let found = api.batch_get_runs("default", "build", &vec![3, 1]).unwrap();
    assert_eq!(found.iter().map(|r| (r.id, r.started)).collect::<Vec<_>>(), vec![(3, 12), (1, 10)]);
    assert_eq!(api.batch_get_runs("default", "build", &vec![]).unwrap().len(), 0);
    assert_eq!(
        api.batch_get_runs("default", "build", &vec![1, 4]).unwrap_err().code,
        StatusCode::NotFound
    );
}

#[test]
fn a_run_that_waits_for_its_turn_is_cancelled_in_the_store() {
    let mut api = service();
    let config = PipelineConfig::new("build", "Build").parallelism(1);
    api.create_pipeline("default", Some(config), 2).unwrap();
    for now in [10, 11, 12] {
        api.start_run("default", "build", manual(), vec![], now).unwrap();
    }
    let mut first = api.get_run("default", "build", 1).unwrap();
    first.state = RunState::Running;
    api.update_run(&first).unwrap();
    // A running run is cancelled through its tracker.
    assert_eq!(
        api.cancel_pending_run("default", "build", 1, RunFailureReason::UserCancelled, 20)
            .unwrap_err()
            .code,
        StatusCode::FailedPrecondition
    );
    assert_eq!(api.cancel_pending_run("default", "build", 2, RunFailureReason::UserCancelled, 5), Ok(()));
    let second = api.get_run("default", "build", 2).unwrap();
    assert_eq!(second.state, RunState::Complete);
    assert_eq!(second.status, RunStatus::Cancelled);
    assert_eq!((second.started, second.ended), (11, 11));
    assert_eq!(second.failure_info.unwrap().reason, RunFailureReason::UserCancelled);
    assert_eq!(api.cancel_pending_run("default", "build", 3, RunFailureReason::Unknown, 30), Ok(()));
    let third = api.get_run("default", "build", 3).unwrap();
    assert_eq!(third.ended, 30);
    assert_eq!(third.failure_info.unwrap().reason, RunFailureReason::AdminCancelled);
    // Cancelling again changes nothing.
    assert_eq!(api.cancel_pending_run("default", "build", 3, RunFailureReason::UserCancelled, 40), Ok(()));
    assert_eq!(api.get_run("default", "build", 3).unwrap().ended, 30);
    assert_eq!(
        api.cancel_pending_run("default", "build", 9, RunFailureReason::UserCancelled, 40)
            .unwrap_err()
            .code,
        StatusCode::NotFound
    );
    // With the waiting runs gone, nothing is left to start.
    first.state = RunState::Complete;
    api.update_run(&first).unwrap();
    assert_eq!(api.next_pending_run("default", "build"), Ok(None));
}
