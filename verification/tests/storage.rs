use gofer::models::{
    Namespace, Pipeline, PipelineConfig, PipelineState, Run, RunState, RunStatus, RunTriggerInfo,
};
use gofer::storage::{page_limit, BackendFailure, Db, SqliteErrors, StorageError, MAX_ROW_LIMIT};

fn trigger() -> RunTriggerInfo {
    RunTriggerInfo { kind: "test_trigger".to_string(), label: "my_test_trigger".to_string() }
}

fn store_with_pipeline(parallelism: u64) -> Db {
    let mut db = Db::new();
    db.create_namespace(&Namespace::created_at("test_namespace", "Test Namespace", "Test Description", 10))
        .unwrap();
    let config = PipelineConfig::new("test_pipeline", "Test Pipeline").parallelism(parallelism);
    db.create_pipeline(&Pipeline::created_at("test_namespace".to_string(), config, 20, 20)).unwrap();
    db
}

/// Basic CRUD can be accomplished for namespaces.
#[test]
fn namespaces() {
    let mut db = Db::new();

    let new_namespace = Namespace::new(
        "test_namespace",
        "Test Namespace",
        "a namespace example for integration testing",
    );

    db.create_namespace(&new_namespace).unwrap();
    let namespaces = db.list_namespaces(0, 0).unwrap();

    assert_eq!(namespaces.len(), 1);
    assert_eq!(namespaces[0], new_namespace);

    let namespace = db.get_namespace(&new_namespace.id).unwrap();
    assert_eq!(namespace, new_namespace);

    let mut updated_namespace = new_namespace.clone();
    updated_namespace.name = "Test Namespace Updated".to_string();

    db.update_namespace(&updated_namespace).unwrap();

    let namespace = db.get_namespace(&new_namespace.id).unwrap();
    assert_eq!(namespace, updated_namespace);

    db.delete_namespace(&new_namespace.id).unwrap();

    let namespace = db.get_namespace(&new_namespace.id).unwrap_err();

    assert_eq!(namespace, StorageError::NotFound);
}

/// Basic CRUD can be accomplished for pipelines.
#[test]
fn pipelines() {
    let mut db = Db::new();

    let test_namespace = Namespace::new("test_namespace", "Test Namespace", "Test Description");
    db.create_namespace(&test_namespace).unwrap();

    let test_pipeline_config = PipelineConfig::new("test_pipeline", "Test Pipeline");
    let mut test_pipeline = Pipeline::new(test_namespace.id.clone(), test_pipeline_config);

    db.create_pipeline(&test_pipeline).unwrap();

    let pipelines = db.list_pipelines(0, 0, &test_namespace.id).unwrap();

    assert_eq!(pipelines.len(), 1);
    assert_eq!(pipelines[0], test_pipeline);

    let pipeline = db.get_pipeline(&test_namespace.id, &test_pipeline.id).unwrap();

    assert_eq!(pipeline, test_pipeline);

    test_pipeline.name = "Test Pipeline Updated".to_string();

    // A pipeline is updated only while it is disabled.
    assert_eq!(db.update_pipeline(&test_pipeline).unwrap_err(), StorageError::FailedPrecondition);
    db.update_pipeline_state(&test_namespace.id, &test_pipeline.id, PipelineState::Disabled).unwrap();
    db.update_pipeline(&test_pipeline).unwrap();

    let pipeline = db.get_pipeline(&test_namespace.id, &test_pipeline.id).unwrap();
    assert_eq!(pipeline, test_pipeline);

    db.delete_pipeline(&test_namespace.id, &test_pipeline.id).unwrap();

    let pipeline = db.get_pipeline(&test_namespace.id, &test_pipeline.id).unwrap_err();

    assert_eq!(pipeline, StorageError::NotFound);
}

/// Basic CRUD can be accomplished for runs.
#[test]
fn runs() {
    let mut db = Db::new();

    let test_namespace = Namespace::new("test_namespace", "Test Namespace", "Test Description");
    db.create_namespace(&test_namespace).unwrap();

    let test_pipeline_config = PipelineConfig::new("test_pipeline", "Test Pipeline");
    let test_pipeline = Pipeline::new(test_namespace.id.clone(), test_pipeline_config);

    db.create_pipeline(&test_pipeline).unwrap();

    let mut test_run = Run::new(&test_namespace.id, &test_pipeline.id, trigger(), vec![]);
    db.create_run(&test_run).unwrap();

    let runs = db.list_runs(0, 0, &test_namespace.id, &test_pipeline.id).unwrap();

    test_run.id = 1; // Because we auto-assign run id

    assert_eq!(runs.len(), 1);
    assert_eq!(runs[0], test_run);

    let run = db.get_run(&test_namespace.id, &test_pipeline.id, test_run.id).unwrap();

    assert_eq!(run, test_run);

    test_run.state = RunState::Complete;

    db.update_run(&test_run).unwrap();

    let run = db.get_run(&test_namespace.id, &test_pipeline.id, test_run.id).unwrap();
    assert_eq!(run, test_run);

    db.delete_run(&test_namespace.id, &test_pipeline.id, test_run.id).unwrap();

    let run = db.get_run(&test_namespace.id, &test_pipeline.id, test_run.id).unwrap_err();

    assert_eq!(run, StorageError::NotFound);
}

#[test]
fn creating_a_namespace_twice_reports_that_it_exists() {
    let mut db = Db::new();
    let namespace = Namespace::created_at("team_a", "Team A", "", 1);
    assert_eq!(db.create_namespace(&namespace), Ok(()));
    assert_eq!(db.create_namespace(&namespace), Err(StorageError::Exists));
    assert_eq!(db.list_namespaces(0, 0).unwrap().len(), 1);
}

#[test]
fn namespaces_are_listed_by_identifier() {
    let mut db = Db::new();
    for id in ["delta", "alpha", "charlie", "bravo", "alp"] {
        db.create_namespace(&Namespace::created_at(id, id, "", 1)).unwrap();
    }
    let ids: Vec<String> = db.list_namespaces(0, 0).unwrap().into_iter().map(|n| n.id).collect();
    assert_eq!(ids, vec!["alp", "alpha", "bravo", "charlie", "delta"]);
}

#[test]
fn listings_are_paged() {
    let mut db = Db::new();
    for id in ["aaa", "bbb", "ccc", "ddd", "eee"] {
        db.create_namespace(&Namespace::created_at(id, id, "", 1)).unwrap();
    }
    let ids = |rows: Vec<Namespace>| rows.into_iter().map(|n| n.id).collect::<Vec<String>>();
    assert_eq!(ids(db.list_namespaces(1, 2).unwrap()), vec!["bbb", "ccc"]);
    assert_eq!(ids(db.list_namespaces(4, 10).unwrap()), vec!["eee"]);
    assert_eq!(ids(db.list_namespaces(5, 10).unwrap()), Vec::<String>::new());
    assert_eq!(ids(db.list_namespaces(9, 1).unwrap()), Vec::<String>::new());
    assert_eq!(db.list_namespaces(0, 0).unwrap().len(), 5);
    assert_eq!(db.list_namespaces(0, 201).unwrap().len(), 5);
}

#[test]
fn the_limit_of_a_listing_is_clamped() {
    assert_eq!(MAX_ROW_LIMIT, 200);
    assert_eq!(page_limit(0), 200);
    assert_eq!(page_limit(1), 1);
    assert_eq!(page_limit(200), 200);
    assert_eq!(page_limit(201), 200);
    assert_eq!(page_limit(u64::MAX), 200);
}

#[test]
fn a_listing_never_returns_more_than_the_maximum() {
    let mut db = store_with_pipeline(0);
    for _ in 0..205 {
        db.create_run(&Run::started_at("test_namespace", "test_pipeline", trigger(), vec![], 5)).unwrap();
    }
    assert_eq!(db.list_runs(0, 0, "test_namespace", "test_pipeline").unwrap().len(), 200);
    assert_eq!(db.list_runs(0, 1000, "test_namespace", "test_pipeline").unwrap().len(), 200);
    assert_eq!(db.list_runs(200, 0, "test_namespace", "test_pipeline").unwrap().len(), 5);
    assert_eq!(db.list_runs(0, 3, "test_namespace", "test_pipeline").unwrap().len(), 3);
}

#[test]
fn updating_a_namespace_keeps_its_creation_time() {
    let mut db = Db::new();
    db.create_namespace(&Namespace::created_at("team_a", "Team A", "first", 100)).unwrap();
    let mut changed = Namespace::created_at("team_a", "Team Alpha", "second", 0);
    changed.modified = 250;
    db.update_namespace(&changed).unwrap();
    let stored = db.get_namespace("team_a").unwrap();
    assert_eq!(stored.name, "Team Alpha");
    assert_eq!(stored.description, "second");
    assert_eq!(stored.created, 100);
    assert_eq!(stored.modified, 250);
    assert_eq!(
        db.update_namespace(&Namespace::created_at("missing", "", "", 1)),
        Err(StorageError::NotFound)
    );
}

#[test]
fn deleting_a_namespace_takes_its_pipelines_and_runs_along() {
    let mut db = store_with_pipeline(0);
    db.create_run(&Run::started_at("test_namespace", "test_pipeline", trigger(), vec![], 5)).unwrap();
    db.delete_namespace("test_namespace").unwrap();
    assert_eq!(db.delete_namespace("test_namespace"), Err(StorageError::NotFound));
    assert_eq!(db.get_pipeline("test_namespace", "test_pipeline").unwrap_err(), StorageError::NotFound);
    assert_eq!(db.get_run("test_namespace", "test_pipeline", 1).unwrap_err(), StorageError::NotFound);
    assert_eq!(db.list_pipelines(0, 0, "test_namespace").unwrap().len(), 0);
    assert_eq!(db.list_runs(0, 0, "test_namespace", "test_pipeline").unwrap().len(), 0);
    // The identifier is free again, and nothing of the old namespace comes back.
    db.create_namespace(&Namespace::created_at("test_namespace", "Again", "", 1)).unwrap();
    assert_eq!(db.list_pipelines(0, 0, "test_namespace").unwrap().len(), 0);
}

#[test]
fn identifiers_are_unique_within_their_scope_only() {
    let mut db = Db::new();
    db.create_namespace(&Namespace::created_at("one", "One", "", 1)).unwrap();
    db.create_namespace(&Namespace::created_at("two", "Two", "", 1)).unwrap();
    let in_one = Pipeline::created_at("one".to_string(), PipelineConfig::new("build", "Build"), 1, 1);
    let in_two = Pipeline::created_at("two".to_string(), PipelineConfig::new("build", "Build"), 1, 1);
    assert_eq!(db.create_pipeline(&in_one), Ok(()));
    assert_eq!(db.create_pipeline(&in_two), Ok(()));
    assert_eq!(db.create_pipeline(&in_one), Err(StorageError::Exists));
    let nowhere = Pipeline::created_at("three".to_string(), PipelineConfig::new("build", "Build"), 1, 1);
    assert_eq!(db.create_pipeline(&nowhere), Err(StorageError::NotFound));
}

#[test]
fn a_pipeline_is_created_active() {
    let mut db = Db::new();
    db.create_namespace(&Namespace::created_at("one", "One", "", 1)).unwrap();
    let mut pipeline = Pipeline::created_at("one".to_string(), PipelineConfig::new("build", "Build"), 1, 1);
    assert_eq!(pipeline.state, PipelineState::Active);
    pipeline.state = PipelineState::Disabled;
    assert_eq!(db.create_pipeline(&pipeline), Err(StorageError::FailedPrecondition));
    pipeline.state = PipelineState::Active;
    assert_eq!(db.create_pipeline(&pipeline), Ok(()));
}

#[test]
fn a_disabled_pipeline_accepts_no_run() {
    let mut db = store_with_pipeline(0);
    db.update_pipeline_state("test_namespace", "test_pipeline", PipelineState::Disabled).unwrap();
    let run = Run::started_at("test_namespace", "test_pipeline", trigger(), vec![], 5);
    assert_eq!(db.create_run(&run), Err(StorageError::FailedPrecondition));
    db.update_pipeline_state("test_namespace", "test_pipeline", PipelineState::Active).unwrap();
    assert_eq!(db.create_run(&run), Ok(1));
    let missing = Run::started_at("test_namespace", "other", trigger(), vec![], 5);
    assert_eq!(db.create_run(&missing), Err(StorageError::NotFound));
}

#[test]
fn runs_are_numbered_from_one_and_numbers_are_not_reused() {
    let mut db = store_with_pipeline(0);
    let run = Run::started_at("test_namespace", "test_pipeline", trigger(), vec![], 5);
    assert_eq!(db.create_run(&run), Ok(1));
    assert_eq!(db.create_run(&run), Ok(2));
    db.delete_run("test_namespace", "test_pipeline", 2).unwrap();
    assert_eq!(db.create_run(&run), Ok(3));
    assert_eq!(db.delete_run("test_namespace", "test_pipeline", 2), Err(StorageError::NotFound));
}

#[test]
fn a_new_run_must_be_pending_and_without_outcome() {
    let mut db = store_with_pipeline(0);
    let mut run = Run::started_at("test_namespace", "test_pipeline", trigger(), vec![], 5);
    run.state = RunState::Running;
    assert_eq!(db.create_run(&run), Err(StorageError::FailedPrecondition));
    run.state = RunState::Pending;
    run.status = RunStatus::Failed;
    assert_eq!(db.create_run(&run), Err(StorageError::FailedPrecondition));
}

#[test]
fn a_run_never_goes_back() {
    let mut db = store_with_pipeline(0);
    let run = Run::started_at("test_namespace", "test_pipeline", trigger(), vec![], 5);
    db.create_run(&run).unwrap();
    let state = |db: &Db| db.get_run("test_namespace", "test_pipeline", 1).unwrap().state;
    let ns = "test_namespace";
    let pl = "test_pipeline";
    assert_eq!(db.update_run_state(ns, pl, 1, RunState::Unknown), Err(StorageError::FailedPrecondition));
    assert_eq!(db.update_run_state(ns, pl, 1, RunState::Running), Ok(()));
    assert_eq!(db.update_run_state(ns, pl, 1, RunState::Running), Ok(()));
    assert_eq!(db.update_run_state(ns, pl, 1, RunState::Pending), Err(StorageError::FailedPrecondition));
    assert_eq!(state(&db), RunState::Running);
    assert_eq!(db.update_run_state(ns, pl, 1, RunState::Complete), Ok(()));
    assert_eq!(db.update_run_state(ns, pl, 1, RunState::Running), Err(StorageError::FailedPrecondition));
    assert_eq!(state(&db), RunState::Complete);
    assert_eq!(db.update_run_state(ns, pl, 2, RunState::Running), Err(StorageError::NotFound));
}

#[test]
fn an_outcome_is_set_only_on_a_complete_run() {
    let mut db = store_with_pipeline(0);
    db.create_run(&Run::started_at("test_namespace", "test_pipeline", trigger(), vec![], 5)).unwrap();
    let mut run = db.get_run("test_namespace", "test_pipeline", 1).unwrap();
    run.state = RunState::Running;
    run.status = RunStatus::Successful;
    assert_eq!(db.update_run(&run), Err(StorageError::FailedPrecondition));
    run.state = RunState::Complete;
    run.ended = 9;
    assert_eq!(db.update_run(&run), Ok(()));
    assert_eq!(db.get_run("test_namespace", "test_pipeline", 1).unwrap(), run);
}

#[test]
fn an_update_keeps_the_start_time_of_a_run() {
    let mut db = store_with_pipeline(0);
    db.create_run(&Run::started_at("test_namespace", "test_pipeline", trigger(), vec![], 5)).unwrap();
    let mut run = db.get_run("test_namespace", "test_pipeline", 1).unwrap();
    run.started = 77;
    run.state = RunState::Running;
    db.update_run(&run).unwrap();
    let stored = db.get_run("test_namespace", "test_pipeline", 1).unwrap();
    assert_eq!(stored.started, 5);
    assert_eq!(stored.state, RunState::Running);
}

#[test]
fn the_number_of_running_runs_never_exceeds_the_parallelism() {
    let mut db = store_with_pipeline(2);
    let ns = "test_namespace";
    let pl = "test_pipeline";
    for _ in 0..4 {
        db.create_run(&Run::started_at(ns, pl, trigger(), vec![], 5)).unwrap();
    }
    assert_eq!(db.update_run_state(ns, pl, 1, RunState::Running), Ok(()));
    assert_eq!(db.update_run_state(ns, pl, 2, RunState::Running), Ok(()));
    assert_eq!(db.update_run_state(ns, pl, 3, RunState::Running), Err(StorageError::FailedPrecondition));
    let mut third = db.get_run(ns, pl, 3).unwrap();
    third.state = RunState::Running;
    assert_eq!(db.update_run(&third), Err(StorageError::FailedPrecondition));
    assert_eq!(db.update_run_state(ns, pl, 1, RunState::Complete), Ok(()));
    assert_eq!(db.update_run_state(ns, pl, 3, RunState::Running), Ok(()));
    let running = db
        .list_runs(0, 0, ns, pl)
        .unwrap()
        .into_iter()
        .filter(|r| r.state == RunState::Running)
        .count();
    assert_eq!(running, 2);
}

#[test]
fn a_parallelism_of_zero_sets_no_limit() {
    let mut db = store_with_pipeline(0);
    let ns = "test_namespace";
    let pl = "test_pipeline";
    for id in 1..=20 {
        db.create_run(&Run::started_at(ns, pl, trigger(), vec![], 5)).unwrap();
        assert_eq!(db.update_run_state(ns, pl, id, RunState::Running), Ok(()));
    }
}

#[test]
fn runs_are_listed_newest_first() {
    let mut db = store_with_pipeline(0);
    let ns = "test_namespace";
    let pl = "test_pipeline";
    for started in [30, 10, 20, 20] {
        db.create_run(&Run::started_at(ns, pl, trigger(), vec![], started)).unwrap();
    }
    let ids: Vec<u64> = db.list_runs(0, 0, ns, pl).unwrap().into_iter().map(|r| r.id).collect();
    assert_eq!(ids, vec![1, 4, 3, 2]);
    let ids: Vec<u64> = db.list_runs(1, 2, ns, pl).unwrap().into_iter().map(|r| r.id).collect();
    assert_eq!(ids, vec![4, 3]);
}

#[test]
fn a_pipeline_shows_its_newest_run() {
    let mut db = store_with_pipeline(0);
    let ns = "test_namespace";
    let pl = "test_pipeline";
    let shown = db.get_pipeline(ns, pl).unwrap();
    assert_eq!((shown.last_run_id, shown.last_run_time), (0, 0));
    for started in [30, 50, 40] {
        db.create_run(&Run::started_at(ns, pl, trigger(), vec![], started)).unwrap();
    }
    let shown = db.get_pipeline(ns, pl).unwrap();
    assert_eq!((shown.last_run_id, shown.last_run_time), (2, 50));
    let listed = db.list_pipelines(0, 0, ns).unwrap();
    assert_eq!((listed[0].last_run_id, listed[0].last_run_time), (2, 50));
}

#[test]
fn a_pipeline_changes_state_only_while_its_newest_run_is_complete() {
    let mut db = store_with_pipeline(0);
    let ns = "test_namespace";
    let pl = "test_pipeline";
    db.create_run(&Run::started_at(ns, pl, trigger(), vec![], 5)).unwrap();
    assert_eq!(
        db.update_pipeline_state(ns, pl, PipelineState::Disabled),
        Err(StorageError::FailedPrecondition)
    );
    db.update_run_state(ns, pl, 1, RunState::Complete).unwrap();
    assert_eq!(db.update_pipeline_state(ns, pl, PipelineState::Disabled), Ok(()));
    assert_eq!(db.get_pipeline(ns, pl).unwrap().state, PipelineState::Disabled);
    assert_eq!(db.update_pipeline_state(ns, "missing", PipelineState::Active), Err(StorageError::NotFound));
}

#[test]
fn an_update_of_a_pipeline_needs_every_run_complete_and_the_pipeline_disabled() {
    let mut db = store_with_pipeline(0);
    let ns = "test_namespace";
    let pl = "test_pipeline";
    db.create_run(&Run::started_at(ns, pl, trigger(), vec![], 5)).unwrap();
    db.create_run(&Run::started_at(ns, pl, trigger(), vec![], 4)).unwrap();
    db.update_run_state(ns, pl, 1, RunState::Complete).unwrap();
    // The newest run (by start time) is complete, so the pipeline can be disabled...
    db.update_pipeline_state(ns, pl, PipelineState::Disabled).unwrap();
    let mut changed = db.get_pipeline(ns, pl).unwrap();
    changed.name = "Changed".to_string();
    changed.created = 999;
    // ...but run 2 is still pending, which blocks the update.
    assert_eq!(db.update_pipeline(&changed), Err(StorageError::FailedPrecondition));
    db.update_run_state(ns, pl, 2, RunState::Complete).unwrap();
    assert_eq!(db.update_pipeline(&changed), Ok(()));
    let stored = db.get_pipeline(ns, pl).unwrap();
    assert_eq!(stored.name, "Changed");
    assert_eq!(stored.created, 20);
    let mut missing = changed;
    missing.id = "missing".to_string();
    assert_eq!(db.update_pipeline(&missing), Err(StorageError::NotFound));
}

#[test]
fn the_next_run_to_start_is_the_oldest_pending_one_when_there_is_room() {
    let mut db = store_with_pipeline(1);
    let ns = "test_namespace";
    let pl = "test_pipeline";
    assert_eq!(db.next_pending_run(ns, pl), Ok(None));
    for _ in 0..3 {
        db.create_run(&Run::started_at(ns, pl, trigger(), vec![], 5)).unwrap();
    }
    assert_eq!(db.next_pending_run(ns, pl), Ok(Some(1)));
    db.update_run_state(ns, pl, 1, RunState::Running).unwrap();
    assert_eq!(db.next_pending_run(ns, pl), Ok(None));
    db.update_run_state(ns, pl, 1, RunState::Complete).unwrap();
    assert_eq!(db.next_pending_run(ns, pl), Ok(Some(2)));
    assert_eq!(db.next_pending_run(ns, "missing"), Err(StorageError::NotFound));
}

#[test]
fn failures_of_the_database_are_classified() {
    let conflict = BackendFailure::Database {
        code: Some(SqliteErrors::Constraint.value()),
        message: "UNIQUE constraint failed".to_string(),
        text: "error returned from database: UNIQUE constraint failed".to_string(),
    };
    assert_eq!(SqliteErrors::Constraint.value(), "1555");
    assert_eq!(StorageError::on_insert(conflict), StorageError::Exists);
    let other = BackendFailure::Database {
        code: Some("787".to_string()),
        message: "FOREIGN KEY constraint failed".to_string(),
        text: "error returned from database: FOREIGN KEY constraint failed".to_string(),
    };
    assert_eq!(
        StorageError::on_insert(other),
        StorageError::Unknown("FOREIGN KEY constraint failed".to_string())
    );
    let no_code =
        BackendFailure::Database { code: None, message: "m".to_string(), text: "t".to_string() };
    assert_eq!(StorageError::on_insert(no_code), StorageError::Unknown("m".to_string()));
    assert_eq!(
        StorageError::on_insert(BackendFailure::Other { text: "pool timed out".to_string() }),
        StorageError::Unknown(String::new())
    );
    assert_eq!(StorageError::on_insert(BackendFailure::RowNotFound), StorageError::Unknown(String::new()));
    assert_eq!(StorageError::on_change(BackendFailure::RowNotFound), StorageError::NotFound);
    assert_eq!(
        StorageError::on_change(BackendFailure::Other { text: "pool timed out".to_string() }),
        StorageError::Unknown("pool timed out".to_string())
    );
    let refused =
        BackendFailure::Database { code: None, message: "m".to_string(), text: "t".to_string() };
    assert_eq!(StorageError::on_change(refused), StorageError::Unknown("t".to_string()));
}

#[test]
fn a_store_is_put_back_from_what_was_stored() {
    let mut db = Db::new();
    db.create_namespace(&Namespace::created_at("default", "Default", "", 1)).unwrap();
    let mut disabled =
        Pipeline::created_at("default".to_string(), PipelineConfig::new("build", "Build").parallelism(1), 2, 3);
    disabled.state = PipelineState::Disabled;
    assert_eq!(db.restore_pipeline(&disabled), Ok(()));
    assert_eq!(db.restore_pipeline(&disabled), Err(StorageError::Exists));
    let mut unknown = Pipeline::created_at("default".to_string(), PipelineConfig::new("other", "O"), 2, 3);
    unknown.state = PipelineState::Unknown;
    assert_eq!(db.restore_pipeline(&unknown), Err(StorageError::FailedPrecondition));
    unknown.namespace = "nowhere".to_string();
    assert_eq!(db.restore_pipeline(&unknown), Err(StorageError::NotFound));

    let stored = |id: u64, state: RunState, status: RunStatus| {
        let mut run = Run::started_at("default", "build", trigger(), vec![], 10 + id);
        run.id = id;
        run.state = state;
        run.status = status;
        run
    };
    assert_eq!(db.restore_run(&stored(3, RunState::Complete, RunStatus::Failed)), Ok(()));
    // Numbers go up: a run cannot be put back under a number that was given.
    assert_eq!(
        db.restore_run(&stored(3, RunState::Complete, RunStatus::Failed)),
        Err(StorageError::FailedPrecondition)
    );
    assert_eq!(
        db.restore_run(&stored(2, RunState::Pending, RunStatus::Unknown)),
        Err(StorageError::FailedPrecondition)
    );
    assert_eq!(db.restore_run(&stored(5, RunState::Running, RunStatus::Unknown)), Ok(()));
    // The pipeline allows one running run.
    assert_eq!(
        db.restore_run(&stored(6, RunState::Running, RunStatus::Unknown)),
        Err(StorageError::FailedPrecondition)
    );
    assert_eq!(
        db.restore_run(&stored(6, RunState::Unknown, RunStatus::Unknown)),
        Err(StorageError::FailedPrecondition)
    );
    assert_eq!(
        db.restore_run(&stored(6, RunState::Running, RunStatus::Successful)),
        Err(StorageError::FailedPrecondition)
    );
    assert_eq!(db.restore_run(&stored(6, RunState::Pending, RunStatus::Unknown)), Ok(()));
    let mut elsewhere = stored(7, RunState::Pending, RunStatus::Unknown);
    elsewhere.pipeline = "missing".to_string();
    assert_eq!(db.restore_run(&elsewhere), Err(StorageError::NotFound));
    let ids: Vec<u64> =
        db.list_runs(0, 0, "default", "build").unwrap().into_iter().map(|r| r.id).collect();
    assert_eq!(ids, vec![6, 5, 3]);
    assert_eq!(db.get_pipeline("default", "build").unwrap().state, PipelineState::Disabled);
    // The newest run waits for its turn: the pipeline cannot change state.
    db.update_pipeline_state("default", "build", PipelineState::Active).unwrap_err();
}
