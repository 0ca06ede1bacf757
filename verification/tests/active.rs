use gofer::api::{Api, BuildInfo, StatusCode};
use gofer::conf::api::Config;
use gofer::models::{
    PipelineConfig, RequiredParentStatus, RunFailureReason, RunState, RunStatus, RunTriggerInfo,
    Task, TaskRunState,
};
use gofer::orchestrator::active::{ActiveRuns, Order};
use gofer::orchestrator::tracker::{Action, Event};

fn service() -> Api {
    let build = BuildInfo { semver: "0.1.0".to_string(), commit: "abcdef".to_string() };
    Api::new(Config::default(), build, 1)
}

fn manual() -> RunTriggerInfo {
    RunTriggerInfo { kind: "manual".to_string(), label: "api".to_string() }
}

fn started(orders: &[Order]) -> Vec<(u64, String)> {
    orders
        .iter()
        .filter_map(|o| match &o.action {
            Action::Start { task, .. } => Some((o.run, task.clone())),
            _ => None,
        })
        .collect()
}

fn stopped(orders: &[Order]) -> Vec<(u64, String, i64)> {
    orders
        .iter()
        .filter_map(|o| match &o.action {
            Action::Stop { task, stop } => Some((o.run, task.clone(), stop.timeout)),
            _ => None,
        })
        .collect()
}

fn over(task: &str, state: TaskRunState, exit_code: u8) -> Event {
    Event::Observed { task: task.to_string(), state, exit_code: Some(exit_code) }
}

fn one_task(api: &mut Api, parallelism: u64) {
    let config = PipelineConfig::new("build", "Build")
        .parallelism(parallelism)
        .tasks(vec![Task::new("compile", "rust")]);
    api.create_pipeline("default", Some(config), 2).unwrap();
}

#[test]
fn nothing_is_launched_where_nothing_waits() {
    let mut api = service();
    let mut active = ActiveRuns::new(5);
    let launched = active.launch(&mut api, "default", "missing", 10);
    assert!(launched.run.is_none() && launched.finished.is_none() && launched.orders.is_empty());
    one_task(&mut api, 0);
    let launched = active.launch(&mut api, "default", "build", 10);
    assert!(launched.run.is_none() && launched.finished.is_none() && launched.orders.is_empty());
    assert_eq!(active.len(), 0);
}

#[test]
fn the_run_whose_turn_it_is_is_launched_and_written_down() {
    let mut api = service();
    one_task(&mut api, 0);
    assert_eq!(api.start_run("default", "build", manual(), vec![], 10), Ok(1));
    let mut active = ActiveRuns::new(5);
    let launched = active.launch(&mut api, "default", "build", 20);
    assert_eq!(launched.run, Some(1));
    assert!(launched.finished.is_none());
    assert_eq!(started(&launched.orders), vec![(1, "compile".to_string())]);
    assert_eq!(launched.orders[0].namespace, "default");
    assert_eq!(launched.orders[0].pipeline, "build");
    assert_eq!(active.len(), 1);
    assert_eq!(active.run_at(0).id, 1);
    assert_eq!(active.position("default", "build", 1), Some(0));
    assert_eq!(active.position("default", "build", 2), None);
    assert_eq!(active.position("other", "build", 1), None);
    let stored = api.get_run("default", "build", 1).unwrap();
    assert_eq!(stored.state, RunState::Running);
    assert_eq!(stored.task_runs, vec!["compile".to_string()]);
}

#[test]
fn a_run_that_ends_is_handed_out_and_written_down() {
    let mut api = service();
    one_task(&mut api, 0);
    api.start_run("default", "build", manual(), vec![], 10).unwrap();
    let mut active = ActiveRuns::new(5);
    active.launch(&mut api, "default", "build", 20);
    let event = Event::Started { task: "compile".to_string(), scheduler_id: None, url: None };
    let told = active.tell(&mut api, "default", "build", 1, event, 21).unwrap();
    assert!(told.orders.is_empty() && told.finished.is_none());
    assert_eq!(active.len(), 1);
    let told = active
        .tell(&mut api, "default", "build", 1, over("compile", TaskRunState::Success, 0), 30)
        .unwrap();
    assert!(told.orders.is_empty());
    let tracker = told.finished.unwrap();
    assert!(tracker.is_complete());
    assert_eq!(tracker.task_run("compile").unwrap().ended, 30);
    assert_eq!(active.len(), 0);
    let stored = api.get_run("default", "build", 1).unwrap();
    assert_eq!((stored.state, stored.status, stored.ended), (RunState::Complete, RunStatus::Successful, 30));
    // Nobody follows the run any more.
    assert!(active.tell(&mut api, "default", "build", 1, over("compile", TaskRunState::Failed, 1), 31).is_none());
    assert_eq!(api.get_run("default", "build", 1).unwrap().status, RunStatus::Successful);
}

#[test]
fn a_step_starts_the_tasks_whose_turn_has_come() {
    let mut api = service();
    let config = PipelineConfig::new("chain", "Chain").tasks(vec![
        Task::new("a", "alpine"),
        Task::new("b", "alpine").depends_on_one("a", RequiredParentStatus::Success),
    ]);
    api.create_pipeline("default", Some(config), 2).unwrap();
    api.start_run("default", "chain", manual(), vec![], 10).unwrap();
    let mut active = ActiveRuns::new(5);
    let launched = active.launch(&mut api, "default", "chain", 20);
    assert_eq!(started(&launched.orders), vec![(1, "a".to_string())]);
    let told = active.tell(&mut api, "default", "chain", 1, over("a", TaskRunState::Success, 0), 25).unwrap();
    assert_eq!(started(&told.orders), vec![(1, "b".to_string())]);
    assert!(told.finished.is_none());
    let stored = api.get_run("default", "chain", 1).unwrap();
    assert_eq!(stored.task_runs, vec!["a".to_string(), "b".to_string()]);
}

#[test]
fn runs_take_turns_where_the_pipeline_allows_one() {
    let mut api = service();
    one_task(&mut api, 1);
    for now in 10..13 {
        api.start_run("default", "build", manual(), vec![], now).unwrap();
    }
    let mut active = ActiveRuns::new(5);
    assert_eq!(active.launch(&mut api, "default", "build", 20).run, Some(1));
    // The first run is running: the second must wait.
    assert_eq!(active.launch(&mut api, "default", "build", 21).run, None);
    assert_eq!(active.len(), 1);
    assert_eq!(api.open_runs("default", "build"), Ok(vec![1, 2, 3]));
    active.tell(&mut api, "default", "build", 1, over("compile", TaskRunState::Success, 0), 22);
    assert_eq!(api.open_runs("default", "build"), Ok(vec![2, 3]));
    assert_eq!(active.launch(&mut api, "default", "build", 23).run, Some(2));
    assert_eq!(active.launch(&mut api, "default", "build", 24).run, None);
    active.tell(&mut api, "default", "build", 2, over("compile", TaskRunState::Failed, 1), 25);
    assert_eq!(active.launch(&mut api, "default", "build", 26).run, Some(3));
    assert_eq!(api.open_runs("default", "build"), Ok(vec![3]));
    assert_eq!(api.open_runs("default", "none").unwrap_err().code, StatusCode::NotFound);
}

#[test]
fn runs_of_several_pipelines_are_followed_side_by_side() {
    let mut api = service();
    one_task(&mut api, 0);
    let other = PipelineConfig::new("deploy", "Deploy").tasks(vec![Task::new("ship", "alpine")]);
    api.create_pipeline("default", Some(other), 3).unwrap();
    api.start_run("default", "build", manual(), vec![], 10).unwrap();
    api.start_run("default", "build", manual(), vec![], 11).unwrap();
    api.start_run("default", "deploy", manual(), vec![], 12).unwrap();
    let mut active = ActiveRuns::new(5);
    assert_eq!(active.launch(&mut api, "default", "build", 20).run, Some(1));
    assert_eq!(active.launch(&mut api, "default", "deploy", 20).run, Some(1));
    assert_eq!(active.launch(&mut api, "default", "build", 20).run, Some(2));
    assert_eq!(active.len(), 3);
    assert_eq!(active.position("default", "deploy", 1), Some(1));
    assert_eq!(active.position("default", "build", 2), Some(2));
    active.tell(&mut api, "default", "deploy", 1, over("ship", TaskRunState::Success, 0), 30);
    assert_eq!(active.len(), 2);
    assert_eq!(active.position("default", "build", 2), Some(1));
    assert_eq!(api.get_run("default", "build", 1).unwrap().state, RunState::Running);
    assert_eq!(api.get_run("default", "deploy", 1).unwrap().state, RunState::Complete);
}

#[test]
fn a_running_run_is_cancelled_through_its_tracker() {
    let mut api = service();
    one_task(&mut api, 0);
    api.start_run("default", "build", manual(), vec![], 10).unwrap();
    api.start_run("default", "build", manual(), vec![], 11).unwrap();
    let mut active = ActiveRuns::new(5);
    active.launch(&mut api, "default", "build", 20);
    active.launch(&mut api, "default", "build", 20);
    let event = Event::Started { task: "compile".to_string(), scheduler_id: None, url: None };
    active.tell(&mut api, "default", "build", 1, event, 21);
    let event = Event::Started { task: "compile".to_string(), scheduler_id: None, url: None };
    active.tell(&mut api, "default", "build", 2, event, 21);

    // Gracefully: the container is given its grace, and the run goes on until it has stopped.
    let told = active
        .cancel(&mut api, "default", "build", 1, RunFailureReason::UserCancelled, false, 30)
        .unwrap();
    assert_eq!(stopped(&told.orders), vec![(1, "compile".to_string(), 5)]);
    assert!(told.finished.is_none());
    assert_eq!(api.get_run("default", "build", 1).unwrap().state, RunState::Running);
    let told = active
        .tell(&mut api, "default", "build", 1, over("compile", TaskRunState::Success, 0), 32)
        .unwrap();
    assert!(told.finished.is_some());
    assert_eq!(api.get_run("default", "build", 1).unwrap().status, RunStatus::Successful);

    // By force: the container is stopped at once, and the run is over.
    let told = active
        .cancel(&mut api, "default", "build", 2, RunFailureReason::AdminCancelled, true, 40)
        .unwrap();
    assert_eq!(stopped(&told.orders), vec![(2, "compile".to_string(), 0)]);
    assert!(told.finished.is_some());
    let stored = api.get_run("default", "build", 2).unwrap();
    assert_eq!((stored.state, stored.status), (RunState::Complete, RunStatus::Cancelled));
    assert_eq!(stored.failure_info.unwrap().reason, RunFailureReason::AdminCancelled);
    assert_eq!(active.len(), 0);
}

#[test]
fn a_waiting_run_is_cancelled_in_the_store_and_a_missing_one_is_not_found() {
    let mut api = service();
    one_task(&mut api, 1);
    api.start_run("default", "build", manual(), vec![], 10).unwrap();
    api.start_run("default", "build", manual(), vec![], 11).unwrap();
    let mut active = ActiveRuns::new(5);
    active.launch(&mut api, "default", "build", 20);
    let told = active
        .cancel(&mut api, "default", "build", 2, RunFailureReason::UserCancelled, false, 30)
        .unwrap();
    assert!(told.orders.is_empty() && told.finished.is_none());
    let stored = api.get_run("default", "build", 2).unwrap();
    assert_eq!((stored.state, stored.status, stored.ended), (RunState::Complete, RunStatus::Cancelled, 30));
    assert_eq!(stored.failure_info.unwrap().reason, RunFailureReason::UserCancelled);
    assert_eq!(active.len(), 1);
    // Cancelling again changes nothing.
    assert!(active.cancel(&mut api, "default", "build", 2, RunFailureReason::AdminCancelled, true, 31).is_ok());
    let again = api.get_run("default", "build", 2).unwrap();
    assert_eq!(again.ended, 30);
    assert_eq!(again.failure_info.unwrap().reason, RunFailureReason::UserCancelled);
    let missing = active.cancel(&mut api, "default", "build", 9, RunFailureReason::UserCancelled, true, 32);
    assert_eq!(missing.unwrap_err().code, StatusCode::NotFound);
}
