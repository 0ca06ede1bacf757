use gofer::graph::{dependency_places, is_closed, run_order, topological_order};
use gofer::models::{
    Exec, RequiredParentStatus, Run, RunFailureReason, RunState, RunStatus, RunTriggerInfo, Task,
    TaskRunState, Variable, VariableOwner,
};
use gofer::orchestrator::is_satisfied;
use gofer::orchestrator::tracker::{Action, Event, RunTracker, StartError};
use gofer::orchestrator::variables::{container_name, environment, record_parent_status};
use gofer::scheduler::StartContainerRequest;
use gofer::string_map::StringMap;

fn tasks_of(tasks: Vec<Task>) -> StringMap<Task> {
    let mut map = StringMap::new();
    for task in tasks {
        map.insert(task.id.clone(), task);
    }
    map
}

/// Tasks `a`, `b` and `c`: `b` needs `a` to succeed, `c` runs after `b` however it ends.
fn chain() -> StringMap<Task> {
    tasks_of(vec![
        Task::new("a", "alpine"),
        Task::new("b", "alpine").depends_on_one("a", RequiredParentStatus::Success),
        Task::new("c", "alpine").depends_on_one("b", RequiredParentStatus::Any),
    ])
}

fn pending_run() -> Run {
    let mut run = Run::started_at(
        "space",
        "pipe",
        RunTriggerInfo { kind: "manual".to_string(), label: "api".to_string() },
        vec![],
        100,
    );
    run.id = 1;
    run
}

fn started(actions: &[Action]) -> Vec<String> {
    actions
        .iter()
        .filter_map(|a| match a {
            Action::Start { task, .. } => Some(task.clone()),
            _ => None,
        })
        .collect()
}

fn stopped(actions: &[Action]) -> Vec<(String, String, i64)> {
    actions
        .iter()
        .filter_map(|a| match a {
            Action::Stop { task, stop } => Some((task.clone(), stop.name.clone(), stop.timeout)),
            _ => None,
        })
        .collect()
}

fn request_of(actions: &[Action], wanted: &str) -> StartContainerRequest {
    for action in actions {
        if let Action::Start { task, request } = action {
            if task == wanted {
                return StartContainerRequest {
                    name: request.name.clone(),
                    image_name: request.image_name.clone(),
                    variables: request.variables.clone(),
                    registry_auth: None,
                    always_pull: request.always_pull,
                    enable_networking: request.enable_networking,
                    entrypoint: None,
                };
            }
        }
    }
    panic!("no start for {}", wanted);
}

fn observed(task: &str, state: TaskRunState, exit_code: u8) -> Event {
    Event::Observed { task: task.to_string(), state, exit_code: Some(exit_code) }
}

fn state_of(tracker: &RunTracker, task: &str) -> Option<TaskRunState> {
    tracker.task_run(task).map(|t| t.state)
}

#[test]
fn a_requirement_is_met_by_the_outcome_it_names() {
    for status in [RunStatus::Unknown, RunStatus::Successful, RunStatus::Failed, RunStatus::Cancelled] {
        assert!(is_satisfied(RequiredParentStatus::Any, status));
        assert!(!is_satisfied(RequiredParentStatus::Unknown, status));
        assert_eq!(is_satisfied(RequiredParentStatus::Success, status), status == RunStatus::Successful);
        assert_eq!(is_satisfied(RequiredParentStatus::Failure, status), status == RunStatus::Failed);
    }
}

#[test]
fn tasks_are_ordered_after_the_tasks_they_depend_on() {
    assert_eq!(topological_order(&vec![vec![], vec![0], vec![1]]), Some(vec![0, 1, 2]));
    assert_eq!(topological_order(&vec![vec![2], vec![0], vec![]]), Some(vec![2, 0, 1]));
    assert_eq!(topological_order(&vec![vec![1], vec![2], vec![]]), Some(vec![2, 1, 0]));
    assert_eq!(topological_order(&vec![]), Some(vec![]));
    assert_eq!(topological_order(&vec![vec![], vec![0, 0], vec![0, 1]]), Some(vec![0, 1, 2]));
}

#[test]
fn a_cycle_leaves_no_order() {
    assert_eq!(topological_order(&vec![vec![0]]), None);
    assert_eq!(topological_order(&vec![vec![1], vec![0]]), None);
    assert_eq!(topological_order(&vec![vec![], vec![2], vec![3], vec![1]]), None);
    assert!(is_closed(&vec![vec![1], vec![0]]));
    assert!(!is_closed(&vec![vec![2], vec![0]]));
    assert!(is_closed(&vec![]));
}

#[test]
fn dependencies_are_looked_up_among_the_tasks() {
    assert_eq!(dependency_places(&chain()), Some(vec![vec![], vec![0], vec![1]]));
    assert_eq!(run_order(&chain()), Some(vec![0, 1, 2]));
    let unknown = tasks_of(vec![Task::new("a", "alpine").depends_on_one("z", RequiredParentStatus::Any)]);
    assert_eq!(dependency_places(&unknown), None);
    assert_eq!(run_order(&unknown), None);
    let cycle = tasks_of(vec![
        Task::new("a", "alpine").depends_on_one("b", RequiredParentStatus::Any),
        Task::new("b", "alpine").depends_on_one("a", RequiredParentStatus::Any),
    ]);
    assert_eq!(dependency_places(&cycle), Some(vec![vec![1], vec![0]]));
    assert_eq!(run_order(&cycle), None);
}

#[test]
fn a_run_that_is_not_pending_or_not_runnable_is_not_taken_up() {
    let mut run = pending_run();
    run.state = RunState::Running;
    assert_eq!(RunTracker::begin(run, &chain(), 5, 100).err(), Some(StartError::RunNotPending));
    let cycle = tasks_of(vec![Task::new("a", "alpine").depends_on_one("a", RequiredParentStatus::Any)]);
    assert_eq!(RunTracker::begin(pending_run(), &cycle, 5, 100).err(), Some(StartError::NotRunnable));
    let unknown = tasks_of(vec![Task::new("a", "alpine").depends_on_one("z", RequiredParentStatus::Any)]);
    assert_eq!(RunTracker::begin(pending_run(), &unknown, 5, 100).err(), Some(StartError::NotRunnable));
}

#[test]
fn a_run_without_tasks_is_complete_at_once() {
    let (tracker, actions) = RunTracker::begin(pending_run(), &StringMap::new(), 5, 150).unwrap();
    assert_eq!(actions.len(), 0);
    assert!(tracker.is_complete());
    assert_eq!(tracker.run().status, RunStatus::Successful);
    assert_eq!(tracker.run().ended, 150);
    assert_eq!(tracker.run().failure_info, None);
}

/// Dependency ordering: `b` starts strictly after `a` completes; `c` starts after `b` is over.
#[test]
fn tasks_start_in_the_order_of_their_dependencies() {
    let (mut tracker, actions) = RunTracker::begin(pending_run(), &chain(), 5, 100).unwrap();
    assert_eq!(started(&actions), vec!["a"]);
    assert_eq!(tracker.run().state, RunState::Running);
    assert_eq!(tracker.run().status, RunStatus::Unknown);
    assert_eq!(state_of(&tracker, "a"), Some(TaskRunState::Processing));
    assert_eq!(state_of(&tracker, "b"), None);
    assert_eq!(state_of(&tracker, "c"), None);

    let actions = tracker.step(
        Event::Started { task: "a".to_string(), scheduler_id: Some("abc123".to_string()), url: None },
        101,
    );
    assert_eq!(actions.len(), 0);
    assert_eq!(state_of(&tracker, "a"), Some(TaskRunState::Running));
    assert_eq!(tracker.task_run("a").unwrap().scheduler_id, Some("abc123".to_string()));
    assert_eq!(state_of(&tracker, "b"), None);

    let actions = tracker.step(observed("a", TaskRunState::Running, 0), 102);
    assert_eq!(actions.len(), 0);
    assert_eq!(state_of(&tracker, "b"), None);

    let actions = tracker.step(observed("a", TaskRunState::Success, 0), 110);
    assert_eq!(started(&actions), vec!["b"]);
    let a = tracker.task_run("a").unwrap();
    assert_eq!((a.started, a.ended, a.exit_code), (100, 110, Some(0)));
    assert_eq!(tracker.task_run("b").unwrap().started, 110);
    assert_eq!(state_of(&tracker, "c"), None);
    assert!(!tracker.is_complete());

    let actions = tracker.step(observed("b", TaskRunState::Failed, 3), 120);
    assert_eq!(started(&actions), vec!["c"]);
    assert_eq!(tracker.task_run("b").unwrap().exit_code, Some(3));
    assert_eq!(
        tracker.task_run("b").unwrap().failure.unwrap().reason,
        RunFailureReason::AbnormalExit
    );

    let actions = tracker.step(observed("c", TaskRunState::Success, 0), 130);
    assert_eq!(actions.len(), 0);
    assert!(tracker.is_complete());
    assert_eq!(tracker.run().status, RunStatus::Failed);
    assert_eq!(tracker.run().ended, 130);
    assert_eq!(tracker.run().failure_info.as_ref().unwrap().reason, RunFailureReason::AbnormalExit);
    assert_eq!(tracker.run().task_runs, vec!["a", "b", "c"]);
}

/// Failed-precondition skip: when `a` fails, `b` is set aside and `c` still runs.
#[test]
fn a_task_whose_parent_did_not_end_as_asked_is_set_aside() {
    let (mut tracker, _) = RunTracker::begin(pending_run(), &chain(), 5, 100).unwrap();
    let actions = tracker.step(observed("a", TaskRunState::Failed, 1), 110);
    assert_eq!(started(&actions), vec!["c"]);
    let b = tracker.task_run("b").unwrap();
    assert_eq!(b.state, TaskRunState::Cancelled);
    assert_eq!(b.failure.unwrap().reason, RunFailureReason::FailedPrecondition);
    assert_eq!((b.started, b.ended), (0, 110));
    assert_eq!(state_of(&tracker, "c"), Some(TaskRunState::Processing));
    // `c` is told how `b` ended.
    let request = request_of(&actions, "c");
    assert_eq!(
        request.variables.get(&"GOFER_TASK_STATUS_b".to_string()),
        Some(&"Cancelled".to_string())
    );
    let actions = tracker.step(observed("c", TaskRunState::Success, 0), 120);
    assert_eq!(actions.len(), 0);
    assert!(tracker.is_complete());
    // A task was set aside, none was stopped: the run failed because `a` failed.
    assert_eq!(tracker.run().status, RunStatus::Failed);
}

#[test]
fn a_task_that_waits_for_a_failure_is_set_aside_when_its_parent_succeeds() {
    let tasks = tasks_of(vec![
        Task::new("a", "alpine"),
        Task::new("cleanup", "alpine").depends_on_one("a", RequiredParentStatus::Failure),
    ]);
    let (mut tracker, actions) = RunTracker::begin(pending_run(), &tasks, 5, 100).unwrap();
    assert_eq!(started(&actions), vec!["a"]);
    let actions = tracker.step(observed("a", TaskRunState::Success, 0), 110);
    assert_eq!(actions.len(), 0);
    assert_eq!(state_of(&tracker, "cleanup"), Some(TaskRunState::Cancelled));
    assert!(tracker.is_complete());
    assert_eq!(tracker.run().status, RunStatus::Successful);
    assert_eq!(tracker.run().failure_info, None);
}

#[test]
fn tasks_that_wait_for_nothing_start_together() {
    let tasks = tasks_of(vec![
        Task::new("a", "alpine"),
        Task::new("b", "alpine"),
        Task::new("join", "alpine")
            .depends_on_one("a", RequiredParentStatus::Success)
            .depends_on_one("b", RequiredParentStatus::Success),
    ]);
    let (mut tracker, actions) = RunTracker::begin(pending_run(), &tasks, 5, 100).unwrap();
    assert_eq!(started(&actions), vec!["a", "b"]);
    assert_eq!(tracker.task_count(), 3);
    assert_eq!(started(&tracker.step(observed("b", TaskRunState::Success, 0), 105)), Vec::<String>::new());
    assert_eq!(state_of(&tracker, "join"), None);
    assert_eq!(started(&tracker.step(observed("a", TaskRunState::Success, 0), 106)), vec!["join"]);
    tracker.step(observed("join", TaskRunState::Success, 0), 107);
    assert!(tracker.is_complete());
    assert_eq!(tracker.run().status, RunStatus::Successful);
}

#[test]
fn a_container_that_cannot_be_started_fails_its_task() {
    let (mut tracker, _) = RunTracker::begin(pending_run(), &chain(), 5, 100).unwrap();
    let actions = tracker.step(
        Event::StartFailed { task: "a".to_string(), reason: "docker image not found".to_string() },
        105,
    );
    let a = tracker.task_run("a").unwrap();
    assert_eq!(a.state, TaskRunState::Failed);
    let failure = a.failure.unwrap();
    assert_eq!(failure.reason, RunFailureReason::SchedulerError);
    assert_eq!(failure.description, "docker image not found");
    assert_eq!(started(&actions), vec!["c"]);
    tracker.step(observed("c", TaskRunState::Success, 0), 106);
    assert_eq!(tracker.run().status, RunStatus::Failed);
    assert_eq!(tracker.run().failure_info.as_ref().unwrap().reason, RunFailureReason::SchedulerError);
}

#[test]
fn events_about_strangers_and_finished_tasks_change_nothing() {
    let (mut tracker, _) = RunTracker::begin(pending_run(), &chain(), 5, 100).unwrap();
    assert_eq!(tracker.step(observed("zzz", TaskRunState::Success, 0), 101).len(), 0);
    assert_eq!(tracker.step(observed("b", TaskRunState::Success, 0), 101).len(), 0);
    assert_eq!(state_of(&tracker, "b"), None);
    assert_eq!(tracker.step(observed("a", TaskRunState::Unknown, 0), 101).len(), 0);
    assert_eq!(state_of(&tracker, "a"), Some(TaskRunState::Processing));
    tracker.step(observed("a", TaskRunState::Success, 0), 110);
    let before = tracker.task_run("a").unwrap();
    tracker.step(observed("a", TaskRunState::Failed, 9), 120);
    assert_eq!(tracker.task_run("a").unwrap(), before);
}

#[test]
fn the_end_of_a_task_run_never_comes_before_its_start() {
    let (mut tracker, _) = RunTracker::begin(pending_run(), &chain(), 5, 100).unwrap();
    tracker.step(observed("a", TaskRunState::Success, 0), 50);
    let a = tracker.task_run("a").unwrap();
    assert_eq!((a.started, a.ended), (100, 100));
    assert_eq!(tracker.task_run("b").unwrap().started, 50);
    tracker.step(observed("b", TaskRunState::Success, 0), 40);
    tracker.step(observed("c", TaskRunState::Success, 0), 30);
    assert!(tracker.is_complete());
    let run = tracker.run();
    assert_eq!((run.started, run.ended), (100, 100));
    for task in ["a", "b", "c"] {
        let t = tracker.task_run(task).unwrap();
        assert!(t.started <= t.ended);
    }
}

/// Graceful shutdown drains: the task is allowed to finish, and the run succeeds.
#[test]
fn a_graceful_cancellation_lets_running_tasks_finish() {
    let tasks = tasks_of(vec![Task::new("work", "alpine")]);
    let (mut tracker, _) = RunTracker::begin(pending_run(), &tasks, 5, 100).unwrap();
    tracker.step(Event::Started { task: "work".to_string(), scheduler_id: None, url: None }, 101);
    let actions = tracker.step(Event::Cancel { by: RunFailureReason::AdminCancelled, force: false }, 102);
    assert_eq!(stopped(&actions), vec![("work".to_string(), "space_pipe_1_work".to_string(), 5)]);
    assert_eq!(started(&actions), Vec::<String>::new());
    assert_eq!(state_of(&tracker, "work"), Some(TaskRunState::Running));
    assert!(!tracker.is_complete());
    tracker.step(observed("work", TaskRunState::Success, 0), 104);
    assert!(tracker.is_complete());
    assert_eq!(tracker.run().status, RunStatus::Successful);
    assert_eq!(tracker.run().failure_info, None);
}

/// A forced cancellation kills the task: the run is cancelled by the administrator.
#[test]
fn a_forced_cancellation_ends_the_run_at_once() {
    let tasks = tasks_of(vec![Task::new("work", "alpine")]);
    let (mut tracker, _) = RunTracker::begin(pending_run(), &tasks, 5, 100).unwrap();
    tracker.step(Event::Started { task: "work".to_string(), scheduler_id: None, url: None }, 101);
    let actions = tracker.step(Event::Cancel { by: RunFailureReason::AdminCancelled, force: true }, 102);
    assert_eq!(stopped(&actions), vec![("work".to_string(), "space_pipe_1_work".to_string(), 0)]);
    assert!(tracker.is_complete());
    assert_eq!(tracker.run().state, RunState::Complete);
    assert_eq!(tracker.run().status, RunStatus::Cancelled);
    assert_eq!(tracker.run().failure_info.as_ref().unwrap().reason, RunFailureReason::AdminCancelled);
    let work = tracker.task_run("work").unwrap();
    assert_eq!(work.state, TaskRunState::Cancelled);
    assert_eq!(work.failure.unwrap().reason, RunFailureReason::AdminCancelled);
    assert_eq!(work.ended, 102);
}

#[test]
fn a_cancellation_starts_no_task_and_names_who_cancelled() {
    let (mut tracker, _) = RunTracker::begin(pending_run(), &chain(), 5, 100).unwrap();
    let actions = tracker.step(Event::Cancel { by: RunFailureReason::UserCancelled, force: false }, 101);
    assert_eq!(stopped(&actions).len(), 1);
    let actions = tracker.step(observed("a", TaskRunState::Cancelled, 137), 103);
    assert_eq!(actions.len(), 0);
    assert_eq!(state_of(&tracker, "b"), None);
    assert!(tracker.is_complete());
    assert_eq!(tracker.run().status, RunStatus::Cancelled);
    assert_eq!(tracker.run().failure_info.as_ref().unwrap().reason, RunFailureReason::UserCancelled);
    assert_eq!(tracker.task_run("a").unwrap().failure.unwrap().reason, RunFailureReason::UserCancelled);
}

#[test]
fn cancelling_twice_is_cancelling_once_and_a_complete_run_is_not_affected() {
    let (mut tracker, _) = RunTracker::begin(pending_run(), &chain(), 5, 100).unwrap();
    tracker.step(Event::Cancel { by: RunFailureReason::UserCancelled, force: false }, 101);
    // Whoever cancels second is not recorded, and any reason but the user's counts as the administrator's.
    let actions = tracker.step(Event::Cancel { by: RunFailureReason::Unknown, force: true }, 102);
    assert_eq!(stopped(&actions).len(), 1);
    assert!(tracker.is_complete());
    assert_eq!(tracker.run().failure_info.as_ref().unwrap().reason, RunFailureReason::UserCancelled);
    let ended = tracker.run().ended;
    let actions = tracker.step(Event::Cancel { by: RunFailureReason::AdminCancelled, force: true }, 200);
    assert_eq!(actions.len(), 0);
    assert_eq!(tracker.run().ended, ended);
    assert_eq!(tracker.step(observed("a", TaskRunState::Success, 0), 300).len(), 0);
    assert_eq!(tracker.run().status, RunStatus::Cancelled);
}

#[test]
fn a_run_is_complete_exactly_when_every_task_run_is_over() {
    let (mut tracker, _) = RunTracker::begin(pending_run(), &chain(), 5, 100).unwrap();
    let events = vec![
        observed("a", TaskRunState::Running, 0),
        observed("a", TaskRunState::Success, 0),
        observed("b", TaskRunState::Running, 0),
        observed("b", TaskRunState::Success, 0),
        observed("c", TaskRunState::Success, 0),
    ];
    let mut now = 101;
    for event in events {
        tracker.step(event, now);
        now += 1;
        let all_over = (0..tracker.task_count())
            .filter_map(|i| tracker.task_run_at(i))
            .all(|t| t.state.is_terminal());
        assert_eq!(tracker.is_complete(), all_over);
        assert_eq!(tracker.run().state == RunState::Complete, all_over);
    }
    assert!(tracker.is_complete());
    assert_eq!(tracker.run().status, RunStatus::Successful);
}

#[test]
fn a_container_is_asked_for_with_the_environment_of_its_task() {
    let mut variables = StringMap::new();
    variables.insert("MODE".to_string(), "release".to_string());
    variables.insert("GOFER_RUN_ID".to_string(), "fake".to_string());
    let tasks = tasks_of(vec![Task::new("compile", "rust:latest")
        .variables(variables)
        .registry_auth("me", "secret")
        .entrypoint(Exec { shell: "/bin/sh".to_string(), script: "ZWNobyBoaQ==".to_string() })]);
    let mut run = pending_run();
    run.id = 12;
    run.variables = vec![
        Variable { key: "MODE".to_string(), value: "debug".to_string(), owner: VariableOwner::Unknown },
        Variable { key: "TOKEN".to_string(), value: "abc".to_string(), owner: VariableOwner::System },
    ];
    let (_, actions) = RunTracker::begin(run, &tasks, 5, 100).unwrap();
    assert_eq!(actions.len(), 1);
    match &actions[0] {
        Action::Start { task, request } => {
            assert_eq!(task, "compile");
            assert_eq!(request.name, "space_pipe_12_compile");
            assert_eq!(request.image_name, "rust:latest");
            assert!(!request.always_pull);
            assert!(!request.enable_networking);
            assert_eq!(request.registry_auth.as_ref().unwrap().user, "me");
            assert_eq!(request.entrypoint.as_ref().unwrap().script, "ZWNobyBoaQ==");
            let env = &request.variables;
            let value = |key: &str| env.get(&key.to_string()).cloned();
            // The user's variable wins over one of unknown owner whatever their order.
            assert_eq!(value("MODE"), Some("release".to_string()));
            assert_eq!(value("TOKEN"), Some("abc".to_string()));
            // The engine's own variables win over everything.
            assert_eq!(value("GOFER_RUN_ID"), Some("12".to_string()));
            assert_eq!(value("GOFER_NAMESPACE_ID"), Some("space".to_string()));
            assert_eq!(value("GOFER_PIPELINE_ID"), Some("pipe".to_string()));
            assert_eq!(value("GOFER_TASK_ID"), Some("compile".to_string()));
            assert_eq!(value("GOFER_TASK_IMAGE"), Some("rust:latest".to_string()));
            assert_eq!(env.len(), 7);
        }
        other => panic!("unexpected action: {:?}", other),
    }
}

#[test]
fn variables_are_merged_by_owner() {
    let variable = |key: &str, value: &str, owner: VariableOwner| Variable {
        key: key.to_string(),
        value: value.to_string(),
        owner,
    };
    let task = vec![
        variable("A", "task-user", VariableOwner::User),
        variable("B", "task-system", VariableOwner::System),
        variable("C", "task-user", VariableOwner::User),
        variable("D", "task-first", VariableOwner::User),
        variable("D", "task-second", VariableOwner::User),
    ];
    let run = vec![
        variable("A", "run-system", VariableOwner::System),
        variable("B", "run-user", VariableOwner::User),
        variable("C", "run-user", VariableOwner::User),
        variable("E", "run-unknown", VariableOwner::Unknown),
    ];
    let env = environment(&task, &run, "ns", "pl", 3, "t", "img");
    let value = |key: &str| env.get(&key.to_string()).cloned().unwrap();
    assert_eq!(value("A"), "run-system");
    assert_eq!(value("B"), "task-system");
    assert_eq!(value("C"), "run-user");
    assert_eq!(value("D"), "task-second");
    assert_eq!(value("E"), "run-unknown");
    assert_eq!(value("GOFER_RUN_ID"), "3");
    assert_eq!(env.len(), 10);
    // Keys keep the place at which they first arrived.
    assert_eq!(env.key_at(0), "E");
    assert_eq!(env.key_at(1), "A");
}

#[test]
fn containers_are_named_after_their_task_run() {
    assert_eq!(container_name("default", "build", 7, "compile"), "default_build_7_compile");
    assert_eq!(container_name("", "", 0, ""), "__0_");
    let mut env: StringMap<String> = StringMap::new();
    record_parent_status(&mut env, "fetch", RunStatus::Failed);
    assert_eq!(env.get(&"GOFER_TASK_STATUS_fetch".to_string()), Some(&"Failed".to_string()));
}
