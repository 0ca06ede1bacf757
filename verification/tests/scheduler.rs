use gofer::conf::api::{Config, Docker};
use gofer::models::TaskRunState;
use gofer::scheduler::docker::{
    container_config, container_state, entrypoint, entrypoint_of, environment, exposed_port,
    format_env_var, host_ip, Command, ContainerStatus, Outcome, PortBinding, Startup, Step,
};
use gofer::scheduler::{
    init_scheduler, next_poll_wait, Exec, GetStateResponse, RegistryAuth, SchedulerEngine,
    SchedulerError, StartContainerRequest, StartContainerResponse,
};
use gofer::string_map::StringMap;

fn request() -> StartContainerRequest {
    StartContainerRequest {
        name: "container_test".to_string(),
        image_name: "ghcr.io/clintjedwards/gofer-containers/debug/log:latest".to_string(),
        variables: StringMap::new(),
        registry_auth: None,
        always_pull: true,
        enable_networking: true,
        entrypoint: None,
    }
}

fn finished(command: Command) -> Result<StartContainerResponse, SchedulerError> {
    match command {
        Command::Finish { result } => result,
        other => panic!("the start has not ended: {:?}", other),
    }
}

/// A container that is always pulled and has networking is started in five commands.
#[test]
fn hello() {
    let req = request();
    let (mut startup, command) = Startup::begin(&req);
    assert_eq!(
        command,
        Command::PullImage {
            image: "ghcr.io/clintjedwards/gofer-containers/debug/log:latest".to_string(),
            credentials: None,
        }
    );
    let command = startup.advance(&req, Outcome::Succeeded);
    assert_eq!(command, Command::RemoveContainer { name: "container_test".to_string() });
    // No container of the name existed: that is no error.
    let command = startup.advance(&req, Outcome::Failed { why: "no such container".to_string() });
    match &command {
        Command::CreateContainer { name, config } => {
            assert_eq!(name, "container_test");
            assert_eq!(config.image, req.image_name);
            assert_eq!(config.env, Vec::<String>::new());
            assert_eq!(config.entrypoint, None);
            assert!(config.networking);
        }
        other => panic!("unexpected command: {:?}", other),
    }
    let command = startup.advance(&req, Outcome::Created { id: Some("f00d".to_string()) });
    assert_eq!(command, Command::StartContainer { name: "container_test".to_string() });
    let command = startup.advance(&req, Outcome::Succeeded);
    assert_eq!(command, Command::InspectContainer { name: "container_test".to_string() });
    let binding = PortBinding {
        host_ip: Some("127.0.0.1".to_string()),
        host_port: Some("49153".to_string()),
    };
    let command = startup.advance(&req, Outcome::Inspected { binding: Some(binding) });
    assert_eq!(
        finished(command),
        Ok(StartContainerResponse {
            scheduler_id: Some("f00d".to_string()),
            url: Some("127.0.0.1:49153".to_string()),
        })
    );
    assert_eq!(startup.step, Step::Done);
    assert_eq!(
        finished(startup.advance(&req, Outcome::Succeeded)),
        Err(SchedulerError::Unknown("the start has ended".to_string()))
    );
}

#[test]
fn an_image_is_pulled_only_when_it_is_absent() {
    let mut req = request();
    req.always_pull = false;
    req.registry_auth = Some(RegistryAuth { user: "me".to_string(), pass: "secret".to_string() });
    let (mut startup, command) = Startup::begin(&req);
    assert_eq!(command, Command::ListImages { reference: req.image_name.clone() });
    assert_eq!(startup.step, Step::ListImages);
    let command = startup.advance(&req, Outcome::Listed { present: true });
    assert_eq!(command, Command::RemoveContainer { name: "container_test".to_string() });

    let (mut startup, _) = Startup::begin(&req);
    let command = startup.advance(&req, Outcome::Listed { present: false });
    assert_eq!(
        command,
        Command::PullImage {
            image: req.image_name.clone(),
            credentials: Some(RegistryAuth { user: "me".to_string(), pass: "secret".to_string() }),
        }
    );
    assert_eq!(startup.step, Step::PullImage);
}

#[test]
fn failures_of_the_runtime_end_the_start() {
    let req = request();
    let (mut startup, _) = Startup::begin(&req);
    assert_eq!(
        finished(startup.advance(&req, Outcome::Failed { why: "image not known".to_string() })),
        Err(SchedulerError::NoSuchImage("image not known".to_string()))
    );

    let (mut startup, _) = Startup::begin(&req);
    startup.advance(&req, Outcome::Succeeded);
    startup.advance(&req, Outcome::Succeeded);
    assert_eq!(
        finished(startup.advance(&req, Outcome::Failed { why: "conflict".to_string() })),
        Err(SchedulerError::Unknown("conflict".to_string()))
    );

    let (mut startup, _) = Startup::begin(&req);
    startup.advance(&req, Outcome::Succeeded);
    startup.advance(&req, Outcome::Succeeded);
    startup.advance(&req, Outcome::Created { id: None });
    assert_eq!(
        finished(startup.advance(&req, Outcome::Failed { why: "port taken".to_string() })),
        Err(SchedulerError::Unknown("port taken".to_string()))
    );

    let (mut startup, _) = Startup::begin(&req);
    startup.advance(&req, Outcome::Succeeded);
    assert!(matches!(
        finished(startup.advance(&req, Outcome::Created { id: None })),
        Err(SchedulerError::Unknown(_))
    ));
}

#[test]
fn a_container_with_networking_needs_a_binding() {
    let req = request();
    let inspect = |binding: Option<PortBinding>| {
        let (mut startup, _) = Startup::begin(&req);
        startup.advance(&req, Outcome::Succeeded);
        startup.advance(&req, Outcome::Succeeded);
        startup.advance(&req, Outcome::Created { id: None });
        startup.advance(&req, Outcome::Succeeded);
        finished(startup.advance(&req, Outcome::Inspected { binding }))
    };
    let missing = Err(SchedulerError::Unknown("could not get networking settings".to_string()));
    assert_eq!(inspect(None), missing);
    assert_eq!(
        inspect(Some(PortBinding { host_ip: None, host_port: Some("1".to_string()) })),
        missing
    );
    assert_eq!(
        inspect(Some(PortBinding { host_ip: Some("127.0.0.1".to_string()), host_port: None })),
        missing
    );
    assert_eq!(
        inspect(Some(PortBinding {
            host_ip: Some("127.0.0.1".to_string()),
            host_port: Some("8080".to_string())
        })),
        Ok(StartContainerResponse { scheduler_id: None, url: Some("127.0.0.1:8080".to_string()) })
    );
}

#[test]
fn a_container_without_networking_has_no_url() {
    let mut req = request();
    req.enable_networking = false;
    let (mut startup, _) = Startup::begin(&req);
    startup.advance(&req, Outcome::Succeeded);
    startup.advance(&req, Outcome::Succeeded);
    startup.advance(&req, Outcome::Created { id: Some("abc".to_string()) });
    startup.advance(&req, Outcome::Succeeded);
    assert_eq!(
        finished(startup.advance(&req, Outcome::Inspected { binding: None })),
        Ok(StartContainerResponse { scheduler_id: Some("abc".to_string()), url: None })
    );
}

#[test]
fn environment_variables_are_written_as_key_equals_value() {
    assert_eq!(format_env_var("KEY", "VALUE"), "KEY=VALUE");
    assert_eq!(format_env_var("", ""), "=");
    assert_eq!(format_env_var("A", "b=c"), "A=b=c");
    let mut variables = StringMap::new();
    variables.insert("B".to_string(), "2".to_string());
    variables.insert("A".to_string(), "1".to_string());
    assert_eq!(environment(&variables), vec!["B=2", "A=1"]);
    assert_eq!(exposed_port(), "8080/tcp");
    assert_eq!(host_ip(), "127.0.0.1");
}

#[test]
fn a_script_replaces_the_entrypoint() {
    let script = Exec { shell: "/bin/sh".to_string(), script: "ZWNobyBoaQ==".to_string() };
    assert_eq!(entrypoint(&script), Ok(vec!["/bin/sh".to_string(), "-c".to_string(), "echo hi".to_string()]));
    let empty = Exec { shell: "bash".to_string(), script: String::new() };
    assert_eq!(entrypoint(&empty), Ok(vec!["bash".to_string(), "-c".to_string(), String::new()]));
    // Bytes that are not UTF-8 are replaced, not refused.
    let binary = Exec { shell: "sh".to_string(), script: "/w==".to_string() };
    assert_eq!(entrypoint(&binary).unwrap()[2], "\u{fffd}");
    let broken = Exec { shell: "sh".to_string(), script: "not base64!".to_string() };
    assert!(matches!(entrypoint(&broken), Err(SchedulerError::Unknown(_))));
    assert_eq!(entrypoint_of("sh", "ls".to_string()), vec!["sh", "-c", "ls"]);
}

#[test]
fn a_container_is_created_from_its_request() {
    let mut req = request();
    req.variables.insert("MODE".to_string(), "release".to_string());
    req.entrypoint = Some(Exec { shell: "/bin/sh".to_string(), script: "bHMgLWw=".to_string() });
    let config = container_config(&req).unwrap();
    assert_eq!(config.image, req.image_name);
    assert_eq!(config.env, vec!["MODE=release"]);
    assert_eq!(config.entrypoint, Some(vec!["/bin/sh".to_string(), "-c".to_string(), "ls -l".to_string()]));
    assert!(config.networking);
    req.entrypoint = Some(Exec { shell: "/bin/sh".to_string(), script: "%%%".to_string() });
    assert!(matches!(container_config(&req), Err(SchedulerError::Unknown(_))));
    // A script that cannot be decoded ends the start before the container is created.
    let (mut startup, _) = Startup::begin(&req);
    startup.advance(&req, Outcome::Succeeded);
    assert!(matches!(
        finished(startup.advance(&req, Outcome::Succeeded)),
        Err(SchedulerError::Unknown(_))
    ));
    assert_eq!(startup.step, Step::Done);
}

#[test]
fn scheduler_errors_are_put_in_words() {
    assert_eq!(
        SchedulerError::FailedPrecondition("no settings".to_string()).message(),
        "could not init scheduler; no settings"
    );
    assert_eq!(
        SchedulerError::Connection("refused".to_string()).message(),
        "could not connect to scheduler; refused"
    );
    assert_eq!(SchedulerError::NoSuchContainer.message(), "container not found");
    assert_eq!(
        SchedulerError::NoSuchImage("x:latest".to_string()).message(),
        "docker image not found; x:latest"
    );
    assert_eq!(
        SchedulerError::Unknown("boom".to_string()).message(),
        "unexpected scheduler error occurred; boom"
    );
}

#[test]
fn the_docker_scheduler_needs_its_settings() {
    let mut config = Config::default();
    assert_eq!(
        init_scheduler(SchedulerEngine::Docker, &config),
        Err(SchedulerError::FailedPrecondition(
            "docker engine settings not found in config".to_string()
        ))
    );
    config.scheduler.docker = Some(Docker { prune: true, prune_interval: 100 });
    assert_eq!(
        init_scheduler(SchedulerEngine::Docker, &config),
        Ok(Docker { prune: true, prune_interval: 100 })
    );
}

#[test]
fn the_status_of_a_container_says_how_its_task_run_stands() {
    use_state(ContainerStatus::Empty, None, TaskRunState::Unknown, None);
    use_state(ContainerStatus::Created, None, TaskRunState::Waiting, None);
    use_state(ContainerStatus::Running, Some(0), TaskRunState::Running, None);
    use_state(ContainerStatus::Paused, None, TaskRunState::Running, None);
    use_state(ContainerStatus::Restarting, None, TaskRunState::Running, None);
    use_state(ContainerStatus::Removing, Some(1), TaskRunState::Unknown, None);
    use_state(ContainerStatus::Exited, Some(0), TaskRunState::Success, Some(0));
    use_state(ContainerStatus::Exited, Some(1), TaskRunState::Failed, Some(1));
    use_state(ContainerStatus::Exited, Some(255), TaskRunState::Failed, Some(255));
    use_state(ContainerStatus::Exited, Some(256), TaskRunState::Failed, None);
    use_state(ContainerStatus::Exited, Some(-1), TaskRunState::Failed, None);
    use_state(ContainerStatus::Exited, None, TaskRunState::Failed, None);
    use_state(ContainerStatus::Dead, Some(137), TaskRunState::Failed, Some(137));
}

fn use_state(status: ContainerStatus, code: Option<i64>, state: TaskRunState, exit_code: Option<u8>) {
    assert_eq!(container_state(status, code), GetStateResponse { exit_code, state });
}

#[test]
fn the_wait_between_two_looks_at_a_container_doubles_up_to_a_limit() {
    assert_eq!(next_poll_wait(0, 1000), 1);
    assert_eq!(next_poll_wait(1, 1000), 2);
    assert_eq!(next_poll_wait(250, 1000), 500);
    assert_eq!(next_poll_wait(499, 1000), 998);
    assert_eq!(next_poll_wait(500, 1000), 1000);
    assert_eq!(next_poll_wait(600, 1000), 1000);
    assert_eq!(next_poll_wait(5000, 1000), 1000);
    assert_eq!(next_poll_wait(0, 0), 0);
    assert_eq!(next_poll_wait(u64::MAX, u64::MAX), u64::MAX);
    assert_eq!(next_poll_wait(u64::MAX / 2 + 1, u64::MAX), u64::MAX);
}
