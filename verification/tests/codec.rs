use gofer::codec::{chars_of, from_text, put_number, take_number, text_of, to_text};
use gofer::models::{
    Exec, Namespace, Pipeline, PipelineConfig, PipelineNotifierSettings, PipelineState,
    PipelineTriggerSettings, RequiredParentStatus, Run, RunFailureInfo, RunFailureReason, RunState,
    RunStatus, RunStoreInfo, RunTriggerInfo, Task, Variable, VariableOwner,
};
use gofer::storage::{parse_column, parse_pipeline_state, StorageError};
use gofer::string_map::StringMap;

fn sample_task() -> Task {
    let mut variables = StringMap::new();
    variables.insert("MODE".to_string(), "release".to_string());
    variables.insert("NOTE".to_string(), "colons: and; semicolons".to_string());
    Task::new("compile", "rust:latest")
        .description("compiles, with \"quotes\" and unicode: é ✓")
        .registry_auth("me", "secret")
        .depends_on_one("fetch", RequiredParentStatus::Success)
        .depends_on_one("lint", RequiredParentStatus::Any)
        .variables(variables)
        .entrypoint(Exec { shell: "/bin/sh".to_string(), script: "ZWNobyBoaQ==".to_string() })
}

fn sample_pipeline() -> Pipeline {
    let mut settings = StringMap::new();
    settings.insert("every".to_string(), "5m".to_string());
    let mut failed = PipelineNotifierSettings::new("mail", "team");
    failed.error = Some("could not subscribe".to_string());
    let config = PipelineConfig::new("build", "Build")
        .description("builds")
        .parallelism(4)
        .tasks(vec![sample_task(), Task::new("test", "rust:latest")])
        .triggers(vec![PipelineTriggerSettings::new("interval", "often").settings(settings)])
        .notifiers(vec![failed]);
    let mut pipeline = Pipeline::created_at("default".to_string(), config, 100, 200);
    pipeline.state = PipelineState::Disabled;
    pipeline.last_run_id = 12;
    pipeline.last_run_time = 150;
    pipeline.store_keys = vec!["cache".to_string(), "".to_string()];
    pipeline
}

fn sample_run() -> Run {
    let mut run = Run::started_at(
        "default",
        "build",
        RunTriggerInfo { kind: "cron".to_string(), label: "nightly".to_string() },
        vec![Variable { key: "A".to_string(), value: "1".to_string(), owner: VariableOwner::System }],
        1000,
    );
    run.id = 7;
    run.ended = 2000;
    run.state = RunState::Complete;
    run.status = RunStatus::Failed;
    run.failure_info = Some(RunFailureInfo {
        reason: RunFailureReason::AbnormalExit,
        description: "exit 1".to_string(),
    });
    run.task_runs = vec!["compile".to_string(), "test".to_string()];
    run.store_info = Some(RunStoreInfo { is_expired: true, keys: vec!["log".to_string()] });
    run
}

#[test]
fn a_number_is_written_in_decimal_and_closed_by_a_semicolon() {
    assert_eq!(to_text(&0u64), "0;");
    assert_eq!(to_text(&42u64), "42;");
    assert_eq!(to_text(&u64::MAX), "18446744073709551615;");
    assert_eq!(from_text::<u64>("42;"), Some(42));
    assert_eq!(from_text::<u64>("18446744073709551615;"), Some(u64::MAX));
    assert_eq!(from_text::<u64>("18446744073709551616;"), None);
    assert_eq!(from_text::<u64>("42"), None);
    assert_eq!(from_text::<u64>(";"), None);
    assert_eq!(from_text::<u64>("4x2;"), None);
    assert_eq!(from_text::<u64>("42;1"), None);
    assert_eq!(from_text::<u64>(""), None);
    assert_eq!(from_text::<u64>("007;"), Some(7));
}

#[test]
fn a_text_is_written_with_its_length() {
    assert_eq!(to_text(&"hello".to_string()), "5:hello");
    assert_eq!(to_text(&String::new()), "0:");
    assert_eq!(to_text(&"é✓".to_string()), "2:é✓");
    assert_eq!(from_text::<String>("5:hello"), Some("hello".to_string()));
    assert_eq!(from_text::<String>("0:"), Some(String::new()));
    assert_eq!(from_text::<String>("3:a:b"), Some("a:b".to_string()));
    assert_eq!(from_text::<String>("6:hello"), None);
    assert_eq!(from_text::<String>("4:hello"), None);
    assert_eq!(from_text::<String>("hello"), None);
    assert_eq!(from_text::<String>("5;hello"), None);
}

#[test]
fn optional_values_lists_and_maps_have_text_forms() {
    assert_eq!(to_text(&None::<String>), "n");
    assert_eq!(to_text(&Some("a".to_string())), "s1:a");
    assert_eq!(from_text::<Option<String>>("s1:a"), Some(Some("a".to_string())));
    assert_eq!(from_text::<Option<String>>("n"), Some(None));
    assert_eq!(from_text::<Option<String>>("x"), None);
    assert_eq!(to_text(&vec!["a".to_string(), "bc".to_string()]), "2;1:a2:bc");
    assert_eq!(to_text(&Vec::<String>::new()), "0;");
    assert_eq!(from_text::<Vec<String>>("2;1:a2:bc"), Some(vec!["a".to_string(), "bc".to_string()]));
    assert_eq!(from_text::<Vec<String>>("3;1:a2:bc"), None);
    assert_eq!(from_text::<Vec<String>>("1;1:a2:bc"), None);
    assert_eq!(to_text(&true), "t");
    assert_eq!(from_text::<bool>("f"), Some(false));
    assert_eq!(from_text::<bool>("1"), None);
    let mut map: StringMap<u64> = StringMap::new();
    map.insert("b".to_string(), 2);
    map.insert("a".to_string(), 1);
    assert_eq!(to_text(&map), "2;1:b2;1:a1;");
    assert_eq!(from_text::<StringMap<u64>>("2;1:b2;1:a1;"), Some(map));
    // A key that occurs twice is refused.
    assert_eq!(from_text::<StringMap<u64>>("2;1:b2;1:b1;"), None);
}

#[test]
fn enums_are_written_as_their_numbers() {
    assert_eq!(to_text(&RunState::Complete), "3;");
    assert_eq!(to_text(&VariableOwner::User), "1;");
    assert_eq!(from_text::<RunState>("1;"), Some(RunState::Pending));
    assert_eq!(from_text::<RunState>("4;"), None);
    assert_eq!(from_text::<RequiredParentStatus>("3;"), Some(RequiredParentStatus::Failure));
    assert_eq!(from_text::<RunFailureReason>("6;"), None);
    assert_eq!(from_text::<PipelineState>("2;"), Some(PipelineState::Disabled));
    assert_eq!(from_text::<RunStatus>("x"), None);
}

#[test]
fn a_variable_has_an_exact_text_form() {
    let variable =
        Variable { key: "MODE".to_string(), value: "release".to_string(), owner: VariableOwner::User };
    assert_eq!(to_text(&variable), "4:MODE7:release1;");
    assert_eq!(from_text::<Variable>("4:MODE7:release1;"), Some(variable));
    assert_eq!(from_text::<Variable>("4:MODE7:release3;"), None);
}

#[test]
fn a_task_reads_back_as_it_was_written() {
    let task = sample_task();
    let text = to_text(&task);
    assert_eq!(from_text::<Task>(&text), Some(task));
    assert_eq!(to_text(&sample_task()), text);
    let plain = Task::new("t1", "alpine");
    assert_eq!(to_text(&plain), "2:t1n6:alpinen0;0;n");
    assert_eq!(from_text::<Task>("2:t1n6:alpinen0;0;n"), Some(plain));
}

#[test]
fn a_pipeline_reads_back_as_it_was_written() {
    let pipeline = sample_pipeline();
    let text = to_text(&pipeline);
    assert_eq!(from_text::<Pipeline>(&text), Some(pipeline));
    assert_eq!(to_text(&sample_pipeline()), text);
    assert_eq!(from_text::<Pipeline>(&text[..text.len() - 1]), None);
    assert_eq!(from_text::<Pipeline>(&format!("{}0;", text)), None);
}

#[test]
fn a_run_reads_back_as_it_was_written() {
    let run = sample_run();
    let text = to_text(&run);
    assert_eq!(from_text::<Run>(&text), Some(run));
    let fresh = Run::started_at(
        "ns1",
        "pl1",
        RunTriggerInfo { kind: "k".to_string(), label: "l".to_string() },
        vec![],
        5,
    );
    assert_eq!(to_text(&fresh), "3:ns13:pl10;5;0;1;0;n0;1:k1:l0;n");
    assert_eq!(from_text::<Run>("3:ns13:pl10;5;0;1;0;n0;1:k1:l0;n"), Some(fresh));
}

#[test]
fn a_namespace_reads_back_as_it_was_written() {
    let namespace = Namespace::created_at("team_a", "Team A", "the a team", 42);
    assert_eq!(to_text(&namespace), "6:team_a6:Team A10:the a team42;42;");
    assert_eq!(from_text::<Namespace>(&to_text(&namespace)), Some(namespace));
}

#[test]
fn a_stored_text_that_cannot_be_read_is_reported_with_its_column() {
    assert_eq!(parse_column::<Vec<String>>("1;3:abc", "store_keys"), Ok(vec!["abc".to_string()]));
    match parse_column::<Vec<String>>("[\"abc\"]", "store_keys") {
        Err(StorageError::Parse { value, column, .. }) => {
            assert_eq!(value, "[\"abc\"]");
            assert_eq!(column, "store_keys");
        }
        other => panic!("unexpected result: {:?}", other),
    }
    assert_eq!(parse_pipeline_state("Disabled"), Ok(PipelineState::Disabled));
    assert_eq!(
        parse_pipeline_state("disabled"),
        Err(StorageError::Parse {
            value: "disabled".to_string(),
            column: "state".to_string(),
            err: "could not parse value into pipeline state enum".to_string(),
        })
    );
}

#[test]
fn numbers_and_characters_are_read_from_the_middle_of_a_text() {
    let text = chars_of("ab12;cd");
    assert_eq!(text.len(), 7);
    assert_eq!(take_number(&text, 2, ';'), Some((12, 5)));
    assert_eq!(take_number(&text, 0, ';'), None);
    assert_eq!(take_number(&text, 4, ';'), None);
    assert_eq!(take_number(&text, 7, ';'), None);
    assert_eq!(text_of(&text, 5, 7), "cd");
    assert_eq!(text_of(&text, 3, 3), "");
    let mut out = chars_of("x");
    put_number(&mut out, 305, '#');
    assert_eq!(text_of(&out, 0, out.len()), "x305#");
}
