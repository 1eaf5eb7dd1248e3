use full_logger::clock::{stamp_string, Timestamp};
use full_logger::error::LogError;
use full_logger::file_manager::{FileManager, FileSize};
use full_logger::logger::{
    console_line, csv_line, get_file_format, hand_in, log, log_internal, log_option, log_result,
    mentions, option_content, prepare_record, record_key, report_transport, request_text,
    result_content, set_allow_console_log, set_file_format, set_log_server,
    set_message_box_trigger, set_or_create_global_log_file, simple_log, simple_log_option,
    simple_log_result, Dispatch, FileFormat, LogTask, Plan, Registry, WriteOp,
};
use full_logger::thread::{flush_log_thread, next_task, start_log_thread, TaskQueue};

const STAMP: &str = "2024-03-09 07:05:01.250 +01:00";
const KEY: &str = "Y2024_M3_D9_H7_M5_S1_ML1709967901250";

fn now() -> Timestamp {
    Timestamp::new(2024, 3, 9, 7, 5, 1, 1709967901250, String::from(STAMP))
}

fn task(file: &str, location: &[&str], content: &str) -> LogTask {
    LogTask::new(file, &location.to_vec(), content)
}

fn appended(plan: &Plan) -> &str {
    match &plan.outcome {
        Ok(actions) => match &actions.write {
            WriteOp::Append(text) => text.as_str(),
            _ => panic!("no text to append"),
        },
        Err(error) => panic!("{}", error.message()),
    }
}

#[test]
fn stamps_and_keys() {
    assert_eq!(stamp_string(&now(), "_"), KEY);
    assert_eq!(stamp_string(&now(), "-"), "Y2024_M3_D9-H7_M5_S1_ML1709967901250");
    assert_eq!(record_key(None, &now()), KEY);
    assert_eq!(record_key(Some("io"), &now()), format!("io_{}", KEY));
}

#[test]
fn flat_line_reads_back() {
    let line = csv_line(STAMP, &vec![String::from("error")], "Test");
    assert_eq!(line, format!("{};error;Test;\n", STAMP));
    let fields: Vec<&str> = line.trim_end_matches('\n').split(';').collect();
    assert_eq!(fields, vec![STAMP, "error", "Test", ""]);
}

#[test]
fn flat_line_has_one_field_for_each_part() {
    let location = vec![String::from("io"), String::from("disk"), String::from("error")];
    assert_eq!(csv_line("t", &location, "full"), "t;io;disk;error;full;\n");
    assert_eq!(csv_line("t", &Vec::new(), "full"), "t;full;\n");
}

#[test]
fn collector_address() {
    let location = vec![String::from("error"), String::from("io")];
    assert_eq!(
        request_text("http://localhost:8000", &location, "Test"),
        "http://localhost:8000/log/full-logger/error/Test"
    );
    assert_eq!(
        request_text("http://localhost:8000", &Vec::new(), "Test"),
        "http://localhost:8000/log/full-logger/debug/Test"
    );
}

#[test]
fn console_echo_line() {
    assert_eq!(console_line(KEY, "Test"), format!("[{}] Test", KEY));
}

#[test]
fn location_mentions_whole_parts_only() {
    let location = vec![String::from("io"), String::from("error")];
    assert!(mentions(&location, &String::from("error")));
    assert!(mentions(&location, &String::from("io")));
    assert!(!mentions(&location, &String::from("err")));
    assert!(!mentions(&Vec::new(), &String::from("error")));
}

#[test]
fn registry_starts_with_defaults_and_takes_settings() {
    let mut registry = Registry::new();
    assert_eq!(get_file_format(&registry), FileFormat::CSV);
    assert!(!registry.console_echo);
    assert!(registry.alert_trigger.is_none());
    assert_eq!(registry.collector_url, "");
    assert_eq!(registry.default_file, "");
    set_file_format(&mut registry, FileFormat::TOML);
    set_allow_console_log(&mut registry, true);
    set_message_box_trigger(&mut registry, Some(String::from("error")));
    set_log_server(&mut registry, String::from("http://localhost:8000"));
    set_or_create_global_log_file(&mut registry, "log/global.log");
    assert_eq!(get_file_format(&registry), FileFormat::TOML);
    assert!(registry.console_echo);
    assert_eq!(registry.alert_trigger.as_deref(), Some("error"));
    assert_eq!(registry.collector_url, "http://localhost:8000");
    assert_eq!(registry.default_file, "log/global.log");
    set_message_box_trigger(&mut registry, None);
    assert!(registry.alert_trigger.is_none());
}

#[test]
fn plain_record_is_only_written() {
    let registry = Registry::new();
    let plan = prepare_record(&registry, &now(), &task("a.log", &["error"], "Test"));
    assert!(plan.alert.is_none());
    let actions = plan.outcome.as_ref().unwrap();
    assert!(actions.console.is_none());
    assert!(actions.request.is_none());
    assert_eq!(appended(&plan), format!("{};error;Test;\n", STAMP));
}

#[test]
fn record_is_echoed_sent_and_alerted() {
    let mut registry = Registry::new();
    set_allow_console_log(&mut registry, true);
    set_log_server(&mut registry, String::from("http://localhost:8000"));
    set_message_box_trigger(&mut registry, Some(String::from("error")));
    let plan = prepare_record(&registry, &now(), &task("a.log", &["io", "error"], "Test"));
    let alert = plan.alert.as_ref().unwrap();
    assert_eq!(alert.title, KEY);
    assert_eq!(alert.body, "Test");
    let actions = plan.outcome.as_ref().unwrap();
    assert_eq!(actions.console.as_deref(), Some(format!("[{}] Test", KEY).as_str()));
    assert_eq!(
        actions.request.as_deref(),
        Some("http://localhost:8000/log/full-logger/io/Test")
    );
    let quiet = prepare_record(&registry, &now(), &task("a.log", &["io"], "Test"));
    assert!(quiet.alert.is_none());
}

#[test]
fn record_without_a_file_is_rejected_after_the_alert() {
    let mut registry = Registry::new();
    set_allow_console_log(&mut registry, true);
    set_message_box_trigger(&mut registry, Some(String::from("error")));
    let plan = prepare_record(&registry, &now(), &task("", &["error"], "Test"));
    assert!(plan.alert.is_some());
    assert!(matches!(plan.outcome, Err(LogError::EmptyTarget)));
}

#[test]
fn ini_record_names_its_table_by_the_first_part() {
    let mut registry = Registry::new();
    set_file_format(&mut registry, FileFormat::INI);
    let plan = prepare_record(&registry, &now(), &task("a.ini", &["io", "error"], "Test"));
    match plan.outcome.unwrap().write {
        WriteOp::IniEntry(record) => {
            assert_eq!(record.class, "io");
            assert_eq!(record.name, KEY);
            assert_eq!(record.content, "Test");
        }
        _ => panic!("no table entry"),
    }
    let plan = prepare_record(&registry, &now(), &task("a.ini", &[], "Test"));
    match plan.outcome.unwrap().write {
        WriteOp::IniEntry(record) => assert_eq!(record.class, "root"),
        _ => panic!("no table entry"),
    }
}

#[test]
fn toml_record_keeps_its_whole_location() {
    let mut registry = Registry::new();
    set_file_format(&mut registry, FileFormat::TOML);
    let plan = prepare_record(&registry, &now(), &task("a.toml", &["a", "b"], "Test"));
    match plan.outcome.unwrap().write {
        WriteOp::TomlEntry { path, name, content } => {
            assert_eq!(path, vec![String::from("a"), String::from("b")]);
            assert_eq!(name, KEY);
            assert_eq!(content, "Test");
        }
        _ => panic!("no nested entry"),
    }
}

#[test]
fn syslog_record_writes_nothing() {
    let mut registry = Registry::new();
    set_file_format(&mut registry, FileFormat::SYSLOG);
    let plan = prepare_record(&registry, &now(), &task("a.log", &["error"], "Test"));
    assert!(matches!(plan.outcome.unwrap().write, WriteOp::Nothing));
}

#[test]
fn failed_transport_switches_the_collector_off() {
    let mut registry = Registry::new();
    set_log_server(&mut registry, String::from("http://localhost:8000"));
    report_transport(&mut registry, true);
    assert_eq!(registry.collector_url, "http://localhost:8000");
    let plan = prepare_record(&registry, &now(), &task("a.log", &["error"], "Test"));
    assert!(plan.outcome.unwrap().request.is_some());
    report_transport(&mut registry, false);
    assert_eq!(registry.collector_url, "");
    for _ in 0..3 {
        let plan = prepare_record(&registry, &now(), &task("a.log", &["error"], "Test"));
        assert!(plan.outcome.unwrap().request.is_none());
        report_transport(&mut registry, true);
        assert_eq!(registry.collector_url, "");
    }
}

#[test]
fn contents_of_results_and_options() {
    assert_eq!(result_content(true, "\"Test\""), "RESULT_OK_\"Test\"");
    assert_eq!(result_content(false, "\"Test\""), "RESULT_ERR_\"Test\"");
    assert_eq!(option_content(Some("10")), "Some(10)");
    assert_eq!(option_content(None), "None");
}

#[test]
fn record_runs_at_once_without_a_worker() {
    let registry = Registry::new();
    let mut queue: TaskQueue<LogTask> = TaskQueue::new();
    match log(&registry, &mut queue, "a.log", vec!["error"], "Test") {
        Dispatch::Ran(plan) => {
            let line = appended(&plan);
            assert!(line.ends_with(";error;Test;\n"));
            let fields: Vec<&str> = line.trim_end_matches('\n').split(';').collect();
            assert_eq!(fields.len(), 4);
            assert!(!fields[0].is_empty());
            assert_eq!(&fields[1..], ["error", "Test", ""]);
        }
        Dispatch::Queued => panic!("queued without a worker"),
    }
    assert_eq!(queue.len(), 0);
}

#[test]
fn the_clock_writes_no_semicolon_and_no_line_end() {
    let registry = Registry::new();
    for _ in 0..5 {
        let plan = log_internal(&registry, &task("a.log", &[], ""));
        let text = appended(&plan);
        assert!(text.ends_with(";;\n"));
        let stamp = &text[..text.len() - 3];
        assert!(!stamp.is_empty());
        assert!(!stamp.contains(';'));
        assert!(!stamp.contains('\n'));
    }
}

#[test]
fn record_waits_for_the_worker() {
    let mut registry = Registry::new();
    set_or_create_global_log_file(&mut registry, "global.log");
    let mut queue: TaskQueue<LogTask> = TaskQueue::new();
    start_log_thread(&mut queue, 10, 1);
    assert!(matches!(log(&registry, &mut queue, "a.log", vec!["io"], "one"), Dispatch::Queued));
    assert!(matches!(simple_log(&registry, &mut queue, vec!["net"], "two"), Dispatch::Queued));
    assert!(matches!(
        hand_in(&registry, &mut queue, task("c.log", &[], "three")),
        Dispatch::Queued
    ));
    assert_eq!(queue.len(), 3);
    let first = next_task(&mut queue).unwrap();
    assert_eq!(first.file, "a.log");
    assert_eq!(first.location, vec![String::from("io")]);
    assert_eq!(first.content, "one");
    let second = next_task(&mut queue).unwrap();
    assert_eq!(second.file, "global.log");
    assert_eq!(second.content, "two");
    let plan = log_internal(&registry, &second);
    assert!(appended(&plan).ends_with(";net;two;\n"));
    assert_eq!(next_task(&mut queue).unwrap().content, "three");
    assert!(next_task(&mut queue).is_none());
}

#[test]
fn results_and_options_come_back_unchanged() {
    let mut registry = Registry::new();
    set_or_create_global_log_file(&mut registry, "global.log");
    let mut queue: TaskQueue<LogTask> = TaskQueue::new();
    let ok: Result<&str, &str> = Ok("Test");
    let (back, dispatch) = log_result(&registry, &mut queue, "a.log", vec!["error"], ok);
    assert_eq!(back, Ok("Test"));
    match dispatch {
        Dispatch::Ran(plan) => assert!(appended(&plan).ends_with(";error;RESULT_OK_\"Test\";\n")),
        Dispatch::Queued => panic!("queued without a worker"),
    }
    let err: Result<u8, &str> = Err("bad");
    let (back, dispatch) = simple_log_result(&registry, &mut queue, vec!["error"], err);
    assert_eq!(back, Err("bad"));
    match dispatch {
        Dispatch::Ran(plan) => assert!(appended(&plan).ends_with(";error;RESULT_ERR_\"bad\";\n")),
        Dispatch::Queued => panic!("queued without a worker"),
    }
    let (back, dispatch) = log_option(&registry, &mut queue, "a.log", vec!["error"], Some(10));
    assert_eq!(back, Some(10));
    match dispatch {
        Dispatch::Ran(plan) => assert!(appended(&plan).ends_with(";error;Some(10);\n")),
        Dispatch::Queued => panic!("queued without a worker"),
    }
    let none: Option<u8> = None;
    let (back, dispatch) = simple_log_option(&registry, &mut queue, vec!["error"], none);
    assert_eq!(back, None);
    match dispatch {
        Dispatch::Ran(plan) => assert!(appended(&plan).ends_with(";error;None;\n")),
        Dispatch::Queued => panic!("queued without a worker"),
    }
}

#[test]
fn global_test() {
    let mut file_manager = FileManager::new(String::from("log"), FileSize::Mo(10));
    file_manager.set_file_prefix_str("DEMO_");
    file_manager.set_file_suffix_str("_LOG");
    file_manager.set_file_extension_str("log");

    let file = file_manager.get_file_path().into_path();
    let mut registry = Registry::new();
    let mut queue: TaskQueue<LogTask> = TaskQueue::new();
    set_or_create_global_log_file(&mut registry, file.as_str());

    set_file_format(&mut registry, FileFormat::CSV);
    set_allow_console_log(&mut registry, true);
    set_log_server(&mut registry, "http://localhost:8000".to_string());

    start_log_thread(&mut queue, 10, 1);

    set_message_box_trigger(&mut registry, Some(String::from("error")));

    simple_log(&registry, &mut queue, vec!["error"], "Test");
    log(&registry, &mut queue, &file, vec!["error"], "Test");

    let result: Result<&str, &str> = Ok("Test");
    simple_log_result(&registry, &mut queue, vec!["error"], result).0.unwrap();
    log_result(&registry, &mut queue, &file, vec!["error"], result).0.unwrap();

    simple_log_option(&registry, &mut queue, vec!["error"], Some(10));
    log_option(&registry, &mut queue, &file, vec!["error"], Some(10));

    let mut contents: Vec<String> = Vec::new();
    while flush_log_thread(&queue, 1).is_some() {
        let task = next_task(&mut queue).unwrap();
        assert_eq!(task.file, file);
        let plan = log_internal(&registry, &task);
        assert!(plan.alert.is_some());
        let actions = plan.outcome.unwrap();
        assert!(actions.console.is_some());
        assert!(actions.request.unwrap().starts_with("http://localhost:8000/log/full-logger/error/"));
        contents.push(task.content);
    }
    assert_eq!(
        contents,
        ["Test", "Test", "RESULT_OK_\"Test\"", "RESULT_OK_\"Test\"", "Some(10)", "Some(10)"]
    );
}
