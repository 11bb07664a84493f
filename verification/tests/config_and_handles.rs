use std::sync::atomic::AtomicBool;
use std::sync::mpsc::sync_channel;
use std::sync::{Arc, Mutex};

use soft_supervisor::config::args::{SoftArgs, SoftStaticArgs};
use soft_supervisor::config::prop::{
    bash_str, bool_enable, console_log_level, def_check_health, def_check_started, def_console,
    def_false, def_file, def_log, def_mode, def_over, def_restart_policy, def_script, def_signals,
    default_alias, default_args_vec, default_map, default_vec, empty_str, error_message,
    file_log_level, file_log_path, i32_data_1, i32_data_15, i32_data_9, u16_zero, usize_zero,
    LogLevelId, LoggerLevel, RestartPolicy, SourceKeyArgMode, SourceKeyMode,
};
use soft_supervisor::utils::log::{render_line, Logger};
use soft_supervisor::utils::log::{
    debug, debug_str, error, error_str, info, info_str, trace, trace_str, warn,
};
use soft_supervisor::vars::Vars;
use soft_supervisor::worker::binary_worker::{
    try_read_status, CallbackAction, ChildThreadAction, StableWorker,
};
use soft_supervisor::worker::script_worker::{ScriptWorker, WorkerAction};

#[test]
fn logger_levels_are_ordered() {
    assert_eq!(LoggerLevel::TRACE.id(), 0);
    assert_eq!(LoggerLevel::DEBUG.id(), 1);
    assert_eq!(LoggerLevel::INFO.id(), 2);
    assert_eq!(LoggerLevel::WARN.id(), 3);
    assert_eq!(LoggerLevel::ERROR.id(), 4);
    assert_eq!(LoggerLevel::NONE.id(), 5);
}

#[test]
fn logger_level_labels_round_trip() {
    for l in [
        LoggerLevel::TRACE,
        LoggerLevel::DEBUG,
        LoggerLevel::INFO,
        LoggerLevel::WARN,
        LoggerLevel::ERROR,
        LoggerLevel::NONE,
    ] {
        assert_eq!(LoggerLevel::from_name(l.label().as_str()).unwrap(), l);
    }
    assert!(LoggerLevel::from_name("VERBOSE").is_err());
}

#[test]
fn render_line_formats_and_trims() {
    let line = render_line("2024/01/01 00:00:00.000", LoggerLevel::WARN, "  watch out  ");
    assert_eq!(line, "2024/01/01 00:00:00.000 - WARN - watch out");
}

#[test]
fn log_functions_accept_all_levels() {
    let quiet = Logger { console_level: LoggerLevel::NONE };
    trace_str(&quiet, "a");
    trace(&quiet, "a".to_string());
    debug_str(&quiet, "a");
    debug(&quiet, "a".to_string());
    info_str(&quiet, "a");
    info(&quiet, "a".to_string());
    warn(&quiet, "a".to_string());
    error_str(&quiet, "a");
    error(&quiet, "a".to_string());
}

#[test]
fn configuration_defaults() {
    assert_eq!(default_alias().len(), 0);
    assert_eq!(default_args_vec().len(), 0);
    assert_eq!(default_vec().len(), 0);
    assert_eq!(default_map().len(), 0);
    assert_eq!(console_log_level(), LoggerLevel::NONE);
    assert_eq!(file_log_level(), LoggerLevel::NONE);
    assert_eq!(file_log_path(), "/tmp/test.log");
    assert!(bool_enable());
    assert!(def_over());
    assert!(def_false());
    assert_eq!(def_mode(), SourceKeyMode::ARG(SourceKeyArgMode::DEFAULT));
    assert_eq!((i32_data_1(), i32_data_15(), i32_data_9()), (1, 15, 9));
    let signals = def_signals();
    assert_eq!((signals.reload, signals.exit, signals.kill), (1, 15, 9));
    let health = def_check_health();
    assert_eq!((health.delay, health.interval, health.failures), (0, 0, 0));
    assert_eq!(health.script, "");
    let started = def_check_started();
    assert_eq!((started.interval, started.success), (0, 0));
    assert_eq!(started.started_script, "");
    assert_eq!(def_restart_policy(), RestartPolicy::ALWAYS);
    assert_eq!(bash_str(), "bash");
    assert_eq!(empty_str(), "");
    assert_eq!(def_script(), "");
    assert_eq!(u16_zero(), 0);
    assert_eq!(usize_zero(), 0);
    let log = def_log();
    assert_eq!(log.console.level, LoggerLevel::NONE);
    assert_eq!(log.file.path, "/tmp/test.log");
    assert!(log.file.append);
    assert_eq!(def_console().level, LoggerLevel::NONE);
    assert_eq!(def_file().error_path, "/tmp/test.log");
    assert!(error_message().contains("{{message.value}}"));
}

#[test]
fn soft_args_digest_splits_attachments() {
    let raw = SoftStaticArgs {
        config_path: "application.yaml".to_string(),
        variable: vec![
            "user=root".to_string(),
            "mode=a=b".to_string(),
            "broken".to_string(),
        ],
        console_log_level: LoggerLevel::INFO,
    };
    let digested = SoftArgs::digest(raw);
    assert_eq!(digested.config_path, "application.yaml");
    assert_eq!(digested.log_level, LoggerLevel::INFO);
    assert_eq!(digested.variable.get(&"user".to_string()), Some("root".to_string()));
    assert_eq!(digested.variable.get(&"mode".to_string()), Some("a=b".to_string()));
    assert_eq!(digested.variable.len(), 2);
}

#[test]
fn vars_first_and_overwriting_inserts() {
    let mut vars = Vars::new();
    vars.insert("k".to_string(), "1".to_string());
    vars.insert("k".to_string(), "2".to_string());
    assert_eq!(vars.get(&"k".to_string()), Some("2".to_string()));
    assert_eq!(vars.len(), 1);
    vars.insert_if_absent("k".to_string(), "3".to_string());
    assert_eq!(vars.get(&"k".to_string()), Some("2".to_string()));
    vars.insert_if_absent("fresh".to_string(), "new".to_string());
    assert_eq!(vars.get(&"fresh".to_string()), Some("new".to_string()));
    assert!(vars.contains_key(&"fresh".to_string()));
    assert!(!vars.contains_key(&"missing".to_string()));
    let copy = vars.duplicate();
    assert_eq!(copy.get(&"fresh".to_string()), Some("new".to_string()));
}

#[test]
fn stable_worker_handle_sends_commands() {
    let (tx, rx) = sync_channel::<ChildThreadAction>(255);
    let status = Arc::new(Mutex::new(CallbackAction::CREATED));
    let worker = StableWorker { master_rx: tx, status: Arc::clone(&status) };
    worker.start();
    worker.restart();
    worker.exit();
    worker.stop();
    assert_eq!(rx.try_recv().unwrap(), ChildThreadAction::START);
    assert_eq!(rx.try_recv().unwrap(), ChildThreadAction::RESTART);
    assert_eq!(rx.try_recv().unwrap(), ChildThreadAction::EXIT);
    assert_eq!(rx.try_recv().unwrap(), ChildThreadAction::KILL(15));
    assert_eq!(try_read_status(&worker.status), Some(CallbackAction::CREATED));
    *status.lock().unwrap() = CallbackAction::EXITED(2);
    assert_eq!(try_read_status(&worker.status), Some(CallbackAction::EXITED(2)));
}

#[test]
fn script_worker_handle_drains_statuses_in_order() {
    let (status_tx, status_rx) = sync_channel::<usize>(255);
    let (cmd_tx, cmd_rx) = sync_channel::<WorkerAction>(255);
    let worker = ScriptWorker {
        receiver: status_rx,
        sender: cmd_tx,
        exited: Arc::new(AtomicBool::new(false)),
    };
    status_tx.send(0).unwrap();
    status_tx.send(1).unwrap();
    status_tx.send(0).unwrap();
    assert_eq!(worker.get_status(), vec![0, 1, 0]);
    assert_eq!(worker.get_status(), Vec::<usize>::new());
    worker.start();
    worker.stop();
    worker.close();
    assert_eq!(cmd_rx.try_recv().unwrap(), WorkerAction::START);
    assert_eq!(cmd_rx.try_recv().unwrap(), WorkerAction::STOP);
    assert_eq!(cmd_rx.try_recv().unwrap(), WorkerAction::EXIT);
}
