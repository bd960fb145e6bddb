use soma::process::{
    log_line_to_print, log_process_name_of, log_process_priority, log_read_position, OnStop,
    ProcessRegistry,
};

#[test]
fn registered_processes_are_shut_down_by_priority() {
    let mut reg = ProcessRegistry::new();
    assert!(reg.is_empty());
    assert!(reg.register("restate-server", OnStop::TriggerShutdown, 10));
    assert!(reg.register("sys-restate-server-log", OnStop::Ignore, 9));
    assert!(reg.register("dev-server", OnStop::TriggerShutdown, 2));
    assert!(reg.register("watcher", OnStop::Ignore, 5));
    assert!(!reg.is_empty());
    let order = reg.trigger_shutdown();
    let priorities: Vec<u32> = order.iter().map(|(_, p)| *p).collect();
    assert_eq!(priorities, vec![10, 9, 5, 2]);
    let names: Vec<&str> = order.iter().map(|(n, _)| n.as_str()).collect();
    assert_eq!(names, vec!["restate-server", "sys-restate-server-log", "watcher", "dev-server"]);
    assert!(reg.is_shutdown_triggered());
}

#[test]
fn nothing_is_registered_after_shutdown() {
    let mut reg = ProcessRegistry::new();
    assert!(reg.register("a", OnStop::Ignore, 1));
    let _ = reg.trigger_shutdown();
    assert!(!reg.register("b", OnStop::Ignore, 3));
    let again = reg.trigger_shutdown();
    assert_eq!(again.len(), 1);
    assert_eq!(again[0].0, "a");
}

#[test]
fn registering_a_name_again_replaces_it() {
    let mut reg = ProcessRegistry::new();
    assert!(reg.register("a", OnStop::Ignore, 1));
    assert!(reg.register("a", OnStop::TriggerShutdown, 7));
    let order = reg.trigger_shutdown();
    assert_eq!(order, vec![("a".to_string(), 7)]);
}

#[test]
fn removed_processes_are_not_shut_down() {
    let mut reg = ProcessRegistry::new();
    assert!(reg.register("a", OnStop::Ignore, 1));
    assert!(reg.register("b", OnStop::Ignore, 2));
    reg.remove("a");
    reg.remove("missing");
    let order = reg.trigger_shutdown();
    assert_eq!(order, vec![("b".to_string(), 2)]);
    reg.remove("b");
    assert!(reg.is_empty());
}

#[test]
fn log_threads() {
    assert_eq!(log_process_name_of("restate"), "sys-restate-log");
    assert_eq!(log_process_priority(10), 9);
    assert_eq!(log_process_priority(0), 0);
}

#[test]
fn log_lines() {
    assert_eq!(log_line_to_print("hello\n"), Some("hello".to_string()));
    assert_eq!(log_line_to_print("hello\r\n"), Some("hello".to_string()));
    assert_eq!(log_line_to_print("a\n\n"), Some("a".to_string()));
    assert_eq!(log_line_to_print("\n"), None);
    assert_eq!(log_line_to_print("\r\n"), None);
    assert_eq!(log_line_to_print(""), None);
    assert_eq!(log_line_to_print("x\n\r"), Some("x\n".to_string()));
}

#[test]
fn log_positions() {
    assert_eq!(log_read_position(100, 50), 0);
    assert_eq!(log_read_position(100, 100), 100);
    assert_eq!(log_read_position(100, 150), 100);
}
