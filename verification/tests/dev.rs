use soma::dev::{
    dev_restate_params, resolve_db_conn_string, DevSystem, MonitorAction, MonitorEvent,
    ShutdownMonitor,
};
use soma::restate::{RemoteRestateParams, RestateError, RestateServerParams};

#[test]
fn relative_database_urls_are_made_absolute() {
    assert_eq!(
        resolve_db_conn_string("libsql://./.soma/local.db?mode=local", "/work/app"),
        Some("libsql://./work/app/.soma/local.db?mode=local".to_string())
    );
    assert_eq!(
        resolve_db_conn_string("libsql://db.example.com/x", "/work/app"),
        Some("libsql://db.example.com/x".to_string())
    );
}

#[test]
fn dev_restate_defaults_to_local_ports() {
    match dev_restate_params(None, "/work/app".to_string()) {
        Ok(RestateServerParams::Local(p)) => {
            assert_eq!(p.project_dir, "/work/app");
            assert_eq!((p.ingress_port, p.admin_port, p.advertised_node_port), (8080, 9070, 5122));
        }
        _ => panic!("expected a local server"),
    }
    let half = RemoteRestateParams { admin_url: Some("https://a/".to_string()), ingress_url: None, admin_token: None };
    assert!(matches!(dev_restate_params(Some(half), "/w".to_string()), Err(RestateError::MissingRemoteAddress)));
}

#[test]
fn unexpected_stop_triggers_shutdown_once() {
    let mut m = ShutdownMonitor::new();
    assert_eq!(m.on_event(MonitorEvent::Tick), MonitorAction::Continue);
    assert_eq!(
        m.on_event(MonitorEvent::Stopped(DevSystem::FileWatcher)),
        MonitorAction::TriggerShutdown { by: DevSystem::FileWatcher }
    );
    assert_eq!(m.on_event(MonitorEvent::Stopped(DevSystem::Restate)), MonitorAction::Continue);
    assert_eq!(m.on_event(MonitorEvent::Stopped(DevSystem::AxumServer)), MonitorAction::Continue);
    assert_eq!(m.on_event(MonitorEvent::Stopped(DevSystem::Runtime)), MonitorAction::Continue);
    assert_eq!(m.on_event(MonitorEvent::Stopped(DevSystem::McpTransport)), MonitorAction::Continue);
    assert_eq!(m.on_event(MonitorEvent::Stopped(DevSystem::SdkWatcher)), MonitorAction::AllStopped);
    assert_eq!(m.on_event(MonitorEvent::Timeout), MonitorAction::Continue);
}

#[test]
fn requested_shutdown_times_out_with_the_waiting_systems() {
    let mut m = ShutdownMonitor::new();
    assert_eq!(m.on_event(MonitorEvent::ShutdownRequested), MonitorAction::Continue);
    assert_eq!(m.on_event(MonitorEvent::Stopped(DevSystem::Runtime)), MonitorAction::Continue);
    assert_eq!(m.on_event(MonitorEvent::Stopped(DevSystem::CredentialRotation)), MonitorAction::Continue);
    assert_eq!(
        m.on_event(MonitorEvent::Timeout),
        MonitorAction::TimedOut {
            waiting: vec![DevSystem::Restate, DevSystem::AxumServer, DevSystem::McpTransport, DevSystem::SdkWatcher]
        }
    );
}
