use soma::error::SomaError;
use soma::paths::{get_restate_binary_path, get_soma_data_dir, restate_binary_source, RestateBinarySource};
use soma::restate::{
    address_from_parsed, check_local_ports, local_restate_command, remote_restate_params,
    RemoteRestateParams, RestateError, RestatePort, RestateServerLocalParams, RestateServerParams,
};

fn local() -> RestateServerParams {
    RestateServerParams::Local(RestateServerLocalParams {
        project_dir: "/work/app".to_string(),
        ingress_port: 8080,
        admin_port: 9070,
        advertised_node_port: 5122,
    })
}

#[test]
fn local_addresses_are_loopback_urls() {
    let p = local();
    assert_eq!(p.get_admin_address().unwrap(), "http://127.0.0.1:9070/");
    assert_eq!(p.get_ingress_address().unwrap(), "http://127.0.0.1:8080/");
    assert_eq!(p.get_admin_token(), None);
    assert!(p.get_insecure());
    assert!(!p.get_private());
    assert!(p.get_force());
}

#[test]
fn remote_addresses_are_kept() {
    let p = remote_restate_params(RemoteRestateParams {
        admin_url: Some("https://admin.example.com/".to_string()),
        ingress_url: Some("https://ingress.example.com/".to_string()),
        admin_token: Some("SECRET-REDACTED".to_string()),
    })
    .unwrap();
    assert_eq!(p.get_admin_address().unwrap(), "https://admin.example.com/");
    assert_eq!(p.get_ingress_address().unwrap(), "https://ingress.example.com/");
    assert_eq!(p.get_admin_token(), Some("SECRET-REDACTED".to_string()));
    assert!(!p.get_insecure());
    assert!(!p.get_private());
    assert!(p.get_force());
}

#[test]
fn remote_needs_both_urls() {
    let missing = remote_restate_params(RemoteRestateParams {
        admin_url: Some("https://admin.example.com/".to_string()),
        ingress_url: None,
        admin_token: None,
    });
    assert!(matches!(missing, Err(RestateError::MissingRemoteAddress)));
    let none = remote_restate_params(RemoteRestateParams { admin_url: None, ingress_url: None, admin_token: None });
    assert!(matches!(none, Err(RestateError::MissingRemoteAddress)));
}

#[test]
fn parsed_address_or_error() {
    assert_eq!(address_from_parsed(Some("http://x/".to_string())).unwrap(), "http://x/");
    assert!(matches!(address_from_parsed(None), Err(RestateError::InvalidAddress)));
}

#[test]
fn local_server_command() {
    let params = RestateServerLocalParams {
        project_dir: "/work/app".to_string(),
        ingress_port: 8080,
        admin_port: 9070,
        advertised_node_port: 5122,
    };
    let plan = local_restate_command(&params);
    assert_eq!(plan.program, "restate-server");
    assert_eq!(plan.cwd, None);
    assert_eq!(
        plan.args,
        vec!["--log-filter", "warn", "--tracing-filter", "warn", "--base-dir", "/work/app/.soma/restate-data"]
    );
    assert_eq!(
        plan.envs,
        vec![
            ("RESTATE__INGRESS__BIND_ADDRESS".to_string(), "127.0.0.1:8080".to_string()),
            ("RESTATE__ADMIN__BIND_ADDRESS".to_string(), "127.0.0.1:9070".to_string()),
            ("RESTATE__ADVERTISED_ADDRESS".to_string(), "127.0.0.1:5122".to_string()),
        ]
    );
}

#[test]
fn local_ports_are_checked_in_order() {
    let params = RestateServerLocalParams {
        project_dir: "/w".to_string(),
        ingress_port: 1,
        admin_port: 2,
        advertised_node_port: 3,
    };
    let free = |_: u16| -> Result<bool, SomaError> { Ok(false) };
    assert!(check_local_ports(&params, &free).is_ok());
    let admin_taken = |p: u16| -> Result<bool, SomaError> { Ok(p == 2 || p == 3) };
    match check_local_ports(&params, &admin_taken) {
        Err(RestateError::PortInUse { service, port }) => {
            assert_eq!(service, RestatePort::Admin);
            assert_eq!(port, 2);
        }
        _ => panic!("the admin port is taken"),
    }
    let broken = |_: u16| -> Result<bool, SomaError> { Err(SomaError::Unknown { msg: "boom".to_string() }) };
    assert!(matches!(check_local_ports(&params, &broken), Err(RestateError::PortCheck(_))));
}

#[test]
fn data_dir_and_binary_path() {
    assert_eq!(get_soma_data_dir().unwrap(), "/var/lib/soma");
    assert_eq!(get_restate_binary_path().unwrap(), "/var/lib/soma/bin/restate-server");
}

#[test]
fn binary_source_preference() {
    assert_eq!(restate_binary_source(true, true, true), RestateBinarySource::SystemPath);
    assert_eq!(restate_binary_source(false, true, false), RestateBinarySource::Installed);
    assert_eq!(restate_binary_source(false, false, true), RestateBinarySource::InstallBundled);
    assert_eq!(restate_binary_source(false, false, false), RestateBinarySource::Unavailable);
}
