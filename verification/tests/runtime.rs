use soma::runtime::{
    dev_runtime_command, determine_runtime_from_dir, start_vite_dev_server, Typescript, find_free_port_with_bind, is_vite_project, pick_runtime,
    validate_runtime_bun_v1, validate_runtime_pnpm_v1, PortErrorKind, Runtime,
};

/// A directory holding exactly `files`, as a `file_exists` check sees it.
fn dir_with(files: &'static [&'static str]) -> impl Fn(String) -> bool {
    move |path: String| files.iter().any(|f| path == format!("/tmp/project/{f}"))
}

#[test]
fn test_validate_runtime_bun_v1_with_valid_project() {
    let exists = dir_with(&["package.json", "index.ts"]);

    let result = validate_runtime_pnpm_v1("/tmp/project", &exists).unwrap();
    assert!(result, "Should validate as BunV1 runtime");
}

#[test]
fn test_validate_runtime_pnpm_v1_missing_package_json() {
    let exists = dir_with(&["index.ts"]);

    let result = validate_runtime_pnpm_v1("/tmp/project", &exists).unwrap();
    assert!(!result, "Should not validate without package.json");
}

#[test]
fn test_validate_runtime_pnpm_v1_missing_index_ts() {
    let exists = dir_with(&["package.json"]);

    let result = validate_runtime_pnpm_v1("/tmp/project", &exists).unwrap();
    assert!(!result, "Should not validate without index.ts");
}

#[test]
fn test_determine_runtime_from_dir_pnpm_v1() {
    let exists = dir_with(&["package.json", "index.ts"]);

    let runtime = determine_runtime_from_dir("/tmp/project", &exists).unwrap();
    assert_eq!(runtime, Some(Runtime::PnpmV1));
}

#[test]
fn test_determine_runtime_from_dir_no_match() {
    let exists = dir_with(&[]);

    let runtime = determine_runtime_from_dir("/tmp/project", &exists).unwrap();
    assert_eq!(runtime, None);
}

#[test]
fn bun_runtime_checks_the_same_files() {
    assert!(validate_runtime_bun_v1("/tmp/project", &dir_with(&["package.json", "index.ts"])).unwrap());
    assert!(!validate_runtime_bun_v1("/tmp/project", &dir_with(&["package.json"])).unwrap());
}

#[test]
fn files_are_looked_up_under_the_directory() {
    // A trailing slash on the directory is not doubled.
    let exists = dir_with(&["package.json", "index.ts"]);
    assert!(validate_runtime_pnpm_v1("/tmp/project/", &exists).unwrap());
    assert!(!validate_runtime_pnpm_v1("/tmp/other", &exists).unwrap());
}

#[test]
fn vite_projects_have_a_vite_config() {
    assert!(is_vite_project("/tmp/project", &dir_with(&["vite.config.ts"])));
    assert!(!is_vite_project("/tmp/project", &dir_with(&["index.ts"])));
}

#[test]
fn several_matched_runtimes_are_an_error() {
    assert!(pick_runtime(vec![Runtime::PnpmV1, Runtime::PnpmV1]).is_err());
    assert_eq!(pick_runtime(vec![]).unwrap(), None);
    assert_eq!(pick_runtime(vec![Runtime::PnpmV1]).unwrap(), Some(Runtime::PnpmV1));
}

#[test]
fn test_find_free_port_success() {
    // Mock bind function that succeeds on port 3002
    let bind_fn = |port: u16| port == 3002;

    let port = find_free_port_with_bind(3000, 3010, bind_fn).unwrap();
    assert_eq!(port, 3002);
}

#[test]
fn test_find_free_port_no_ports_available() {
    // Mock bind function that always fails
    let bind_fn = |_: u16| false;

    let result = find_free_port_with_bind(3000, 3010, bind_fn);
    assert!(result.is_err());
    assert_eq!(result.unwrap_err().kind(), PortErrorKind::AddrNotAvailable);
}

#[test]
fn test_find_free_port_first_port_available() {
    // Mock bind function that always succeeds
    let bind_fn = |_: u16| true;

    let port = find_free_port_with_bind(5000, 5100, bind_fn).unwrap();
    assert_eq!(port, 5000);
}

#[test]
fn test_find_free_port_last_port_available() {
    // Mock bind function that only succeeds on the last port
    let bind_fn = |port: u16| port == 6010;

    let port = find_free_port_with_bind(6000, 6010, bind_fn).unwrap();
    assert_eq!(port, 6010);
}

#[test]
fn find_free_port_edges() {
    assert!(find_free_port_with_bind(10, 9, |_: u16| true).is_err());
    assert_eq!(find_free_port_with_bind(u16::MAX, u16::MAX, |_: u16| true).unwrap(), u16::MAX);
    assert!(find_free_port_with_bind(u16::MAX - 1, u16::MAX, |_: u16| false).is_err());
}

#[test]
fn typescript_commands() {
    let ts = Typescript::new();
    let dev = ts.start_dev_server_command("/work/app", "/tmp/soma.sock");
    assert_eq!(dev.program, "pnpm");
    assert_eq!(dev.args, vec!["dlx", "vite", "dev"]);
    assert_eq!(dev.envs, vec![("SOMA_SERVER_SOCK".to_string(), "/tmp/soma.sock".to_string())]);
    assert_eq!(dev.cwd, Some("/work/app".to_string()));
    let build = ts.build_command("/work/app");
    assert_eq!(build.args, vec!["dlx", "vite", "build"]);
    assert!(build.envs.is_empty());
    assert_eq!(build.cwd, Some("/work/app".to_string()));
}

#[test]
fn vite_guard_is_handed_back() {
    assert_eq!(start_vite_dev_server(Some(7u8)), 7);
}

#[test]
fn dev_runtime_needs_vite() {
    let plan = dev_runtime_command("/tmp/project", &dir_with(&["vite.config.ts"])).unwrap();
    assert_eq!(plan.program, "pnpm");
    assert_eq!(plan.args, vec!["dlx", "vite", "dev"]);
    assert_eq!(plan.envs, vec![("SOMA_SERVER_SOCK".to_string(), "/tmp/soma-sdk.sock".to_string())]);
    assert_eq!(plan.cwd, Some("/tmp/project".to_string()));
    assert!(dev_runtime_command("/tmp/project", &dir_with(&["index.ts"])).is_err());
}
