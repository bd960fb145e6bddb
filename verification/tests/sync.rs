use soma::sync::{
    contains_text, find_listed_server, mcp_function_ops, mcp_server_action, mcp_servers_to_delete,
    missing_keys, provider_action, providers_to_delete, ExistingMcpServer, ExistingProvider,
    McpFunctionOp, McpFunctionSpec, McpServerAction, ProviderAction, ProviderSpec,
};

fn strings(xs: &[&str]) -> Vec<String> {
    xs.iter().map(|x| x.to_string()).collect()
}

#[test]
fn missing_keys_are_created_once_in_yaml_order() {
    let wanted = strings(&["c", "a", "b", "a", "d"]);
    let existing = strings(&["b", "x"]);
    assert_eq!(missing_keys(&wanted, &existing), strings(&["c", "a", "d"]));
    assert!(missing_keys(&vec![], &existing).is_empty());
    assert_eq!(missing_keys(&wanted, &vec![]), strings(&["c", "a", "b", "d"]));
}

#[test]
fn functions_to_enable_and_disable() {
    let yaml = strings(&["send", "list"]);
    let api = strings(&["list", "delete", "delete"]);
    assert_eq!(missing_keys(&yaml, &api), strings(&["send"]));
    assert_eq!(missing_keys(&api, &yaml), strings(&["delete"]));
}

#[test]
fn text_membership() {
    let v = strings(&["a", "b"]);
    assert!(contains_text(&v, "b"));
    assert!(!contains_text(&v, "c"));
}

fn spec(id: &str, ctrl: &str, cred: &str, name: &str) -> ProviderSpec {
    ProviderSpec {
        id: id.to_string(),
        provider_controller_type_id: ctrl.to_string(),
        credential_controller_type_id: cred.to_string(),
        display_name: name.to_string(),
    }
}

fn listed(id: &str, ctrl: &str, cred: &str, name: &str, status: &str) -> ExistingProvider {
    ExistingProvider {
        id: id.to_string(),
        provider_controller_type_id: ctrl.to_string(),
        credential_controller_type_id: cred.to_string(),
        display_name: name.to_string(),
        status: status.to_string(),
    }
}

#[test]
fn provider_actions() {
    let existing = vec![
        listed("p1", "google_mail", "oauth", "Work", "active"),
        listed("p2", "slack", "api_key", "Team", "active"),
    ];
    assert_eq!(provider_action(&spec("p3", "x", "y", "z"), &existing), ProviderAction::Create);
    assert_eq!(provider_action(&spec("p1", "google_mail", "oauth", "Work"), &existing), ProviderAction::Keep);
    assert_eq!(provider_action(&spec("p1", "google_mail", "oauth", "Home"), &existing), ProviderAction::Recreate);
    assert_eq!(provider_action(&spec("p2", "slack", "oauth", "Team"), &existing), ProviderAction::Recreate);
    assert_eq!(provider_action(&spec("p2", "teams", "api_key", "Team"), &existing), ProviderAction::Recreate);
}

#[test]
fn later_listing_of_an_id_counts() {
    let existing = vec![listed("p1", "a", "b", "Old", "active"), listed("p1", "a", "b", "New", "pending")];
    assert_eq!(provider_action(&spec("p1", "a", "b", "New"), &existing), ProviderAction::Keep);
    assert!(providers_to_delete(&vec![], &existing).is_empty());
}

#[test]
fn only_active_providers_missing_from_yaml_are_deleted() {
    let existing = vec![
        listed("keep", "a", "b", "c", "active"),
        listed("gone", "a", "b", "c", "active"),
        listed("pending", "a", "b", "c", "brokering_initiated"),
        listed("gone", "a", "b", "c", "active"),
    ];
    let yaml = strings(&["keep"]);
    assert_eq!(providers_to_delete(&yaml, &existing), strings(&["gone"]));
}

fn function(f: &str, p: &str, i: &str, name: &str, desc: Option<&str>) -> McpFunctionSpec {
    McpFunctionSpec {
        function_controller_type_id: f.to_string(),
        provider_controller_type_id: p.to_string(),
        provider_instance_id: i.to_string(),
        function_name: name.to_string(),
        function_description: desc.map(|d| d.to_string()),
    }
}

#[test]
fn mcp_function_changes() {
    let existing = vec![
        function("send", "mail", "m1", "send", None),
        function("list", "mail", "m1", "list", Some("List mail")),
        function("old", "mail", "m1", "old", None),
        function("old", "mail", "m1", "old", None),
    ];
    let wanted = Some(vec![
        function("send", "mail", "m1", "send", None),
        function("list", "mail", "m1", "list_all", Some("List mail")),
        function("post", "chat", "c1", "post", None),
    ]);
    let ops = mcp_function_ops(&wanted, &existing);
    assert_eq!(
        ops,
        vec![
            McpFunctionOp::Remove {
                function_controller_type_id: "old".to_string(),
                provider_controller_type_id: "mail".to_string(),
                provider_instance_id: "m1".to_string(),
            },
            McpFunctionOp::Update { index: 1 },
            McpFunctionOp::Add { index: 2 },
        ]
    );
}

#[test]
fn server_without_listed_functions_loses_them_all() {
    let existing = vec![function("send", "mail", "m1", "send", None)];
    let ops = mcp_function_ops(&None, &existing);
    assert_eq!(ops.len(), 1);
    assert!(matches!(ops[0], McpFunctionOp::Remove { .. }));
    let desc_changed = mcp_function_ops(
        &Some(vec![function("send", "mail", "m1", "send", Some("Sends"))]),
        &existing,
    );
    assert_eq!(desc_changed, vec![McpFunctionOp::Update { index: 0 }]);
}

fn server(id: &str, name: &str) -> ExistingMcpServer {
    ExistingMcpServer { id: id.to_string(), name: name.to_string(), functions: vec![] }
}

#[test]
fn mcp_servers() {
    let existing = vec![server("s1", "One"), server("s2", "Two"), server("s1", "Uno")];
    let i = find_listed_server(&existing, "s1").unwrap();
    assert_eq!(existing[i].name, "Uno");
    assert_eq!(find_listed_server(&existing, "s9"), None);
    assert_eq!(mcp_server_action("Uno", Some(&existing[i])), McpServerAction::Keep);
    assert_eq!(mcp_server_action("One", Some(&existing[i])), McpServerAction::Rename);
    assert_eq!(mcp_server_action("New", None), McpServerAction::Create);
    assert_eq!(mcp_servers_to_delete(&strings(&["s2"]), &existing), strings(&["s1"]));
}

#[test]
fn second_run_plans_nothing() {
    // Keys: after creating the missing ones, none is missing.
    let wanted = strings(&["a", "b", "c"]);
    let mut existing = strings(&["b"]);
    let created = missing_keys(&wanted, &existing);
    existing.extend(created);
    assert!(missing_keys(&wanted, &existing).is_empty());

    // Providers: one listed as described is kept; none is deleted when all are named.
    let wanted_provider = spec("p1", "google", "oauth", "Google");
    let api = vec![listed("p1", "google", "oauth", "Google", "active")];
    assert_eq!(provider_action(&wanted_provider, &api), ProviderAction::Keep);
    assert!(providers_to_delete(&strings(&["p1"]), &api).is_empty());

    // MCP servers and their functions: in place, nothing changes.
    let fs = vec![
        function("f1", "google", "p1", "send", Some("Sends")),
        function("f2", "google", "p1", "read", None),
    ];
    assert!(mcp_function_ops(&Some(fs.clone()), &fs).is_empty());
    let servers = vec![server("s1", "Main")];
    assert_eq!(mcp_server_action("Main", Some(&servers[0])), McpServerAction::Keep);
    assert!(mcp_servers_to_delete(&strings(&["s1"]), &servers).is_empty());
}
