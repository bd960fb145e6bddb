use soma::startup_sync::{
    startup_plan, ApiSnapshot, ApiWrite, ProviderFunctions, StartupDefinition, YamlEnvelopeKey, YamlMcpServer,
    YamlProvider,
};
use soma::sync::{ExistingMcpServer, ExistingProvider, McpFunctionOp, McpFunctionSpec, ProviderSpec};

fn s(x: &str) -> String {
    x.to_string()
}

fn strings(xs: &[&str]) -> Vec<String> {
    xs.iter().map(|x| s(x)).collect()
}

fn function(f: &str, name: &str) -> McpFunctionSpec {
    McpFunctionSpec {
        function_controller_type_id: s(f),
        provider_controller_type_id: s("google"),
        provider_instance_id: s("p1"),
        function_name: s(name),
        function_description: None,
    }
}

fn definition() -> StartupDefinition {
    StartupDefinition {
        envelope_keys: Some(vec![
            YamlEnvelopeKey { id: s("k1"), dek_aliases: strings(&["default", "other"]) },
            YamlEnvelopeKey { id: s("k2"), dek_aliases: strings(&["default", "third"]) },
        ]),
        providers: Some(vec![YamlProvider {
            spec: ProviderSpec {
                id: s("p1"),
                provider_controller_type_id: s("google"),
                credential_controller_type_id: s("oauth"),
                display_name: s("Google"),
            },
            functions: strings(&["send", "read"]),
        }]),
        secrets: Some(strings(&["S1"])),
        environment_variables: Some(strings(&["E1"])),
        mcp_servers: Some(vec![YamlMcpServer {
            id: s("srv"),
            name: s("Main"),
            functions: Some(vec![function("send", "send_mail")]),
        }]),
        api_keys: Some(strings(&["ak"])),
        sts_configurations: Some(strings(&["sts"])),
        user_auth_flows: Some(strings(&["flow"])),
    }
}

fn empty_api() -> ApiSnapshot {
    ApiSnapshot {
        envelope_keys: vec![],
        found_dek_aliases: vec![],
        providers: vec![],
        enabled_functions: vec![],
        secrets: vec![],
        environment_variables: vec![],
        mcp_servers: vec![],
        api_keys: vec![],
        sts_configurations: vec![],
        user_auth_flows: vec![],
    }
}

fn reflecting_api() -> ApiSnapshot {
    ApiSnapshot {
        envelope_keys: strings(&["k2", "k1"]),
        found_dek_aliases: strings(&["default", "other", "third"]),
        providers: vec![ExistingProvider {
            id: s("p1"),
            provider_controller_type_id: s("google"),
            credential_controller_type_id: s("oauth"),
            display_name: s("Google"),
            status: s("active"),
        }],
        enabled_functions: vec![ProviderFunctions { provider_id: s("p1"), enabled: strings(&["read", "send"]) }],
        secrets: strings(&["S1"]),
        environment_variables: strings(&["E1"]),
        mcp_servers: vec![ExistingMcpServer { id: s("srv"), name: s("Main"), functions: vec![function("send", "send_mail")] }],
        api_keys: strings(&["ak"]),
        sts_configurations: strings(&["sts"]),
        user_auth_flows: strings(&["flow"]),
    }
}

fn describe(w: &ApiWrite) -> String {
    match w {
        ApiWrite::CreateEnvelopeKey { id } => format!("create key {id}"),
        ApiWrite::ImportDek { envelope_key_id, alias } => format!("import dek {envelope_key_id}/{alias}"),
        ApiWrite::DeleteProvider { id } => format!("delete provider {id}"),
        ApiWrite::CreateProvider { id } => format!("create provider {id}"),
        ApiWrite::SyncProviderFunctions { provider_id } => format!("sync functions {provider_id}"),
        ApiWrite::DisableFunction { provider_id, function_id } => format!("disable {provider_id}/{function_id}"),
        ApiWrite::EnableFunction { provider_id, function_id } => format!("enable {provider_id}/{function_id}"),
        ApiWrite::ImportSecret { key } => format!("import secret {key}"),
        ApiWrite::CreateVariable { key } => format!("create variable {key}"),
        ApiWrite::CreateMcpServer { id } => format!("create server {id}"),
        ApiWrite::RenameMcpServer { id } => format!("rename server {id}"),
        ApiWrite::ChangeMcpServerFunction { server_id, op } => match op {
            McpFunctionOp::Remove { function_controller_type_id, .. } => {
                format!("remove {server_id}/{function_controller_type_id}")
            }
            McpFunctionOp::Add { index } => format!("add {server_id}/{index}"),
            McpFunctionOp::Update { index } => format!("update {server_id}/{index}"),
        },
        ApiWrite::DeleteMcpServer { id } => format!("delete server {id}"),
        ApiWrite::ImportApiKey { id } => format!("import api key {id}"),
        ApiWrite::CreateStsConfig { id } => format!("create sts {id}"),
        ApiWrite::ImportUserAuthFlow { id } => format!("import flow {id}"),
    }
}

#[test]
fn first_startup_sync_creates_everything_in_order() {
    let plan: Vec<String> = startup_plan(&definition(), &empty_api()).iter().map(describe).collect();
    assert_eq!(
        plan,
        vec![
            "create key k1",
            "import dek k1/default",
            "import dek k1/other",
            "create key k2",
            "import dek k2/third",
            "create provider p1",
            "sync functions p1",
            "import secret S1",
            "create variable E1",
            "create server srv",
            "add srv/0",
            "import api key ak",
            "create sts sts",
            "import flow flow",
        ]
    );
}

#[test]
fn second_startup_sync_plans_nothing() {
    assert!(startup_plan(&definition(), &reflecting_api()).is_empty());
}

#[test]
fn startup_sync_removes_what_the_file_drops() {
    let mut api = reflecting_api();
    api.enabled_functions[0].enabled.push(s("old_fn"));
    api.providers.push(ExistingProvider {
        id: s("gone"),
        provider_controller_type_id: s("x"),
        credential_controller_type_id: s("y"),
        display_name: s("Gone"),
        status: s("active"),
    });
    api.mcp_servers[0].name = s("Renamed");
    api.mcp_servers[0].functions.push(function("old", "old"));
    api.mcp_servers.push(ExistingMcpServer { id: s("stale"), name: s("Stale"), functions: vec![] });
    let plan: Vec<String> = startup_plan(&definition(), &api).iter().map(describe).collect();
    assert_eq!(
        plan,
        vec![
            "disable p1/old_fn",
            "delete provider gone",
            "rename server srv",
            "remove srv/old",
            "delete server stale",
        ]
    );
}

#[test]
fn changed_provider_is_recreated() {
    let mut api = reflecting_api();
    api.providers[0].display_name = s("Old name");
    let plan: Vec<String> = startup_plan(&definition(), &api).iter().map(describe).collect();
    assert_eq!(plan, vec!["delete provider p1", "create provider p1", "sync functions p1"]);
}
