use soma::sync::McpFunctionSpec;
use soma::yaml_events::{
    env_var_yaml_op, mcp_yaml_op, secret_yaml_op, CredentialSpec, EnvVarEvent, EnvVarYamlOp, McpEvent,
    McpYamlOp, ProviderInstanceSpec, SecretEvent, SecretYamlOp,
};

fn s(x: &str) -> String {
    x.to_string()
}

#[test]
fn created_secret_is_written_once() {
    let yaml = Some(vec![s("EXISTING")]);
    let ev = SecretEvent::Created { key: s("NEW"), encrypted_secret: s("c1"), dek_alias: s("default") };
    assert_eq!(
        secret_yaml_op(&yaml, ev),
        Some(SecretYamlOp::Add { key: s("NEW"), value: s("c1"), dek_alias: s("default") })
    );
    let again = SecretEvent::Created { key: s("EXISTING"), encrypted_secret: s("c2"), dek_alias: s("default") };
    assert_eq!(secret_yaml_op(&yaml, again), None);
    let no_section = SecretEvent::Created { key: s("EXISTING"), encrypted_secret: s("c2"), dek_alias: s("d") };
    assert_eq!(
        secret_yaml_op(&None, no_section),
        Some(SecretYamlOp::Add { key: s("EXISTING"), value: s("c2"), dek_alias: s("d") })
    );
}

#[test]
fn updated_and_deleted_secrets_are_written() {
    let yaml = Some(vec![s("K")]);
    let up = SecretEvent::Updated { key: s("K"), encrypted_secret: s("c3"), dek_alias: s("a") };
    assert_eq!(
        secret_yaml_op(&yaml, up),
        Some(SecretYamlOp::Update { key: s("K"), value: s("c3"), dek_alias: s("a") })
    );
    assert_eq!(
        secret_yaml_op(&yaml, SecretEvent::Deleted { key: s("K") }),
        Some(SecretYamlOp::Remove { key: s("K") })
    );
}

#[test]
fn environment_variable_events_are_written_as_they_come() {
    assert_eq!(
        env_var_yaml_op(EnvVarEvent::Created { key: s("A"), value: s("1") }),
        EnvVarYamlOp::Add { key: s("A"), value: s("1") }
    );
    assert_eq!(
        env_var_yaml_op(EnvVarEvent::Updated { key: s("A"), value: s("2") }),
        EnvVarYamlOp::Update { key: s("A"), value: s("2") }
    );
    assert_eq!(env_var_yaml_op(EnvVarEvent::Deleted { key: s("A") }), EnvVarYamlOp::Remove { key: s("A") });
}

#[test]
fn mcp_events_become_file_changes() {
    let cred = CredentialSpec {
        id: s("c1"),
        type_id: s("oauth"),
        metadata: s("{}"),
        value: s("{\"token\":\"x\"}"),
        next_rotation_time: None,
        dek_alias: Some(s("default")),
    };
    let p = ProviderInstanceSpec {
        id: s("p1"),
        provider_controller_type_id: s("google_mail"),
        credential_controller_type_id: s("oauth"),
        display_name: s("Mail"),
        resource_server_credential: cred,
        user_credential: None,
    };
    match mcp_yaml_op(McpEvent::ProviderInstanceAdded(p)) {
        McpYamlOp::AddProvider(q) => {
            assert_eq!(q.id, "p1");
            assert_eq!(q.resource_server_credential.value, "{\"token\":\"x\"}");
        }
        _ => panic!("expected an added provider"),
    }
    match mcp_yaml_op(McpEvent::FunctionInstanceRemoved {
        function_controller_type_id: s("send"),
        provider_controller_type_id: s("google_mail"),
        provider_instance_id: s("p1"),
    }) {
        McpYamlOp::RemoveFunctionInstance {
            provider_controller_type_id,
            function_controller_type_id,
            provider_instance_id,
        } => {
            assert_eq!(provider_controller_type_id, "google_mail");
            assert_eq!(function_controller_type_id, "send");
            assert_eq!(provider_instance_id, "p1");
        }
        _ => panic!("expected a removed function instance"),
    }
    let f = McpFunctionSpec {
        function_controller_type_id: s("send"),
        provider_controller_type_id: s("google_mail"),
        provider_instance_id: s("p1"),
        function_name: s("send_mail"),
        function_description: None,
    };
    match mcp_yaml_op(McpEvent::McpServerAdded { id: s("srv"), name: s("Main"), functions: vec![f] }) {
        McpYamlOp::AddMcpServer { id, name, functions } => {
            assert_eq!(id, "srv");
            assert_eq!(name, "Main");
            assert_eq!(functions.len(), 1);
            assert_eq!(functions[0].function_name, "send_mail");
        }
        _ => panic!("expected an added server"),
    }
    assert!(matches!(
        mcp_yaml_op(McpEvent::McpServerRemoved { id: s("srv") }),
        McpYamlOp::RemoveMcpServer { id } if id == "srv"
    ));
}
