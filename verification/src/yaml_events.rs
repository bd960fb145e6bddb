//! Writing configuration events back to `soma.yaml`: the change to the file for
//! each MCP, secret and environment variable event.
use vstd::prelude::*;
use crate::identity_sync::{is_listed, listed};
use crate::sync::McpFunctionSpec;

verus! {

/// A credential as the events carry it; `metadata` and `value` are JSON text.
pub struct CredentialSpec {
    pub id: String,
    pub type_id: String,
    pub metadata: String,
    pub value: String,
    pub next_rotation_time: Option<String>,
    pub dek_alias: Option<String>,
}

/// A provider instance with its credentials.
pub struct ProviderInstanceSpec {
    pub id: String,
    pub provider_controller_type_id: String,
    pub credential_controller_type_id: String,
    pub display_name: String,
    pub resource_server_credential: CredentialSpec,
    pub user_credential: Option<CredentialSpec>,
}

/// A configuration event of the MCP part of the API.
pub enum McpEvent {
    ProviderInstanceAdded(ProviderInstanceSpec),
    ProviderInstanceUpdated(ProviderInstanceSpec),
    ProviderInstanceRemoved { provider_instance_id: String },
    FunctionInstanceAdded {
        provider_controller_type_id: String,
        function_controller_type_id: String,
        provider_instance_id: String,
    },
    FunctionInstanceRemoved {
        function_controller_type_id: String,
        provider_controller_type_id: String,
        provider_instance_id: String,
    },
    McpServerAdded { id: String, name: String, functions: Vec<McpFunctionSpec> },
    McpServerUpdated { id: String, name: String, functions: Vec<McpFunctionSpec> },
    McpServerRemoved { id: String },
    McpServerFunctionAdded { mcp_server_instance_id: String, function: McpFunctionSpec },
    McpServerFunctionUpdated { mcp_server_instance_id: String, function: McpFunctionSpec },
    McpServerFunctionRemoved {
        mcp_server_instance_id: String,
        function_controller_type_id: String,
        provider_controller_type_id: String,
        provider_instance_id: String,
    },
}

/// A change to the MCP part of `soma.yaml`. Providers are written without a
/// function list; MCP servers with the full list of their functions.
pub enum McpYamlOp {
    AddProvider(ProviderInstanceSpec),
    UpdateProvider(ProviderInstanceSpec),
    RemoveProvider { id: String },
    AddFunctionInstance {
        provider_controller_type_id: String,
        function_controller_type_id: String,
        provider_instance_id: String,
    },
    RemoveFunctionInstance {
        provider_controller_type_id: String,
        function_controller_type_id: String,
        provider_instance_id: String,
    },
    AddMcpServer { id: String, name: String, functions: Vec<McpFunctionSpec> },
    UpdateMcpServer { id: String, name: String, functions: Vec<McpFunctionSpec> },
    RemoveMcpServer { id: String },
    AddMcpServerFunction { mcp_server_instance_id: String, function: McpFunctionSpec },
    UpdateMcpServerFunction { mcp_server_instance_id: String, function: McpFunctionSpec },
    RemoveMcpServerFunction {
        mcp_server_instance_id: String,
        function_controller_type_id: String,
        provider_controller_type_id: String,
        provider_instance_id: String,
    },
}

/// The file change for an MCP event: every event is written, as the matching
/// addition, update or removal, with the event's own data.
pub open spec fn mcp_op_of(event: McpEvent) -> McpYamlOp {
    match event {
        McpEvent::ProviderInstanceAdded(p) => McpYamlOp::AddProvider(p),
        McpEvent::ProviderInstanceUpdated(p) => McpYamlOp::UpdateProvider(p),
        McpEvent::ProviderInstanceRemoved { provider_instance_id } => McpYamlOp::RemoveProvider {
            id: provider_instance_id,
        },
        McpEvent::FunctionInstanceAdded {
            provider_controller_type_id,
            function_controller_type_id,
            provider_instance_id,
        } => McpYamlOp::AddFunctionInstance {
            provider_controller_type_id,
            function_controller_type_id,
            provider_instance_id,
        },
        McpEvent::FunctionInstanceRemoved {
            function_controller_type_id,
            provider_controller_type_id,
            provider_instance_id,
        } => McpYamlOp::RemoveFunctionInstance {
            provider_controller_type_id,
            function_controller_type_id,
            provider_instance_id,
        },
        McpEvent::McpServerAdded { id, name, functions } => McpYamlOp::AddMcpServer {
            id,
            name,
            functions,
        },
        McpEvent::McpServerUpdated { id, name, functions } => McpYamlOp::UpdateMcpServer {
            id,
            name,
            functions,
        },
        McpEvent::McpServerRemoved { id } => McpYamlOp::RemoveMcpServer { id },
        McpEvent::McpServerFunctionAdded { mcp_server_instance_id, function } =>
            McpYamlOp::AddMcpServerFunction { mcp_server_instance_id, function },
        McpEvent::McpServerFunctionUpdated { mcp_server_instance_id, function } =>
            McpYamlOp::UpdateMcpServerFunction { mcp_server_instance_id, function },
        McpEvent::McpServerFunctionRemoved {
            mcp_server_instance_id,
            function_controller_type_id,
            provider_controller_type_id,
            provider_instance_id,
        } => McpYamlOp::RemoveMcpServerFunction {
            mcp_server_instance_id,
            function_controller_type_id,
            provider_controller_type_id,
            provider_instance_id,
        },
    }
}

/// The change to `soma.yaml` for an MCP event.
pub fn mcp_yaml_op(event: McpEvent) -> (r: McpYamlOp)
    ensures
        r == mcp_op_of(event),
{
    match event {
        McpEvent::ProviderInstanceAdded(p) => McpYamlOp::AddProvider(p),
        McpEvent::ProviderInstanceUpdated(p) => McpYamlOp::UpdateProvider(p),
        McpEvent::ProviderInstanceRemoved { provider_instance_id } => McpYamlOp::RemoveProvider {
            id: provider_instance_id,
        },
        McpEvent::FunctionInstanceAdded {
            provider_controller_type_id,
            function_controller_type_id,
            provider_instance_id,
        } => McpYamlOp::AddFunctionInstance {
            provider_controller_type_id,
            function_controller_type_id,
            provider_instance_id,
        },
        McpEvent::FunctionInstanceRemoved {
            function_controller_type_id,
            provider_controller_type_id,
            provider_instance_id,
        } => McpYamlOp::RemoveFunctionInstance {
            provider_controller_type_id,
            function_controller_type_id,
            provider_instance_id,
        },
        McpEvent::McpServerAdded { id, name, functions } => McpYamlOp::AddMcpServer {
            id,
            name,
            functions,
        },
        McpEvent::McpServerUpdated { id, name, functions } => McpYamlOp::UpdateMcpServer {
            id,
            name,
            functions,
        },
        McpEvent::McpServerRemoved { id } => McpYamlOp::RemoveMcpServer { id },
        McpEvent::McpServerFunctionAdded { mcp_server_instance_id, function } =>
            McpYamlOp::AddMcpServerFunction { mcp_server_instance_id, function },
        McpEvent::McpServerFunctionUpdated { mcp_server_instance_id, function } =>
            McpYamlOp::UpdateMcpServerFunction { mcp_server_instance_id, function },
        McpEvent::McpServerFunctionRemoved {
            mcp_server_instance_id,
            function_controller_type_id,
            provider_controller_type_id,
            provider_instance_id,
        } => McpYamlOp::RemoveMcpServerFunction {
            mcp_server_instance_id,
            function_controller_type_id,
            provider_controller_type_id,
            provider_instance_id,
        },
    }
}

/// A secret event; the secret's value is already encrypted under the DEK alias.
pub enum SecretEvent {
    Created { key: String, encrypted_secret: String, dek_alias: String },
    Updated { key: String, encrypted_secret: String, dek_alias: String },
    Deleted { key: String },
}

/// A change to the secrets of `soma.yaml`.
#[derive(Debug, PartialEq, Eq)]
pub enum SecretYamlOp {
    Add { key: String, value: String, dek_alias: String },
    Update { key: String, value: String, dek_alias: String },
    Remove { key: String },
}

/// The change to `soma.yaml` for a secret event, given the secret keys that the
/// file holds (`None` when it has no secrets section). A created secret that the
/// file already holds is not written: its stored ciphertext stays, since
/// encrypting again gives other bytes.
pub fn secret_yaml_op(yaml_keys: &Option<Vec<String>>, event: SecretEvent) -> (r: Option<SecretYamlOp>)
    ensures
        match event {
            SecretEvent::Created { key, encrypted_secret, dek_alias } => if listed(*yaml_keys, key@) {
                r is None
            } else {
                r == Some(SecretYamlOp::Add { key, value: encrypted_secret, dek_alias })
            },
            SecretEvent::Updated { key, encrypted_secret, dek_alias } => r == Some(
                SecretYamlOp::Update { key, value: encrypted_secret, dek_alias },
            ),
            SecretEvent::Deleted { key } => r == Some(SecretYamlOp::Remove { key }),
        },
{
    match event {
        SecretEvent::Created { key, encrypted_secret, dek_alias } => {
            if is_listed(yaml_keys, &key) {
                None
            } else {
                Some(SecretYamlOp::Add { key, value: encrypted_secret, dek_alias })
            }
        },
        SecretEvent::Updated { key, encrypted_secret, dek_alias } => Some(
            SecretYamlOp::Update { key, value: encrypted_secret, dek_alias },
        ),
        SecretEvent::Deleted { key } => Some(SecretYamlOp::Remove { key }),
    }
}

/// An environment variable event.
pub enum EnvVarEvent {
    Created { key: String, value: String },
    Updated { key: String, value: String },
    Deleted { key: String },
}

/// A change to the environment variables of `soma.yaml`.
#[derive(Debug, PartialEq, Eq)]
pub enum EnvVarYamlOp {
    Add { key: String, value: String },
    Update { key: String, value: String },
    Remove { key: String },
}

/// The change to `soma.yaml` for an environment variable event: each event is
/// written as it comes.
pub fn env_var_yaml_op(event: EnvVarEvent) -> (r: EnvVarYamlOp)
    ensures
        match event {
            EnvVarEvent::Created { key, value } => r == (EnvVarYamlOp::Add { key, value }),
            EnvVarEvent::Updated { key, value } => r == (EnvVarYamlOp::Update { key, value }),
            EnvVarEvent::Deleted { key } => r == (EnvVarYamlOp::Remove { key }),
        },
{
    match event {
        EnvVarEvent::Created { key, value } => EnvVarYamlOp::Add { key, value },
        EnvVarEvent::Updated { key, value } => EnvVarYamlOp::Update { key, value },
        EnvVarEvent::Deleted { key } => EnvVarYamlOp::Remove { key },
    }
}

/// Every MCP event is written as the change of its own kind, carrying each of
/// the event's fields into the field of the same name (a provider, a server's
/// functions and a server function whole).
pub proof fn law_mcp_op_carries_each_field(event: McpEvent)
    ensures
        match event {
            McpEvent::ProviderInstanceAdded(p) => mcp_op_of(event) matches McpYamlOp::AddProvider(q)
                && q == p,
            McpEvent::ProviderInstanceUpdated(p) => mcp_op_of(event) matches McpYamlOp::UpdateProvider(q)
                && q == p,
            McpEvent::ProviderInstanceRemoved { provider_instance_id } => mcp_op_of(event) matches McpYamlOp::RemoveProvider {
                id,
            } && id == provider_instance_id,
            McpEvent::FunctionInstanceAdded {
                provider_controller_type_id: pc,
                function_controller_type_id: fc,
                provider_instance_id: pi,
            } => mcp_op_of(event) matches McpYamlOp::AddFunctionInstance {
                provider_controller_type_id,
                function_controller_type_id,
                provider_instance_id,
            } && provider_controller_type_id == pc && function_controller_type_id == fc
                && provider_instance_id == pi,
            McpEvent::FunctionInstanceRemoved {
                function_controller_type_id: fc,
                provider_controller_type_id: pc,
                provider_instance_id: pi,
            } => mcp_op_of(event) matches McpYamlOp::RemoveFunctionInstance {
                provider_controller_type_id,
                function_controller_type_id,
                provider_instance_id,
            } && provider_controller_type_id == pc && function_controller_type_id == fc
                && provider_instance_id == pi,
            McpEvent::McpServerAdded { id: i, name: n, functions: f } => mcp_op_of(event) matches McpYamlOp::AddMcpServer {
                id,
                name,
                functions,
            } && id == i && name == n && functions == f,
            McpEvent::McpServerUpdated { id: i, name: n, functions: f } => mcp_op_of(event) matches McpYamlOp::UpdateMcpServer {
                id,
                name,
                functions,
            } && id == i && name == n && functions == f,
            McpEvent::McpServerRemoved { id: i } => mcp_op_of(event) matches McpYamlOp::RemoveMcpServer { id }
                && id == i,
            McpEvent::McpServerFunctionAdded { mcp_server_instance_id: s, function: f } => mcp_op_of(event) matches McpYamlOp::AddMcpServerFunction {
                mcp_server_instance_id,
                function,
            } && mcp_server_instance_id == s && function == f,
            McpEvent::McpServerFunctionUpdated { mcp_server_instance_id: s, function: f } => mcp_op_of(event) matches McpYamlOp::UpdateMcpServerFunction {
                mcp_server_instance_id,
                function,
            } && mcp_server_instance_id == s && function == f,
            McpEvent::McpServerFunctionRemoved {
                mcp_server_instance_id: s,
                function_controller_type_id: fc,
                provider_controller_type_id: pc,
                provider_instance_id: pi,
            } => mcp_op_of(event) matches McpYamlOp::RemoveMcpServerFunction {
                mcp_server_instance_id,
                function_controller_type_id,
                provider_controller_type_id,
                provider_instance_id,
            } && mcp_server_instance_id == s && function_controller_type_id == fc
                && provider_controller_type_id == pc && provider_instance_id == pi,
        },
{
}

} // verus!
