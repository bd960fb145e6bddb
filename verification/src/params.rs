//! The options of the command-line subcommands, as plain values. The argument
//! parser fills them; the commands read them.
use vstd::prelude::*;

verus! {

/// Options of `soma api-key`.
#[derive(Debug, Clone)]
pub struct ApiKeyParams {
    pub command: ApiKeyCommands,
    pub api_url: String,
    pub timeout_secs: u64,
}

/// Subcommands of `soma api-key`.
#[derive(Debug, Clone)]
pub enum ApiKeyCommands {
    /// Create a new API key.
    Add { id: String, role: String, description: Option<String> },
    /// Delete an API key.
    Remove { id: String },
    /// List all API keys.
    List,
}

/// Options of `soma auth`.
#[derive(Debug, Clone)]
pub struct AuthParams {
    pub command: AuthCommands,
    pub api_url: String,
    pub timeout_secs: u64,
}

/// Subcommands of `soma auth`.
#[derive(Debug, Clone)]
pub enum AuthCommands {
    /// Add a new user authentication flow configuration.
    Add { add_command: AuthAddCommands },
    /// Remove a user authentication flow configuration.
    Remove { id: String },
    /// List all user authentication flow configurations.
    List,
}

/// Kinds of authentication flow that `soma auth add` creates.
#[derive(Debug, Clone)]
pub enum AuthAddCommands {
    /// An OAuth authorization code flow.
    Oauth { id: String, pkce: bool },
    /// An OIDC authorization code flow.
    Oidc { id: String, pkce: bool },
}

/// Options of `soma bridge init`.
#[derive(Debug, Clone)]
pub struct BridgeInitParams {
    pub src_dir: Option<String>,
    pub envelope_encryption_key: String,
}

/// Options of `soma codegen`.
#[derive(Debug, Clone)]
pub struct CodegenParams {
    pub api_url: String,
    pub timeout_secs: u64,
}

/// Options of `soma enc-key`.
#[derive(Debug, Clone)]
pub struct EncKeyParams {
    pub command: EncKeyCommands,
    pub api_url: String,
    pub timeout_secs: u64,
}

/// Subcommands of `soma enc-key`.
#[derive(Debug, Clone)]
pub enum EncKeyCommands {
    /// Add an encryption key.
    Add { key_type: AddKeyType },
    /// Remove an encryption key.
    Rm { key_type: RmKeyType },
    /// Migrate all data encryption keys from one envelope key to another.
    Migrate { from: String, to: String },
}

/// Envelope keys that can be added.
#[derive(Debug, Clone)]
pub enum AddKeyType {
    /// An AWS KMS key.
    Aws { arn: String, region: String },
    /// A local key file.
    Local { location: String },
}

/// Envelope keys that can be removed.
#[derive(Debug, Clone)]
pub enum RmKeyType {
    /// An AWS KMS key, by ARN.
    Aws { arn: String },
    /// A local key file, by location.
    Local { location: String },
}

/// Options of `soma env`.
#[derive(Debug, Clone)]
pub struct EnvironmentParams {
    pub command: EnvironmentCommands,
    pub api_url: String,
    pub timeout_secs: u64,
}

/// Subcommands of `soma env`.
#[derive(Debug, Clone)]
pub enum EnvironmentCommands {
    /// Set an environment variable (creates or updates).
    SetValue { key: String, value: String },
    /// Remove an environment variable.
    Remove { key: String },
    /// List all environment variables.
    List,
}

/// Options of `soma init`.
#[derive(Debug, Clone)]
pub struct InitParams {
    /// The template name, e.g. `js-agent`.
    pub template: String,
    /// The directory to create and fill, relative to the current directory.
    pub directory: String,
}

/// Internal maintenance subcommands.
#[derive(Debug, Clone)]
pub enum InternalCommands {
    /// Generate the OpenAPI spec and TypeScript client of the internal API.
    Codegen,
}

/// Options of `soma secret`.
#[derive(Debug, Clone)]
pub struct SecretParams {
    pub command: SecretCommands,
    pub api_url: String,
    pub timeout_secs: u64,
}

/// Subcommands of `soma secret`.
#[derive(Debug, Clone)]
pub enum SecretCommands {
    /// Set a secret (creates or updates).
    SetValue { key: String, value: String },
    /// Remove a secret.
    Remove { key: String },
    /// List all secrets.
    List,
}

/// Options of `soma sts`.
#[derive(Debug, Clone)]
pub struct StsParams {
    pub command: StsCommands,
    pub api_url: String,
    pub timeout_secs: u64,
}

/// Subcommands of `soma sts`.
#[derive(Debug, Clone)]
pub enum StsCommands {
    /// Add a new STS configuration.
    Add { add_command: StsAddCommands },
    /// Remove an STS configuration.
    Remove { id: String },
    /// List all STS configurations.
    List,
    /// Add a dev mode STS configuration (development only).
    AddDev { id: String },
}

/// Ways of adding an STS configuration.
#[derive(Debug, Clone)]
pub enum StsAddCommands {
    /// A JWT template configuration, through guided prompts.
    FromTemplate,
}

/// What the web server subsystem is started with: its routers, the project
/// directory and the address to listen on.
pub struct StartAxumSubsystemParams<R> {
    pub routers: R,
    pub project_dir: String,
    pub host: String,
    pub port: u16,
}

} // verus!
