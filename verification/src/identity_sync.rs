//! Keeping the identity section of `soma.yaml` in step with identity events: API
//! keys, STS configurations and sign-in flows that are created or deleted.
use vstd::prelude::*;
use crate::sync::{contains_text, texts};

verus! {

/// An identity configuration event.
pub enum IdentityEvent {
    ApiKeyCreated { id: String },
    ApiKeyDeleted { id: String },
    /// A new STS configuration; development-mode ones are not kept in the file.
    StsConfigCreated { id: String, dev_mode: bool },
    StsConfigDeleted { id: String },
    UserAuthFlowCreated { id: String },
    UserAuthFlowDeleted { id: String },
}

/// The ids that the identity section of `soma.yaml` holds, per list (`None`
/// when the list, or the whole section, is absent).
pub struct IdentityYamlIds {
    pub api_keys: Option<Vec<String>>,
    pub sts_configurations: Option<Vec<String>>,
    pub user_auth_flows: Option<Vec<String>>,
}

/// A change to the identity section of `soma.yaml`.
#[derive(Debug, PartialEq, Eq)]
pub enum IdentityYamlOp {
    AddApiKey { id: String },
    RemoveApiKey { id: String },
    AddStsConfig { id: String },
    RemoveStsConfig { id: String },
    AddUserAuthFlow { id: String },
    RemoveUserAuthFlow { id: String },
}

/// Whether a list of the file holds `id`.
pub open spec fn listed(ids: Option<Vec<String>>, id: Seq<char>) -> bool {
    match ids {
        Some(v) => texts(v@).contains(id),
        None => false,
    }
}

pub(crate) fn is_listed(ids: &Option<Vec<String>>, id: &String) -> (r: bool)
    ensures
        r == listed(*ids, id@),
{
    match ids {
        Some(v) => contains_text(v, id.as_str()),
        None => false,
    }
}

/// The change for an event: deletions are written; creations are written only
/// when the file does not hold the id yet (its stored value, encrypted, is kept),
/// and development-mode STS configurations are never written.
pub fn identity_yaml_op(yaml: &IdentityYamlIds, event: &IdentityEvent) -> (r: Option<IdentityYamlOp>)
    ensures
        match *event {
            IdentityEvent::ApiKeyCreated { id } => if listed(yaml.api_keys, id@) {
                r is None
            } else {
                r matches Some(IdentityYamlOp::AddApiKey { id: x }) && x@ == id@
            },
            IdentityEvent::ApiKeyDeleted { id } => r matches Some(IdentityYamlOp::RemoveApiKey { id: x })
                && x@ == id@,
            IdentityEvent::StsConfigCreated { id, dev_mode } => if dev_mode || listed(
                yaml.sts_configurations,
                id@,
            ) {
                r is None
            } else {
                r matches Some(IdentityYamlOp::AddStsConfig { id: x }) && x@ == id@
            },
            IdentityEvent::StsConfigDeleted { id } => r matches Some(
                IdentityYamlOp::RemoveStsConfig { id: x },
            ) && x@ == id@,
            IdentityEvent::UserAuthFlowCreated { id } => if listed(yaml.user_auth_flows, id@) {
                r is None
            } else {
                r matches Some(IdentityYamlOp::AddUserAuthFlow { id: x }) && x@ == id@
            },
            IdentityEvent::UserAuthFlowDeleted { id } => r matches Some(
                IdentityYamlOp::RemoveUserAuthFlow { id: x },
            ) && x@ == id@,
        },
{
    match event {
        IdentityEvent::ApiKeyCreated { id } => {
            if is_listed(&yaml.api_keys, id) {
                None
            } else {
                Some(IdentityYamlOp::AddApiKey { id: id.clone() })
            }
        },
        IdentityEvent::ApiKeyDeleted { id } => Some(IdentityYamlOp::RemoveApiKey { id: id.clone() }),
        IdentityEvent::StsConfigCreated { id, dev_mode } => {
            if *dev_mode || is_listed(&yaml.sts_configurations, id) {
                None
            } else {
                Some(IdentityYamlOp::AddStsConfig { id: id.clone() })
            }
        },
        IdentityEvent::StsConfigDeleted { id } => Some(IdentityYamlOp::RemoveStsConfig { id: id.clone() }),
        IdentityEvent::UserAuthFlowCreated { id } => {
            if is_listed(&yaml.user_auth_flows, id) {
                None
            } else {
                Some(IdentityYamlOp::AddUserAuthFlow { id: id.clone() })
            }
        },
        IdentityEvent::UserAuthFlowDeleted { id } => Some(
            IdentityYamlOp::RemoveUserAuthFlow { id: id.clone() },
        ),
    }
}

} // verus!
