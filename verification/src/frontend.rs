//! The web frontend's service and the runtime configuration it serves.
use vstd::prelude::*;
use crate::error::SomaError;

verus! {

/// The runtime configuration served to the frontend (it has no settings yet).
#[derive(Debug)]
pub struct RuntimeConfig {}

/// The service behind the frontend routes.
pub struct FrontendService {}

impl FrontendService {
    pub fn new() -> (r: Self) {
        FrontendService {  }
    }
}

/// The runtime configuration of the frontend.
pub fn runtime_config() -> (r: Result<RuntimeConfig, SomaError>)
    ensures
        r is Ok,
{
    Ok(RuntimeConfig {  })
}

} // verus!
