//! The task routes' runtime configuration.
use vstd::prelude::*;
use crate::error::SomaError;

verus! {

/// The runtime configuration served by the task routes (it has no settings yet).
#[derive(Debug)]
pub struct RuntimeConfig {}

/// The runtime configuration of the task routes.
pub fn runtime_config() -> (r: Result<RuntimeConfig, SomaError>)
    ensures
        r is Ok,
{
    Ok(RuntimeConfig {  })
}

} // verus!
