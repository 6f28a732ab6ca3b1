//! The decision core of the service that the surrounding process
//! exposes over the network: a liveness probe needing no store access.

use vstd::prelude::*;

use crate::env::Environment;
use crate::value::StoreError;

verus! {

/// The storage service as seen by the wire layer. It holds no state of
/// its own; the probe only answers for the environment's reachability.
pub struct GrpcRearwardService;

impl Default for GrpcRearwardService {
    fn default() -> (r: Self)
        ensures
            r == (GrpcRearwardService {  }),
    {
        GrpcRearwardService {}
    }
}

impl GrpcRearwardService {
    /// The liveness probe: an empty success acknowledgment exactly when
    /// the environment is reachable, a location failure otherwise.
    pub fn healthcheck(&self, env: Option<&Environment>) -> (r: Result<(), StoreError>)
        ensures
            r is Ok <==> env is Some,
            r matches Err(e) ==> e == StoreError::Location,
    {
        match env {
            Some(_) => Ok(()),
            None => Err(StoreError::Location),
        }
    }
}

} // verus!
