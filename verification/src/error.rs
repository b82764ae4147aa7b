//! What can go wrong in the forwarder.
use vstd::prelude::*;

verus! {

/// `crossbeam_channel::RecvError`: the channel of a listener is closed.
#[verifier::external_type_specification]
#[verifier::external_body]
pub struct ExRecvError(crossbeam_channel::RecvError);

/// `serde_json::Error`: an answer of the discovery service could not be parsed.
#[verifier::external_type_specification]
#[verifier::external_body]
pub struct ExJsonError(serde_json::Error);

#[derive(Debug)]
pub enum ShredstreamProxyError {
    RecvError(crossbeam_channel::RecvError),
    SerdeJsonError(serde_json::Error),
}

} // verus!
