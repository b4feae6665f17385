//! The binding between a unified-service request and its response.

use vstd::prelude::*;

verus! {

/// A request of one of Steam's unified services: the message it is answered with, and the
/// `Service.Method` name it is sent to.
pub trait Rpc {
    /// The message the service answers with.
    type Response;

    /// The `Service.Method` name the request is addressed to.
    const TARGET: &'static str;
}

} // verus!
