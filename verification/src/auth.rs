//! Public-key authentication of clients.

use vstd::prelude::*;

verus! {

/// What is put before the signed endpoint id, so that a signature made for another purpose with
/// the same key is never taken for a client's credential.
pub const AUTH_CONTEXT: &'static str = "flextunnel-client-auth-v1";

} // verus!
