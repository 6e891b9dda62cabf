//! The login request.

use vstd::prelude::*;

verus! {

/// The credentials a client signs in with.
#[derive(Debug, Clone)]
pub struct LoginRequest {
    pub email: String,
    pub password: String,
}

} // verus!
