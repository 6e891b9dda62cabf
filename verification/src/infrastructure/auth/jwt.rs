//! The JWT token service's configuration: the signing secret and the issuer name.

use vstd::prelude::*;

verus! {

/// Signs tokens with a shared secret, as `issuer`.
pub struct JwtServiceImpl {
    secret: String,
    issuer: String,
}

impl JwtServiceImpl {
    pub closed spec fn secret_spec(&self) -> Seq<char> {
        self.secret@
    }

    pub closed spec fn issuer_spec(&self) -> Seq<char> {
        self.issuer@
    }

    pub fn new(secret: String, issuer: String) -> (r: Self)
        ensures
            r.secret_spec() == secret@,
            r.issuer_spec() == issuer@,
    {
        JwtServiceImpl { secret, issuer }
    }

    /// The signing secret.
    pub fn secret(&self) -> (r: &str)
        ensures
            r@ == self.secret_spec(),
    {
        self.secret.as_str()
    }

    /// The issuer name written into and expected in tokens.
    pub fn issuer(&self) -> (r: &str)
        ensures
            r@ == self.issuer_spec(),
    {
        self.issuer.as_str()
    }
}

} // verus!
