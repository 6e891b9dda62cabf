//! The login use case's decisions: a password that does not verify is refused, and a
//! signed-in user receives an access and a refresh token.

use vstd::prelude::*;
use crate::domain::ports::{PasswordError, TokenError};

verus! {

/// Why a login fails.
#[derive(Debug, Clone, Copy, PartialEq, Eq, Structural)]
pub enum LoginError {
    InvalidCredentials,
    TokenGenertionFailed,
}

/// The login use case over a user store and a token service.
pub struct LoginAndSignup<U, T> {
    user_repo: U,
    token: T,
}

impl<U, T> LoginAndSignup<U, T> {
    pub closed spec fn repo_spec(&self) -> U {
        self.user_repo
    }

    pub closed spec fn token_spec(&self) -> T {
        self.token
    }

    pub fn new(user_repo: U, token: T) -> (r: Self)
        ensures
            r.repo_spec() == user_repo,
            r.token_spec() == token,
    {
        LoginAndSignup { user_repo, token }
    }

    /// The user store.
    pub fn user_repo(&self) -> (r: &U)
        ensures
            *r == self.repo_spec(),
    {
        &self.user_repo
    }

    /// The token service.
    pub fn token(&self) -> (r: &T)
        ensures
            *r == self.token_spec(),
    {
        &self.token
    }
}

/// Only a password that verifies lets the user in; a failed check counts as wrong
/// credentials.
pub fn check_password(verified: Result<bool, PasswordError>) -> (r: Result<(), LoginError>)
    ensures
        r is Ok <==> verified == Ok::<bool, PasswordError>(true),
        r is Err ==> r == Err::<(), LoginError>(LoginError::InvalidCredentials),
{
    match verified {
        Ok(true) => Ok(()),
        _ => Err(LoginError::InvalidCredentials),
    }
}

/// The access and refresh tokens of a signed-in user; either failing is a token failure.
pub fn token_pair(access: Result<String, TokenError>, refresh: Result<String, TokenError>) -> (r: Result<(String, String), LoginError>)
    ensures
        match (access, refresh) {
            (Ok(a), Ok(f)) => r == Ok::<(String, String), LoginError>((a, f)),
            _ => r == Err::<(String, String), LoginError>(LoginError::TokenGenertionFailed),
        },
{
    match (access, refresh) {
        (Ok(a), Ok(f)) => Ok((a, f)),
        _ => Err(LoginError::TokenGenertionFailed),
    }
}

} // verus!
