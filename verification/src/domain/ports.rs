//! The token port and the errors shared by the user, token and password ports.

use vstd::prelude::*;
use crate::domain::entities::{AccessTokenPayload, RefreshTokenPayload, User};

verus! {

/// Issues and checks the access and refresh tokens that identify a user.
pub trait TokenService {
    fn generate_access_token(&self, user: &User) -> Result<String, TokenError>;

    fn generate_refresh_token(&self, user: &User) -> Result<String, TokenError>;

    fn validate_access_token(&self, token: &str) -> Result<AccessTokenPayload, TokenError>;

    fn validate_refresh_token(&self, token: &str) -> Result<RefreshTokenPayload, TokenError>;
}

/// Database failures seen by the user and tax-state repositories.
#[derive(Debug, Clone, PartialEq, Eq)]
pub enum DbError {
    ConnectionError(String),
    NotFound,
    QueryError(String),
    Conflict(String),
}

/// Token generation and validation failures.
#[derive(Debug, Clone, PartialEq, Eq)]
pub enum TokenError {
    InvalidToken,
    Expired,
    GenerationError(String),
}

/// Password verification and hashing failures.
#[derive(Debug, Clone, PartialEq, Eq)]
pub enum PasswordError {
    VerificationFailed,
    HashingFailed(String),
}

} // verus!
