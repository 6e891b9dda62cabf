//! Signing users in.

pub mod login_and_signup;
