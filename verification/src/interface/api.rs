//! Request bodies of the API.

pub mod login;
pub mod upload;
