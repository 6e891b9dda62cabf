//! Token signing configuration.

pub mod jwt;
