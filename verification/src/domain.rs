//! The tax domain: entities, error types and the deterministic services.

pub mod entities;
pub mod lexicon;
pub mod ports;
pub mod services;
