//! Use cases that combine the domain services: the AI fallback for transactions the
//! rules cannot classify, and statement ingestion.

pub mod ai_fallback;
pub mod auth;
pub mod ingestion;
