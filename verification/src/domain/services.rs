//! Domain services: tax computation, transaction categorisation and the pure parts of
//! the AI classifier.

pub mod categorizer;
pub mod gemini_classifier;
pub mod statement_order;
pub mod tax_calculator;
