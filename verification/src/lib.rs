//! Tax engine for Nigerian bank statements: money arithmetic, transaction
//! categorisation, statement-line reconstruction and PIT/LLC tax computation.

pub mod application;
pub mod domain;
pub mod infrastructure;
pub mod interface;
pub mod money;
pub mod text;
