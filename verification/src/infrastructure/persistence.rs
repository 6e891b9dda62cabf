//! Storage-side logic: the lexicon table's rules as the categoriser reads them, and the
//! connection pool's statistics.

pub mod database;
pub mod lexicon_repo;
