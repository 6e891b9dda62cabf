//! Errors of the lexicon store.

use vstd::prelude::*;

verus! {

/// Lexicon loading can fail for data, query, or connection reasons.
#[derive(Debug, Clone, PartialEq, Eq)]
pub enum DbError {
    ConnectionError(String),
    NotFound,
    QueryError(String),
    Conflict(String),
}

pub open spec fn db_error_message(e: DbError) -> Seq<char> {
    match e {
        DbError::ConnectionError(s) => "connection error: "@ + s@,
        DbError::NotFound => "not found"@,
        DbError::QueryError(s) => "query error: "@ + s@,
        DbError::Conflict(s) => "conflict: "@ + s@,
    }
}

impl DbError {
    /// The error's message.
    pub fn message(&self) -> (r: String)
        ensures
            r@ == db_error_message(*self),
    {
        match self {
            DbError::ConnectionError(s) => {
                let mut m = String::from_str("connection error: ");
                m.append(s.as_str());
                m
            },
            DbError::NotFound => String::from_str("not found"),
            DbError::QueryError(s) => {
                let mut m = String::from_str("query error: ");
                m.append(s.as_str());
                m
            },
            DbError::Conflict(s) => {
                let mut m = String::from_str("conflict: ");
                m.append(s.as_str());
                m
            },
        }
    }
}

} // verus!
