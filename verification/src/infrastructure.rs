//! Adapters at the edge of the engine: reconstructing statement rows from the text of
//! PDF pages, and checking and unlocking password-protected PDFs.

pub mod auth;
pub mod pdf_decrypter;
pub mod pdf_document;
pub mod pdf_parser;
pub mod persistence;
