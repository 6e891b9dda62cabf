//! The HTTP interface's request shapes.

pub mod api;
