//! The HTTP layer: protocol types, the query and request parsers, and the
//! response builder.

pub mod grammar;
pub mod query;
pub mod types;
pub mod write;
pub mod response;
pub mod request;
