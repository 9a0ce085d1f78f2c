//! The Howick CSV format: reading it and writing it.
pub mod parser;
pub mod serializer;
pub mod laws;

pub use parser::parse;
pub use serializer::serialize;
