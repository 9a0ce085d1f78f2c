//! Generating and parsing Howick FRAMA machine CSV files for light gauge
//! steel framing.
pub mod csv;
pub mod error;
pub mod literal;
pub mod text;
pub mod types;
