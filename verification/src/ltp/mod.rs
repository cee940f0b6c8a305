//! Linux Test Project framework: parsing of its files and output, and the
//! framework itself.

pub mod framework;
pub mod parse;
