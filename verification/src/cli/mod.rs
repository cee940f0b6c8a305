//! Command line: values of options, their validation, and what a session is
//! started with.

pub mod args;
pub mod startup;
pub mod validate;
