//! Decision logic of a Linux kernel test runner.

pub mod cli;
pub mod com;
pub mod data;
pub mod dict;
pub mod errors;
pub mod events;
pub mod ltp;
pub mod ltx;
pub mod output;
pub mod pattern;
pub mod qemu;
pub mod results;
pub mod scheduler;
pub mod session;
pub mod shell;
pub mod ssh;
pub mod text;
pub mod textmap;
pub mod words;
