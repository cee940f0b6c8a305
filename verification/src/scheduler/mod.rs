//! Schedulers: what tests and suites run when, and what becomes of their
//! results.

pub mod drive;
pub mod suite_sched;
pub mod test_sched;
