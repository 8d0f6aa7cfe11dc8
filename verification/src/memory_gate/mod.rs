//! The memory gate: whether the server stays within a declared budget while it is
//! under load and after it. What counts is the anonymous memory that its cgroup
//! accounts for.

pub mod args;
pub mod argument_laws;
pub mod decision;
pub mod laws;
pub mod reading_laws;
pub mod readings;
