//! The comparison of three systems over one dataset: whose answers agree, and what
//! may be said of their timings.

pub mod agreement;
pub mod group_laws;
pub mod laws;
pub mod note_laws;
pub mod notes;
pub mod records;
pub mod remarks;
pub mod sections;
