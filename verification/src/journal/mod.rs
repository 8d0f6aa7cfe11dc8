//! The write-ahead log: how records are framed, written, replayed and dropped.

pub mod compaction;
pub mod laws;
pub mod record;
pub mod replay;
pub mod row_laws;
pub mod writer;
