//! The engine rules of a log store, stated as contracts and proved.

pub mod bloom;
pub mod bytes;
pub mod checks;
pub mod compare;
pub mod config;
pub mod config_laws;
pub mod corpus;
pub mod corpus_laws;
pub mod corpus_row_laws;
pub mod delete_laws;
pub mod delete_requests;
pub mod env;
pub mod flush;
pub mod form;
pub mod ingest;
pub mod ingest_laws;
pub mod journal;
pub mod json;
pub mod load;
pub mod log_ingest;
pub mod log_scan;
pub mod memory_gate;
pub mod model;
pub mod order;
pub mod push;
pub mod rng;
pub mod snappy;
pub mod tenant;
pub mod text;
pub mod text_laws;
pub mod time;
