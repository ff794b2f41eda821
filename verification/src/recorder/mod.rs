//! The history of queries in a database.

pub mod filter;
pub mod laws;
pub mod names;
pub mod rows;
pub mod space;
pub mod sql;
pub mod stats;
pub mod stats_laws;
pub mod template;
pub mod writer;
