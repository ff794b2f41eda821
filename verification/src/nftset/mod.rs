//! Writing the addresses of responses into nftables sets.

pub mod config;
pub mod executor;
pub mod laws;
pub mod setup_laws;
pub mod writer;
