//! Forwarding of requests to upstream resolvers.

pub mod config;
pub mod fanout;
pub mod laws;
pub mod outcome;
pub mod selection;
pub mod setup_laws;
pub mod upstream;
