//! The response cache.

pub mod answer_laws;
pub mod api;
pub mod api_laws;
pub mod config;
pub mod config_laws;
pub mod dump_wire;
pub mod ecs_index;
pub mod entry_id;
pub mod entry_text;
pub mod executor;
pub mod flights;
pub mod item;
pub mod key;
pub mod key_laws;
pub mod laws;
pub mod listing;
pub mod listing_laws;
pub mod metrics;
pub mod mutation;
pub mod persistence;
pub mod policy;
pub mod query;
pub mod restore;
pub mod running_laws;
pub mod store;
pub mod ttl_laws;
