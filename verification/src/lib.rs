//! Verified core of a DNS resolver's executor plugins: the response cache, the
//! forwarders, the address prober, the nftables set writer and the query
//! recorder.

pub mod bytes;
pub mod cache;
pub mod error;
pub mod forward;
pub mod ip_selector;
pub mod nftset;
pub mod prefix_set;
pub mod proto;
pub mod rank_heap;
pub mod recorder;
pub mod text;
pub mod text_laws;
pub mod ttl_cache;
