//! Saving the cache to octets and loading it again.

pub mod collect;
pub mod decode;
pub mod dump;
pub mod error;
pub mod laws;
pub mod load;
pub mod load_laws;
