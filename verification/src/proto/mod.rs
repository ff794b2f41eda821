//! The part of the DNS protocol that the plugins read and write.

pub mod ecs_bits;
pub mod laws;
pub mod message;
pub mod name;
pub mod response;
pub mod wire;
pub mod wire_laws;
