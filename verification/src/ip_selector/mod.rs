//! Choosing among addresses by how fast they answer.

pub mod laws;
pub mod probe;
pub mod runtime;
pub mod score;
