//! The protocol of the Frama-C server.

pub mod client;
pub mod codec;
