//! The decisions of an MCP server for Frama-C.

pub mod digest;
pub mod digits;
pub mod error;
pub mod frama_c;
pub mod json;
pub mod laws;
pub mod lists;
pub mod mcp;
pub mod order;
pub mod span;
pub mod text;
pub mod unambiguous;
