//! What the server decides about proposals, receipts and processes.

pub mod proc;
pub mod propose;
pub mod receipt;
pub mod status;
