//! What the operations of the library are for, stated over what goes in and
//! what comes out.

pub mod frames;
pub mod messages;
pub mod processes;
pub mod proposals;
pub mod receipts;
pub mod requests;
pub mod texts;
pub mod values;
