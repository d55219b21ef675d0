//! The rules behind the command line toolkit.

pub mod block;
pub mod transaction;
