//! The genesis block.

pub mod roundtrip;
pub mod yaml;
