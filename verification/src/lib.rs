//! The verified core of a proof-of-stake node: the explorer that indexes
//! every block of every branch of the chain, the description of a chain
//! that its genesis block is made from, and the scrambling of a paper
//! wallet.
//!
//! Every function here is proved against its contract. What the library
//! takes from other crates it takes through a few wrappers whose contracts
//! are stated and not proved: each says so where it stands.

pub mod address;
pub mod blockcfg;
pub mod explorer;
pub mod hamt;
pub mod intercom;
pub mod jcli_app;
pub mod key;
pub mod multiverse;
pub mod paperwallet;
pub mod rest;
pub mod utils;
