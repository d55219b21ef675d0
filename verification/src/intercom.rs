//! The messages between the services of the node.

use crate::blockcfg::Block;
use vstd::prelude::*;

verus! {

/// What the explorer is told.
#[derive(Clone, Debug, PartialEq, Eq)]
pub enum ExplorerMsg {
    /// A validated block has joined the chain.
    NewBlock(Block),
}

} // verus!
