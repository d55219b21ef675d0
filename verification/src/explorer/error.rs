//! The failures of the explorer.

use crate::blockcfg::{FragmentId, HeaderHash};
use vstd::prelude::*;

verus! {

/// Why the explorer could not index a block or start up.
#[derive(Clone, Debug, PartialEq, Eq)]
pub enum Error {
    /// The parent of this block has not been indexed.
    AncestorNotFound(HeaderHash),
    /// This transaction is in an earlier block of the branch.
    TransactionAlreadyExists(FragmentId),
    /// This block is on the branch already.
    BlockAlreadyExists(HeaderHash),
    /// The branch has a block of this chain length already.
    ChainLengthBlockAlreadyExists(u32),
    /// The explorer could not be built from the stored chain.
    BootstrapError(String),
    /// An input of a validated block refers to an output that the branch
    /// does not hold.
    Internal,
}

/// What an `Error` says, with the text of a `BootstrapError` as a sequence
/// of characters.
pub enum ErrorView {
    AncestorNotFound(HeaderHash),
    TransactionAlreadyExists(FragmentId),
    BlockAlreadyExists(HeaderHash),
    ChainLengthBlockAlreadyExists(u32),
    BootstrapError(Seq<char>),
    Internal,
}

impl View for Error {
    type V = ErrorView;

    open spec fn view(&self) -> ErrorView {
        match *self {
            Error::AncestorNotFound(id) => ErrorView::AncestorNotFound(id),
            Error::TransactionAlreadyExists(id) => ErrorView::TransactionAlreadyExists(id),
            Error::BlockAlreadyExists(id) => ErrorView::BlockAlreadyExists(id),
            Error::ChainLengthBlockAlreadyExists(n) => ErrorView::ChainLengthBlockAlreadyExists(n),
            Error::BootstrapError(text) => ErrorView::BootstrapError(text@),
            Error::Internal => ErrorView::Internal,
        }
    }
}

/// The text of the failure to find the head of the stored chain.
pub open spec fn spec_no_head() -> Seq<char> {
    "Couldn't read the HEAD tag from storage"@
}

/// The text of the failure to walk the stored chain up to its head.
pub open spec fn spec_no_stream() -> Seq<char> {
    "Couldn't iterate from Block0 to HEAD"@
}

/// The text of the failure to find the settings in the genesis block.
pub open spec fn spec_no_initial() -> Seq<char> {
    "the Initial fragment to be present in the genesis block"@
}

} // verus!
