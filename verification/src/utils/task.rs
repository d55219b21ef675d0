//! What a service is handed.

use vstd::prelude::*;

verus! {

/// What a service is handed: a message, or the word that there will be no
/// more of them.
#[derive(Clone, Debug, PartialEq, Eq)]
pub enum Input<Msg> {
    /// The service has been asked to stop, or nobody is left to send to it.
    Shutdown,
    /// A message for the service.
    Input(Msg),
}

} // verus!
