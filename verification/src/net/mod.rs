pub mod channel;
pub mod dns;
pub mod table;

use vstd::prelude::*;

verus! {

/// The ways a networking operation of this library can fail.
#[derive(Clone, Debug, PartialEq, Eq)]
pub enum Error {
    /// The other end of a channel has gone away.
    ConnectionBroken,
    /// A name lookup could not be queued or polled.
    LookupError(String),
    /// Nothing could be received.
    RecvError(String),
}

} // verus!
