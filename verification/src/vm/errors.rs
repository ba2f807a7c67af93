use vstd::prelude::*;

verus! {

/// The ways an interpreter operation of this library can fail.
#[derive(Clone, Copy, Debug, PartialEq, Eq, Structural)]
pub enum Error {
    /// A context would be nested deeper than the interpreter allows.
    MaxContextDepthReached,
}

} // verus!
