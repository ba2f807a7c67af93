use vstd::prelude::*;

verus! {

/// The name under which a user-defined function is tracked on the call stack.
#[derive(Clone, Debug, PartialEq, Eq, Hash)]
pub struct FunctionIdentifier {
    pub identifier: String,
}

} // verus!
