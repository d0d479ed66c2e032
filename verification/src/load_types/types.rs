use vstd::prelude::*;

verus! {

/// The load of a pod whose load was never set; running it is an error.
#[derive(Debug, Clone, Copy, Default, PartialEq, Eq, Structural)]
pub struct PanicStub;

} // verus!
