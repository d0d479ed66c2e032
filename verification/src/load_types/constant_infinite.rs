use vstd::prelude::*;

verus! {

/// A load that uses a fixed amount of CPU and memory and never ends. Its
/// timing, a real number, is computed by the simulation around the library.
#[derive(Debug, Clone, Copy, Default, PartialEq, Eq, Structural)]
pub struct ConstantInfinite {
    pub cpu: i64,
    pub memory: i64,
}

} // verus!
