use vstd::prelude::*;

verus! {

/// Effect of a taint as written in a node's taint map, where `Empty` stands
/// for a taint without effect.
#[derive(Debug, Clone, Copy, PartialEq, Eq, Structural)]
pub enum TaintTolerationEffect {
    Empty,
    NoSchedule,
    PreferNoSchedule,
}

/// How a toleration written against a taint map compares values.
#[derive(Debug, Clone, Copy, PartialEq, Eq, Structural)]
pub enum TaintTolerationOperator {
    Equal,
    Exists,
}

/// The value and effect of a taint, kept under its key in a node's taint map.
#[derive(Debug, Clone)]
pub struct TaintValue {
    pub value: String,
    pub effect: TaintTolerationEffect,
}

/// The value, operator and effect of a toleration, kept under its key.
#[derive(Debug, Clone)]
pub struct TolerationValue {
    pub value: String,
    pub operator: TaintTolerationOperator,
    pub effect: TaintTolerationEffect,
}

} // verus!
