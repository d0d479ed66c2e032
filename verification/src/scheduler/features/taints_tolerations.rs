use vstd::prelude::*;

verus! {

/// Effect of a taint, and of the taints a toleration tolerates.
#[derive(Debug, Clone, Copy, PartialEq, Eq, Structural)]
pub enum TaintTolerationEffect {
    NoSchedule,
    PreferNoSchedule,
}

impl Default for TaintTolerationEffect {
    fn default() -> (r: Self)
        ensures
            r == TaintTolerationEffect::NoSchedule,
    {
        TaintTolerationEffect::NoSchedule
    }
}

/// How a toleration compares its value with a taint's value.
#[derive(Debug, Clone, Copy, PartialEq, Eq, Structural)]
pub enum TaintTolerationOperator {
    Equal,
    Exists,
}

impl Default for TaintTolerationOperator {
    fn default() -> (r: Self)
        ensures
            r == TaintTolerationOperator::Equal,
    {
        TaintTolerationOperator::Equal
    }
}

/// A taint placed on a node.
#[derive(Debug)]
pub struct Taint {
    pub key: String,
    pub value: String,
    pub effect: TaintTolerationEffect,
}

/// A toleration carried by a pod.
#[derive(Debug)]
pub struct Toleration {
    pub key: String,
    pub value: String,
    pub operator: TaintTolerationOperator,
    pub effect: TaintTolerationEffect,
}

impl Clone for Taint {
    fn clone(&self) -> (r: Self)
        ensures
            r == *self,
    {
        Taint { key: self.key.clone(), value: self.value.clone(), effect: self.effect }
    }
}

impl Clone for Toleration {
    fn clone(&self) -> (r: Self)
        ensures
            r == *self,
    {
        Toleration {
            key: self.key.clone(),
            value: self.value.clone(),
            operator: self.operator,
            effect: self.effect,
        }
    }
}

/// A toleration matches a taint when it has an empty key and the `Exists`
/// operator (it then tolerates everything), or when keys and effects are
/// equal and either the operator is `Exists` or the values are equal.
pub open spec fn toleration_matches(taint: Taint, tol: Toleration) -> bool {
    ||| (tol.key@.len() == 0 && tol.operator == TaintTolerationOperator::Exists)
    ||| {
        &&& taint.key@ == tol.key@
        &&& taint.effect == tol.effect
        &&& (tol.operator == TaintTolerationOperator::Exists || taint.value@ == tol.value@)
    }
}

/// Some toleration of the sequence matches the taint.
pub open spec fn tolerated(taint: Taint, tols: Seq<Toleration>) -> bool {
    exists|i: int| 0 <= i < tols.len() && #[trigger] toleration_matches(taint, tols[i])
}

impl Taint {
    pub fn matches(&self, tol: &Toleration) -> (r: bool)
        ensures
            r == toleration_matches(*self, *tol),
    {
        if tol.key.as_str().is_empty() && tol.operator == TaintTolerationOperator::Exists {
            return true;
        }
        if !(self.key == tol.key) || self.effect != tol.effect {
            return false;
        }
        tol.operator == TaintTolerationOperator::Exists || self.value == tol.value
    }

    /// Whether any of the tolerations matches this taint.
    pub fn is_tolerated_by(&self, tols: &Vec<Toleration>) -> (r: bool)
        ensures
            r == tolerated(*self, tols@),
    {
        let mut i: usize = 0;
        while i < tols.len()
            invariant
                i <= tols.len(),
                forall|j: int| 0 <= j < i ==> !toleration_matches(*self, #[trigger] tols@[j]),
            decreases tols.len() - i,
        {
            if self.matches(&tols[i]) {
                return true;
            }
            i = i + 1;
        }
        false
    }
}

/// Copies a vector of tolerations element by element.
pub fn clone_tolerations(v: &Vec<Toleration>) -> (r: Vec<Toleration>)
    ensures
        r@ == v@,
{
    let r = v.clone();
    assert(r@ =~= v@);
    r
}

/// What a toleration needs to match a taint, by its operator: under
/// `Equal` the taint's key, effect and value; under `Exists` with a key the
/// taint's key and effect, whatever the value; under `Exists` with an empty
/// key nothing (it tolerates every taint). A toleration whose non-empty key
/// is not the taint's never matches it.
pub proof fn lemma_toleration_match_by_operator(taint: Taint, tol: Toleration)
    ensures
        tol.operator == TaintTolerationOperator::Equal ==> (toleration_matches(taint, tol) <==> (taint.key@ == tol.key@
            && taint.effect == tol.effect && taint.value@ == tol.value@)),
        tol.operator == TaintTolerationOperator::Exists && tol.key@.len() > 0 ==> (toleration_matches(taint, tol) <==> (
        taint.key@ == tol.key@ && taint.effect == tol.effect)),
        tol.operator == TaintTolerationOperator::Exists && tol.key@.len() == 0 ==> toleration_matches(taint, tol),
        tol.key@.len() > 0 && taint.key@ != tol.key@ ==> !toleration_matches(taint, tol),
        tol.operator == TaintTolerationOperator::Equal && taint.value@ != tol.value@ ==> !toleration_matches(taint, tol),
{
}

} // verus!
