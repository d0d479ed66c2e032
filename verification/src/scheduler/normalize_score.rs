use vstd::prelude::*;
use std::collections::HashMap;
use crate::objects::node::Node;
use crate::objects::pod::Pod;

verus! {

/// Leaves the scores as they are.
pub fn skip(
    _running_pods: &HashMap<u64, Pod>,
    _pending_pods: &HashMap<u64, Pod>,
    _nodes: &HashMap<u64, Node>,
    _pod: &Pod,
    _score_nodes: &Vec<Node>,
    scores: &mut Vec<i64>,
)
    ensures
        final(scores)@ == old(scores)@,
{
}

/// Negates every score. The score `i64::MIN`, which has no negation, is
/// not accepted.
pub fn neg(
    _running_pods: &HashMap<u64, Pod>,
    _pending_pods: &HashMap<u64, Pod>,
    _nodes: &HashMap<u64, Node>,
    _pod: &Pod,
    _score_nodes: &Vec<Node>,
    scores: &mut Vec<i64>,
)
    requires
        forall|i: int| 0 <= i < old(scores)@.len() ==> old(scores)@[i] != i64::MIN,
    ensures
        final(scores)@.len() == old(scores)@.len(),
        forall|i: int| 0 <= i < old(scores)@.len() ==> final(scores)@[i] == -old(scores)@[i],
{
    let mut i: usize = 0;
    while i < scores.len()
        invariant
            i <= scores.len(),
            scores@.len() == old(scores)@.len(),
            forall|j: int| 0 <= j < old(scores)@.len() ==> old(scores)@[j] != i64::MIN,
            forall|j: int| 0 <= j < i ==> scores@[j] == -old(scores)@[j],
            forall|j: int| i <= j < scores@.len() ==> scores@[j] == old(scores)@[j],
        decreases scores.len() - i,
    {
        let v = scores[i];
        scores.set(i, -v);
        i = i + 1;
    }
}

} // verus!
