use vstd::prelude::*;
use std::collections::HashMap;
use crate::objects::labels::lookup;
use crate::objects::node::Node;
use crate::objects::pod::Pod;
use crate::scheduler::features::taints_tolerations::{
    tolerated, toleration_matches, Taint, TaintTolerationEffect, TaintTolerationOperator, Toleration,
};

verus! {

/// Every key of the pod's node selector is a label of the node, with the same
/// value.
pub open spec fn node_selector_holds(
    selector: Seq<(Seq<char>, Seq<char>)>,
    labels: Seq<(Seq<char>, Seq<char>)>,
) -> bool {
    forall|i: int|
        0 <= i < selector.len() ==> #[trigger] lookup(labels, selector[i].0) == Some(selector[i].1)
}

/// Every `NoSchedule` taint of the node is tolerated by the pod.
pub open spec fn no_schedule_taints_tolerated(tolerations: Seq<Toleration>, taints: Seq<Taint>) -> bool {
    forall|i: int|
        0 <= i < taints.len() && (#[trigger] taints[i]).effect == TaintTolerationEffect::NoSchedule
            ==> tolerated(taints[i], tolerations)
}

/// Accepts every node.
pub fn filter_always_true(
    _running_pods: &HashMap<u64, Pod>,
    _pending_pods: &HashMap<u64, Pod>,
    _nodes: &HashMap<u64, Node>,
    _pod: &Pod,
    _node: &Node,
) -> (r: bool)
    ensures
        r,
{
    true
}

/// Despite its name, accepts every node.
pub fn filter_always_false(
    _running_pods: &HashMap<u64, Pod>,
    _pending_pods: &HashMap<u64, Pod>,
    _nodes: &HashMap<u64, Node>,
    _pod: &Pod,
    _node: &Node,
) -> (r: bool)
    ensures
        r,
{
    true
}

/// Accepts a node whose labels carry every key and value of the pod's node
/// selector.
pub fn filter_node_selector(
    _running_pods: &HashMap<u64, Pod>,
    _pending_pods: &HashMap<u64, Pod>,
    _nodes: &HashMap<u64, Node>,
    pod: &Pod,
    node: &Node,
) -> (r: bool)
    ensures
        r == node_selector_holds(pod@.node_selector, node@.labels),
{
    let selector = &pod.spec.node_selector;
    let mut i: usize = 0;
    while i < selector.len()
        invariant
            i <= selector@.len(),
            selector@ == pod@.node_selector,
            forall|j: int| 0 <= j < i ==> #[trigger] lookup(node@.labels, selector@[j].0) == Some(selector@[j].1),
        decreases selector@.len() - i,
    {
        let (key, pod_value) = selector.entry(i);
        match node.metadata.labels.get(key) {
            None => {
                return false;
            },
            Some(node_value) => {
                if !(*pod_value == *node_value) {
                    return false;
                }
            },
        }
        i = i + 1;
    }
    true
}

/// Accepts a node that still has the resources the pod requests.
pub fn filter_requested_resources_available(
    _running_pods: &HashMap<u64, Pod>,
    _pending_pods: &HashMap<u64, Pod>,
    _nodes: &HashMap<u64, Node>,
    pod: &Pod,
    node: &Node,
) -> (r: bool)
    ensures
        r == (node@.available_cpu >= pod@.request_cpu && node@.available_memory >= pod@.request_memory),
{
    node.is_consumable(pod.spec.request_cpu, pod.spec.request_memory)
}

/// Accepts a node all of whose `NoSchedule` taints the pod tolerates.
pub fn filter_taints_tolerations(
    _running_pods: &HashMap<u64, Pod>,
    _pending_pods: &HashMap<u64, Pod>,
    _nodes: &HashMap<u64, Node>,
    pod: &Pod,
    node: &Node,
) -> (r: bool)
    ensures
        r == no_schedule_taints_tolerated(pod@.tolerations, node@.taints),
{
    let mut i: usize = 0;
    while i < node.spec.taints.len()
        invariant
            i <= node.spec.taints.len(),
            forall|j: int|
                0 <= j < i && (#[trigger] node@.taints[j]).effect == TaintTolerationEffect::NoSchedule
                    ==> tolerated(node@.taints[j], pod@.tolerations),
        decreases node.spec.taints.len() - i,
    {
        let taint = &node.spec.taints[i];
        if taint.effect == TaintTolerationEffect::NoSchedule {
            if !taint.is_tolerated_by(&pod.spec.tolerations) {
                return false;
            }
        }
        i = i + 1;
    }
    true
}

/// The taint filter rejects a node with a `NoSchedule` taint when every
/// toleration of the pod compares values (`Equal`) and none has the taint's
/// value: a pod tolerating `dedicated=cpu` does not go where `dedicated=gpu`
/// is not tolerated.
pub proof fn lemma_taint_filter_rejects_other_values(tols: Seq<Toleration>, taints: Seq<Taint>, k: int)
    requires
        0 <= k < taints.len(),
        taints[k].effect == TaintTolerationEffect::NoSchedule,
        forall|i: int|
            0 <= i < tols.len() ==> (#[trigger] tols[i]).operator == TaintTolerationOperator::Equal && tols[i].value@
                != taints[k].value@,
    ensures
        !no_schedule_taints_tolerated(tols, taints),
{
    assert(!tolerated(taints[k], tols)) by {
        if tolerated(taints[k], tols) {
            let i = choose|i: int| 0 <= i < tols.len() && #[trigger] toleration_matches(taints[k], tols[i]);
            assert(tols[i].operator == TaintTolerationOperator::Equal);
        }
    }
}

/// The taint filter accepts a node only if each of its `NoSchedule` taints
/// is tolerated by some toleration of the pod: one with an empty key and
/// `Exists`, or one with the taint's key and effect and, under `Equal`, its
/// value.
pub proof fn lemma_taint_filter_accepts_only_tolerated(tols: Seq<Toleration>, taints: Seq<Taint>, k: int)
    requires
        no_schedule_taints_tolerated(tols, taints),
        0 <= k < taints.len(),
        taints[k].effect == TaintTolerationEffect::NoSchedule,
    ensures
        exists|i: int|
            0 <= i < tols.len() && ((tols[i].key@.len() == 0 && tols[i].operator == TaintTolerationOperator::Exists) || (
            (#[trigger] tols[i]).key@ == taints[k].key@ && tols[i].effect == TaintTolerationEffect::NoSchedule && (
            tols[i].operator == TaintTolerationOperator::Exists || tols[i].value@ == taints[k].value@))),
{
    assert(tolerated(taints[k], tols));
    let i = choose|i: int| 0 <= i < tols.len() && #[trigger] toleration_matches(taints[k], tols[i]);
    assert(tols[i] == tols[i]);
}

} // verus!
