use vstd::prelude::*;
use std::collections::HashMap;
use crate::objects::node::Node;
use crate::objects::pod::Pod;
use crate::scheduler::features::node_affinity::{affinity_defined, count_holding, NodeAffinityType};
use crate::scheduler::features::taints_tolerations::{tolerated, Taint, TaintTolerationEffect, Toleration};

verus! {

/// Some taint with this effect is tolerated by none of the tolerations.
pub open spec fn untolerated_with(taints: Seq<Taint>, tols: Seq<Toleration>, effect: TaintTolerationEffect) -> bool {
    exists|i: int|
        0 <= i < taints.len() && (#[trigger] taints[i]).effect == effect && !tolerated(taints[i], tols)
}

/// -1 where a `NoSchedule` taint is not tolerated, else 0 where a
/// `PreferNoSchedule` taint is not tolerated, else 1.
pub open spec fn taint_score(taints: Seq<Taint>, tols: Seq<Toleration>) -> i64 {
    if untolerated_with(taints, tols, TaintTolerationEffect::NoSchedule) {
        -1i64
    } else if untolerated_with(taints, tols, TaintTolerationEffect::PreferNoSchedule) {
        0i64
    } else {
        1i64
    }
}

/// 1 for a node with no pods on it, else 0.
pub fn score_is_empty(
    _running_pods: &HashMap<u64, Pod>,
    _pending_pods: &HashMap<u64, Pod>,
    _nodes: &HashMap<u64, Node>,
    _pod: &Pod,
    node: &Node,
) -> (r: i64)
    ensures
        r == (if node@.pods.len() == 0 { 1i64 } else { 0i64 }),
{
    if node.status.pods.len() == 0 {
        1i64
    } else {
        0i64
    }
}

/// The number of pods on the node.
pub fn score_running_pods(
    _running_pods: &HashMap<u64, Pod>,
    _pending_pods: &HashMap<u64, Pod>,
    _nodes: &HashMap<u64, Node>,
    _pod: &Pod,
    node: &Node,
) -> (r: i64)
    ensures
        r == node@.pods.len() as i64,
{
    node.status.pods.len() as i64
}

/// Scores a node by the taints of it that the pod does not tolerate.
pub fn score_taints_and_tolerations(
    _running_pods: &HashMap<u64, Pod>,
    _pending_pods: &HashMap<u64, Pod>,
    _nodes: &HashMap<u64, Node>,
    pod: &Pod,
    node: &Node,
) -> (r: i64)
    ensures
        r == taint_score(node@.taints, pod@.tolerations),
{
    let mut no_schedule = false;
    let mut prefer_no_schedule = false;
    let mut i: usize = 0;
    while i < node.spec.taints.len()
        invariant
            i <= node.spec.taints.len(),
            no_schedule == (exists|j: int|
                0 <= j < i && (#[trigger] node@.taints[j]).effect == TaintTolerationEffect::NoSchedule
                    && !tolerated(node@.taints[j], pod@.tolerations)),
            prefer_no_schedule == (exists|j: int|
                0 <= j < i && (#[trigger] node@.taints[j]).effect == TaintTolerationEffect::PreferNoSchedule
                    && !tolerated(node@.taints[j], pod@.tolerations)),
        decreases node.spec.taints.len() - i,
    {
        let taint = &node.spec.taints[i];
        if !taint.is_tolerated_by(&pod.spec.tolerations) {
            match taint.effect {
                TaintTolerationEffect::NoSchedule => {
                    no_schedule = true;
                },
                TaintTolerationEffect::PreferNoSchedule => {
                    prefer_no_schedule = true;
                },
            }
        }
        i = i + 1;
    }
    if no_schedule {
        return -1;
    }
    if prefer_no_schedule {
        return 0;
    }
    1
}

/// For a preferred node affinity, the number of its terms that hold on the
/// node; 0 for a required one. Not accepted where evaluating a
/// preferred affinity is undefined.
pub fn score_node_affinity(
    _running_pods: &HashMap<u64, Pod>,
    _pending_pods: &HashMap<u64, Pod>,
    _nodes: &HashMap<u64, Node>,
    pod: &Pod,
    node: &Node,
) -> (r: i64)
    requires
        pod@.node_affinity.schedule_type == NodeAffinityType::Preferred ==> affinity_defined(
            pod@.node_affinity,
            node@.labels,
        ),
    ensures
        r == (match pod@.node_affinity.schedule_type {
            NodeAffinityType::Preferred => count_holding(
                pod@.node_affinity.terms,
                node@.labels,
                pod@.node_affinity.terms.len() as int,
            ) as i64,
            NodeAffinityType::Required => 0i64,
        }),
{
    match pod.spec.node_affinity.schedule_type {
        NodeAffinityType::Preferred => pod.spec.node_affinity.matches(node) as i64,
        NodeAffinityType::Required => 0,
    }
}

} // verus!
