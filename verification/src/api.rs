use vstd::prelude::*;
use crate::objects::pod::{Pod, PodPhase};

verus! {

/// Kinds of change a component can subscribe to at the API server.
#[derive(Debug, Clone, Copy, PartialEq, Eq, Structural, Hash)]
pub enum APIServerEvent {
    InsertPod,
    RemovePod,
    InsertNode,
    RemoveNode,
}

/// A pod submitted to the cluster.
#[derive(Debug, Clone)]
pub struct APIAddPod {
    pub pod: Pod,
}

/// A pod to remove from the cluster.
#[derive(Debug, Clone, Copy)]
pub struct APIRemovePod {
    pub pod_uid: u64,
}

/// A node whose kubelet leaves the cluster.
#[derive(Debug, Clone, Copy)]
pub struct APIRemoveKubelet {
    pub node_uid: u64,
}

/// The scheduler's decision on a pod.
#[derive(Debug, Clone)]
pub struct APIUpdatePodFromScheduler {
    pub pod: Pod,
    pub new_phase: PodPhase,
    pub node_uid: u64,
}

/// A kubelet's report on a pod.
#[derive(Debug, Clone, Copy)]
pub struct APIUpdatePodFromKubelet {
    pub pod_uid: u64,
    pub new_phase: PodPhase,
    pub node_uid: u64,
}

} // verus!
