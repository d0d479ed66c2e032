use vstd::prelude::*;
use crate::objects::node::Node;
use crate::objects::pod::{Pod, PodPhase};

verus! {

/// A pod submitted to the API server, passed on to the scheduler.
#[derive(Debug, Clone)]
pub struct EventAddPod {
    pub pod: Pod,
}

/// A pod the API server removes.
#[derive(Debug, Clone, Copy)]
pub struct EventRemovePod {
    pub pod_uid: u64,
}

/// A node joining the cluster with the simulation id of its kubelet.
#[derive(Debug, Clone)]
pub struct EventAddNode {
    pub kubelet_sim_id: u64,
    pub node: Node,
}

/// A node leaving the cluster.
#[derive(Debug, Clone, Copy)]
pub struct EventRemoveNode {
    pub node_uid: u64,
}

/// A kubelet's acknowledgement that its node left.
#[derive(Debug, Clone, Copy)]
pub struct EventRemoveNodeAck {
    pub node_uid: u64,
}

/// The scheduler's decision on a pod, routed to the pod's kubelet.
#[derive(Debug, Clone)]
pub struct EventUpdatePodFromScheduler {
    pub pod: Option<Pod>,
    pub pod_uid: u64,
    pub new_phase: PodPhase,
    pub node_uid: u64,
}

/// A kubelet's report on a pod.
#[derive(Debug, Clone, Copy)]
pub struct EventUpdatePodFromKubelet {
    pub pod_uid: u64,
    pub new_phase: PodPhase,
    pub node_uid: u64,
}

/// A component's periodic wake-up.
#[derive(Debug, Clone, Copy)]
pub struct EventSelfUpdate {}

/// Turns an autoscaler on.
#[derive(Debug, Clone, Copy)]
pub struct EventTurnOn {}

/// Turns an autoscaler off.
#[derive(Debug, Clone, Copy)]
pub struct EventTurnOff {}

/// A kubelet's wake-up at the next change of a pod's load.
#[derive(Debug, Clone, Copy)]
pub struct EventKubeletNextChange {
    pub pod_uid: u64,
}

/// The horizontal autoscaler asks for the metrics of pod groups.
#[derive(Debug, Clone)]
pub struct EventGetHPAMetrics {
    pub pod_groups: Vec<u64>,
}

/// The horizontal autoscaler asks to remove some pod of a group.
#[derive(Debug, Clone, Copy)]
pub struct EventRemoveAnyPodInGroup {
    pub group_uid: u64,
}

} // verus!
