pub mod node_affinity;
pub mod taints_tolerations;
