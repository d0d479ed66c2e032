pub mod eviction_order;
pub mod kubelet;
