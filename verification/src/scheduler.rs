pub mod features;
pub mod filter;
pub mod normalize_score;
pub mod score;
pub mod score_normalize;
pub mod taints_tolerations;
pub mod active_queue;
pub mod backoff_queue;
pub mod queues;
pub mod node_index;
pub mod scheduler;
