//! A Kubernetes cluster simulator core: cluster objects, the scheduling
//! pipeline (filters, scorers, queues, node index), the kubelet's resource
//! accounting, the API server's routing and the autoscalers' decisions,
//! with their behaviour stated and proved.

pub mod api;
pub mod api_server;
pub mod autoscaler;
pub mod load_types;
pub mod kubelet;
pub mod objects;
pub mod scheduler;
pub mod simulation;
pub mod test;
pub mod text;
pub mod workload;
