pub mod monitoring;
pub mod workload;
