pub mod labels;
pub mod node;
pub mod object_meta;
pub mod pod;
pub mod pod_group;
pub mod uid;
pub mod node_group;
