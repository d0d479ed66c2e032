pub mod active_queue;
