pub mod constant_infinite;
pub mod types;
