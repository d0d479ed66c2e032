pub mod events;
pub mod api;
