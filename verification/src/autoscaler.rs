pub mod ca;
pub mod hpa;
pub mod vpa;
