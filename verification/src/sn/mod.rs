pub mod nat_probe;
pub mod protocol;
pub mod service;
pub mod types;
