pub mod call_stub;
pub mod endpoints;
pub mod peer_manager;
pub mod nat_probe_scheduler;
pub mod peer_table;
pub mod service;
pub mod peer_connection;
pub mod rendezvous_state;
pub mod rendezvous;
pub mod statistic;
