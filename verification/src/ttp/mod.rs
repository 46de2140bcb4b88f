pub mod types;
pub mod server;
pub mod registry;
pub mod tunnel_cache;
pub mod client_tunnels;
pub mod attach;
