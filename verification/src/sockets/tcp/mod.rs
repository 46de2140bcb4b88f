pub mod listener;
pub mod tcp_connection;
pub mod tcp_factory;
pub mod tcp_socket;
