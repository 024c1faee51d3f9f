//! Desktop environment: window server, compositor and input routing.
pub mod window_server;
pub mod input;
pub mod compositor;
