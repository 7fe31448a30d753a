//! Model Context Protocol client support: server configuration and the
//! transports' framing rules.
pub mod config;
pub mod transport;
