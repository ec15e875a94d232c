//! The proxy's configuration.
use vstd::prelude::*;

verus! {

/// The settings the proxy runs with.
#[derive(Clone, Debug)]
pub struct Config {
    /// The local address the proxy listens on.
    pub bind_addr: String,
    /// The address of the game server.
    pub server_addr: String,
    /// Pairs of (local port, server port) to relay.
    pub listen_ports: Vec<(u16, u16)>,
    /// Whether to answer DNS queries for the game server's name.
    pub use_dns: bool,
    /// The IPv4 address clients are sent to for the proxy.
    pub proxy_server_addr: String,
}

} // verus!
