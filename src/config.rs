//! The settings the proxy starts with.

use vstd::prelude::*;

verus! {

/// Where the HTTP server listens.
#[derive(Debug, Clone, Copy, PartialEq, Eq, Structural)]
pub struct ServerConfig {
    pub port: u16,
}

/// All settings of the proxy.
#[derive(Debug, Clone, Copy, PartialEq, Eq, Structural)]
pub struct AppConfig {
    pub server: ServerConfig,
}

impl AppConfig {
    /// Settings that listen on `port`.
    pub fn new(port: u16) -> (r: AppConfig)
        ensures
            r.server.port == port,
    {
        AppConfig { server: ServerConfig { port } }
    }
}

} // verus!
