//! Where the server listens.
use vstd::prelude::*;
use vstd::string::*;

use crate::text::{decimal, decimal_string, join3};

verus! {

/// Where the server listens, and whether it lets other origins in.
#[derive(Debug)]
pub struct ServerConfig {
    pub host: String,
    pub port: u16,
    pub cors: bool,
}

impl ServerConfig {
    /// The local address on port 11434, closed to other origins.
    pub fn defaults() -> (r: Self)
        ensures
            r.host@ == "127.0.0.1"@,
            r.port == 11434,
            !r.cors,
    {
        ServerConfig { host: String::from_str("127.0.0.1"), port: 11434, cors: false }
    }

    /// The address to bind to.
    pub fn address(&self) -> (r: String)
        ensures
            r@ == self.host@ + ":"@ + decimal(self.port as nat),
    {
        join3(self.host.as_str(), ":", decimal_string(self.port as u64).as_str())
    }
}

} // verus!
