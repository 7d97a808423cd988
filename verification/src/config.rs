//! The resolved configuration the proxy runs from. Loading and saving a
//! configuration file, and merging command-line flags over it, happen
//! outside the library; the core only consumes these plain values.

use vstd::prelude::*;

verus! {

/// The listening side of the configuration.
pub struct ServerConfig {
    pub host: Vec<u8>,
    pub port: u16,
    pub max_connections: usize,
    pub timeout_seconds: u64,
}

/// The upstream side of the configuration.
pub struct UpstreamConfig {
    pub default_target: Option<Vec<u8>>,
}

/// The whole configuration: where to listen, how many connections to
/// admit, the timeout, and the optional default forward target.
pub struct ProxyConfig {
    pub server: ServerConfig,
    pub upstream: Option<UpstreamConfig>,
}

/// The default listening host.
pub open spec fn default_host_bytes() -> Seq<u8> {
    seq!['1' as u8, '2' as u8, '7' as u8, '.' as u8, '0' as u8, '.' as u8, '0' as u8, '.' as u8, '1' as u8]
}

impl Default for ProxyConfig {
    /// Listen on 127.0.0.1:8080, admit at most 100 connections, give
    /// every bounded operation 30 seconds, and forward nowhere by
    /// default.
    fn default() -> (r: Self)
        ensures
            r.server.host@ == default_host_bytes(),
            r.server.port == 8080,
            r.server.max_connections == 100,
            r.server.timeout_seconds == 30,
            r.upstream is None,
    {
        let mut h: Vec<u8> = Vec::new();
    h.push('1' as u8);
    h.push('2' as u8);
    h.push('7' as u8);
    h.push('.' as u8);
    h.push('0' as u8);
    h.push('.' as u8);
    h.push('0' as u8);
    h.push('.' as u8);
    h.push('1' as u8);
        proof {
            assert(h@ =~= default_host_bytes());
        }
        ProxyConfig {
            server: ServerConfig { host: h, port: 8080, max_connections: 100, timeout_seconds: 30 },
            upstream: None,
        }
    }
}

} // verus!
