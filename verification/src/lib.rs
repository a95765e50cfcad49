//! Peer-to-peer rendezvous and secure transport primitives.
//!
//! Peers find each other by a shared 32-byte topic identifier over a
//! Kademlia-style DHT speaking the KRPC (bencode) wire format, negotiate a
//! direct UDP path through NATs with authenticated punch packets, and then
//! exchange application data over a Noise-framed encrypted channel.
//!
//! Everything here is the logic between datagrams: wire formats, state
//! machines and decisions.  Sockets, timers and name resolution stay with
//! the caller, who hands in the bytes that arrived and sends out the bytes
//! returned.

use vstd::prelude::*;

pub mod bytesutil;
pub mod dht;
pub mod discovery;
pub mod holepunch;
pub mod protocol;
pub mod topic;
pub mod transport;

pub use topic::Topic;

verus! {

/// Configuration of the swarm façade.
pub struct SwarmConfig {
    /// Bootstrap nodes in `host:port` form.
    pub bootstrap: Vec<String>,
    /// Local UDP port to bind. `0` means OS-assigned.
    pub port: u16,
    /// Upper bound on concurrent peer connections.
    pub max_peers: usize,
}

impl Default for SwarmConfig {
    /// Three default rendezvous hosts, an OS-assigned port, 64 peers.
    fn default() -> (r: SwarmConfig)
        ensures
            r.bootstrap@.len() == 3,
            r.bootstrap@[0]@ == "node1.hyperdht.org:49737"@,
            r.bootstrap@[1]@ == "node2.hyperdht.org:49737"@,
            r.bootstrap@[2]@ == "node3.hyperdht.org:49737"@,
            r.port == 0,
            r.max_peers == 64,
    {
        let mut bootstrap: Vec<String> = Vec::new();
        bootstrap.push("node1.hyperdht.org:49737".to_string());
        bootstrap.push("node2.hyperdht.org:49737".to_string());
        bootstrap.push("node3.hyperdht.org:49737".to_string());
        SwarmConfig { bootstrap, port: 0, max_peers: 64 }
    }
}

#[derive(Debug)]
pub enum SwarmError {
    Dht(String),
    Connection(String),
    Transport(String),
}

} // verus!
