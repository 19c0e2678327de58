//! Settings of a mesh node.
use vstd::prelude::*;

verus! {

#[derive(Clone, Debug)]
pub struct AviP2pConfig {
    /// Identity name for the node (used in the Identify protocol).
    pub node_name: String,
    /// Port to listen on (0 for random).
    pub listen_port: u16,
    /// Multiaddr strings to bootstrap from.
    pub bootstrap_peers: Vec<String>,
    /// Local network discovery via mDNS.
    pub enable_mdns: bool,
    /// Kademlia DHT for peer discovery.
    pub enable_kad: bool,
    /// Maximum connected peers allowed (soft limit).
    pub max_peers: usize,
    /// Maximum concurrent streams.
    pub max_streams: usize,
}

impl AviP2pConfig {
    /// The default settings under another node name.
    pub fn new(node_name: &str) -> (r: Self)
        ensures
            r.node_name@ == node_name@,
            r.listen_port == 0,
            r.bootstrap_peers@.len() == 0,
            r.enable_mdns && r.enable_kad,
            r.max_peers == 50,
            r.max_streams == 10,
    {
        let mut c = Self::default();
        c.node_name = node_name.to_owned();
        c
    }
}

impl Default for AviP2pConfig {
    fn default() -> (r: Self)
        ensures
            r.node_name@ == "avi-node"@,
            r.listen_port == 0,
            r.bootstrap_peers@.len() == 0,
            r.enable_mdns && r.enable_kad,
            r.max_peers == 50,
            r.max_streams == 10,
    {
        AviP2pConfig {
            node_name: "avi-node".to_owned(),
            listen_port: 0,
            bootstrap_peers: Vec::new(),
            enable_mdns: true,
            enable_kad: true,
            max_peers: 50,
            max_streams: 10,
        }
    }
}

} // verus!
