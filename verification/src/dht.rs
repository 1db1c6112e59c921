//! What a node knows of its peers.

use vstd::prelude::*;

verus! {

/// A peer and how to reach it.
#[derive(Debug, Clone)]
pub struct PeerInfo {
    pub node_id: [u8; 32],
    pub host: String,
    pub port: u16,
    /// The certificate that the peer presented, as it was presented.
    pub cert: String,
    /// The peer's static key, in hexadecimal.
    pub static_pub: String,
}

impl PeerInfo {
    /// A copy.
    pub fn duplicate(&self) -> (r: Self)
        ensures
            r == *self,
    {
        PeerInfo {
            node_id: self.node_id,
            host: self.host.clone(),
            port: self.port,
            cert: self.cert.clone(),
            static_pub: self.static_pub.clone(),
        }
    }
}

impl Default for PeerInfo {
    fn default() -> (r: Self)
        ensures
            r.host@.len() == 0,
            r.port == 0,
            r.cert@.len() == 0,
            r.static_pub@.len() == 0,
            forall|i: int| 0 <= i < 32 ==> r.node_id@[i] == 0,
    {
        PeerInfo {
            node_id: [0u8; 32],
            host: String::new(),
            port: 0,
            cert: String::new(),
            static_pub: String::new(),
        }
    }
}

} // verus!
