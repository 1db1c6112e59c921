//! What a circuit is built from.

use vstd::prelude::*;

verus! {

/// How to reach and authenticate one hop of a circuit.
#[derive(Debug, Clone, PartialEq)]
pub struct LinkSpec {
    pub host: String,
    pub port: u16,
    pub node_id: [u8; 32],
    pub static_pub: [u8; 32],
}

impl LinkSpec {
    /// A copy.
    pub fn duplicate(&self) -> (r: Self)
        ensures
            r == *self,
    {
        LinkSpec {
            host: self.host.clone(),
            port: self.port,
            node_id: self.node_id,
            static_pub: self.static_pub,
        }
    }
}

/// A cell on its way over a link.
#[derive(Debug, Clone, PartialEq)]
pub struct CircuitCellMsg {
    /// The cell, in hexadecimal.
    pub data: String,
}

} // verus!
