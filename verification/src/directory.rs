//! The consensus on the network's relays, as path selection reads it.

use vstd::prelude::*;

verus! {

/// Properties that the authorities attest of a relay, one bit each.
pub struct PeerFlags;

impl PeerFlags {
    pub const STABLE: u32 = 0x01;

    pub const FAST: u32 = 0x02;

    pub const GUARD: u32 = 0x04;

    pub const EXIT: u32 = 0x08;

    pub const RUNNING: u32 = 0x10;

    pub const VALID: u32 = 0x20;
}

/// One relay of the consensus.
#[derive(Debug, Clone, PartialEq)]
pub struct PeerEntry {
    pub node_id_hex: String,
    pub host: String,
    pub port: u16,
    pub static_pub_hex: String,
    /// The relay's flags, as a union of the bits of `PeerFlags`.
    pub flags: u32,
    /// Measured bandwidth; 0 for a relay that was not measured.
    pub bandwidth_kbs: u32,
    pub exit_policy_summary: String,
    /// The operator's label; empty when unaffiliated.
    pub family: String,
}

/// The relays that the authorities agreed on.
#[derive(Debug, Clone)]
pub struct ConsensusDocument {
    pub network_id: String,
    /// The shared random value of the period; empty when there is none.
    pub shared_random: String,
    pub valid_after: u64,
    pub valid_until: u64,
    pub peers: Vec<PeerEntry>,
}

} // verus!
