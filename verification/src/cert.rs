//! The certificate that admits a node to the network, as the proof of work
//! reads it.

use vstd::prelude::*;

verus! {

/// The size of a certificate's numbers.
#[derive(Clone, Copy, Debug, PartialEq, Eq, Structural)]
pub enum CertBits {
    B256,
    B512,
    B1024,
    B2048,
}

/// A node's certificate. Its numbers are written most significant byte first,
/// without leading zeros.
#[derive(Clone, Debug)]
pub struct PhiCert {
    pub bits: CertBits,
    pub j: Vec<u8>,
    pub phi: Vec<u8>,
    pub mu: u8,
    pub dr: u8,
}

} // verus!
