//! Comparison of secrets in time that does not depend on their contents.

use subtle::ConstantTimeEq;
use vstd::prelude::*;

verus! {

/// `subtle::ConstantTimeEq::ct_eq` on byte slices: true exactly when both hold
/// the same bytes. That its running time depends on the lengths alone is a
/// property of the crate that no clause states.
#[verifier::external_body]
fn ct_eq_slices(a: &[u8], b: &[u8]) -> (r: bool)
    ensures
        r == (a@ == b@),
{
    a.ct_eq(b).into()
}

/// Constant-time comparison of two 32-byte values.
pub fn ct_eq_32(a: &[u8; 32], b: &[u8; 32]) -> (r: bool)
    ensures
        r == (a@ == b@),
{
    ct_eq_slices(a.as_slice(), b.as_slice())
}

/// Constant-time comparison of two byte strings. Strings of different length
/// are unequal; the length itself is not treated as secret.
pub fn ct_eq_bytes(a: &[u8], b: &[u8]) -> (r: bool)
    ensures
        r == (a@ == b@),
{
    if a.len() != b.len() {
        return false;
    }
    ct_eq_slices(a, b)
}

/// Constant-time comparison of two 16-byte values.
pub fn ct_eq_16(a: &[u8; 16], b: &[u8; 16]) -> (r: bool)
    ensures
        r == (a@ == b@),
{
    ct_eq_slices(a.as_slice(), b.as_slice())
}

/// Constant-time comparison of two 20-byte values.
pub fn ct_eq_20(a: &[u8; 20], b: &[u8; 20]) -> (r: bool)
    ensures
        r == (a@ == b@),
{
    ct_eq_slices(a.as_slice(), b.as_slice())
}

/// Constant-time comparison of two 64-byte values.
pub fn ct_eq_64(a: &[u8; 64], b: &[u8; 64]) -> (r: bool)
    ensures
        r == (a@ == b@),
{
    ct_eq_slices(a.as_slice(), b.as_slice())
}

} // verus!
