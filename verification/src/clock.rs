//! The wall clock.

use vstd::prelude::*;

verus! {

/// `std::time::SystemTime::now`, in whole seconds since the Unix epoch; zero
/// for a clock set before it. Nothing is known of the result.
#[verifier::external_body]
pub(crate) fn now_unix() -> (r: u64) {
    std::time::SystemTime::now().duration_since(std::time::UNIX_EPOCH).map(|d| d.as_secs()).unwrap_or(0)
}

/// `t` is a reading of the wall clock, in whole seconds since the Unix epoch: what a
/// call of [`now_unix`] gives.
pub closed spec fn is_now(t: u64) -> bool {
    call_ensures(now_unix, (), t)
}

/// Reads the wall clock.
pub(crate) fn now() -> (r: u64)
    ensures
        is_now(r),
{
    now_unix()
}

} // verus!
