//! The clock, read through the `time` crate.
use vstd::prelude::*;
use crate::types::Timestamp;

verus! {

/// Reads the current time with `time::now().to_timespec()`. What comes back
/// depends on the clock, so nothing is stated of the seconds; the `time`
/// crate builds its `Timespec` with `Timespec::new`, which asserts that the
/// nanoseconds lie in `0..1_000_000_000`, and that is what the contract says.
#[verifier::external_body]
pub(crate) fn current_time() -> (t: Timestamp)
    ensures
        t.valid(),
{
    let ts = time::now().to_timespec();
    Timestamp { sec: ts.sec, nsec: ts.nsec }
}

} // verus!
