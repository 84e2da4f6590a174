//! Durations as whole nanoseconds.
//!
//! The game counts time in nanoseconds, read from a `Duration` with `Duration::as_nanos`.

use std::time::Duration;
use vstd::prelude::*;

verus! {

/// Nanoseconds in one second.
pub const NANOS_PER_SEC: u128 = 1_000_000_000;

/// The largest number of nanoseconds that a `Duration` can hold: `u64::MAX` seconds and
/// 999_999_999 nanoseconds.
pub open spec fn max_duration_nanos() -> nat {
    (u64::MAX as nat) * 1_000_000_000 + 999_999_999
}

/// `max_duration_nanos` as a number that code can compare with.
pub const MAX_DURATION_NANOS: u128 = 18_446_744_073_709_551_615_999_999_999;

/// The constant is the largest number of nanoseconds in a `Duration`.
pub proof fn lemma_max_duration_nanos()
    ensures
        MAX_DURATION_NANOS == max_duration_nanos(),
{
}

/// The total number of whole nanoseconds in a duration, as `Duration::as_nanos` gives it.
pub uninterp spec fn duration_nanos(d: Duration) -> u128;

/// Calls `Duration::as_nanos`, which returns the total number of whole nanoseconds in the
/// duration: at most what `Duration::MAX` holds. Its fractional second, which
/// `Duration::subsec_nanos` gives, is this number modulo one billion.
#[verifier::external_body]
pub(crate) fn duration_as_nanos(d: &Duration) -> (n: u128)
    ensures
        n == duration_nanos(*d),
        n <= max_duration_nanos(),
{
    d.as_nanos()
}

} // verus!
