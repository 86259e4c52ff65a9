//! The time of day.

use vstd::prelude::*;

verus! {

/// A number of seconds since the start of 1970 that the clock can show.
pub open spec fn is_timestamp(t: int) -> bool {
    0 <= t < 185_542_587_187_200
}

/// `chrono::Utc::now().timestamp()`: the seconds since the start of 1970. The count starts at
/// zero, since the clock of the system is measured from that moment, and its days are counted in
/// 32 bits, which bounds it. Which number it is depends on the moment of the call.
#[verifier::external_body]
pub(crate) fn unix_now() -> (t: i64)
    ensures
        is_timestamp(t as int),
{
    chrono::Utc::now().timestamp()
}

} // verus!
