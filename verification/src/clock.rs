//! The current time.

use vstd::prelude::*;

verus! {

/// The earliest second since the Unix epoch that a clock reading can have.
pub const MIN_SECOND: i64 = -377705023201;

/// The latest second since the Unix epoch that a clock reading can have.
pub const MAX_SECOND: i64 = 253402207200;

/// Calls `jiff::Timestamp::now` and, on what it returns, `as_second`: the
/// whole seconds since the Unix epoch, in the range of a `jiff::Timestamp`.
/// Which second it is depends on the system clock, so nothing more is said of
/// it. `now` panics if the clock is set outside of that range.
#[verifier::external_body]
pub(crate) fn current_second() -> (second: i64)
    ensures
        MIN_SECOND <= second <= MAX_SECOND,
{
    jiff::Timestamp::now().as_second()
}

/// Whether `second` is a second that the system clock was read to show.
pub closed spec fn clock_reading(second: i64) -> bool {
    call_ensures(current_second, (), second)
}

/// A clock reading is one that [`current_second`] returned, and so lies in the
/// range of the clock.
pub(crate) proof fn law_clock_reading_comes_from_the_clock(second: i64)
    ensures
        clock_reading(second) <==> call_ensures(current_second, (), second),
        clock_reading(second) ==> MIN_SECOND <= second <= MAX_SECOND,
{
}

} // verus!
