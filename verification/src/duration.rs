//! The duration calculator: a minute count split into whole hours and
//! leftover minutes.

use vstd::prelude::*;

verus! {

/// A duration as an (hours, minutes) pair: three hours and 45 minutes is
/// `Duration(3, 45)`. Derived for display only, never persisted.
#[derive(Clone, Copy, Debug, PartialEq, Eq, Structural)]
pub struct Duration(pub i64, pub i64);

/// Hours part of a minute count: division by 60 truncated toward zero.
pub open spec fn hours_of(total: int) -> int {
    if total >= 0 {
        total / 60
    } else {
        -((-total) / 60)
    }
}

/// Leftover-minutes part of a minute count: remainder of division by 60,
/// carrying the sign of the input.
pub open spec fn leftover_of(total: int) -> int {
    if total >= 0 {
        total % 60
    } else {
        -((-total) % 60)
    }
}

/// Splits a total minute count into whole hours and leftover minutes.
pub fn parse_minutes(minutes: i64) -> (d: Duration)
    ensures
        d.0 == hours_of(minutes as int),
        d.1 == leftover_of(minutes as int),
{
    if minutes >= 0 {
        let m = minutes as u64;
        Duration((m / 60) as i64, (m % 60) as i64)
    } else {
        let mag: u64 = if minutes == i64::MIN {
            9223372036854775808u64
        } else {
            (-minutes) as u64
        };
        assert(mag == -(minutes as int));
        let h = (mag / 60) as i64;
        let r = (mag % 60) as i64;
        Duration(-h, -r)
    }
}

} // verus!
