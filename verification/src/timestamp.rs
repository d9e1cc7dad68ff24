//! Timestamps and the bounds a range of two timestamps has to respect.

use vstd::prelude::*;

verus! {

/// A point in time as written in the text: `H:MM:SS`, or `M:SS` with `hours` zero.
///
/// The fields hold what was written. Whether minutes and seconds stay
/// below sixty is decided later, by [`validate_range`].
#[derive(Debug, Clone, Copy, PartialEq, Eq, Structural)]
pub struct Timestamp {
    pub hours: u32,
    pub minutes: u32,
    pub seconds: u32,
}

impl Timestamp {
    /// Seconds since `0:00`.
    pub open spec fn total_seconds(self) -> nat {
        (self.hours * 3600 + self.minutes * 60 + self.seconds) as nat
    }

    /// Seconds since `0:00`. The sum is taken in 64 bits, where it cannot overflow.
    pub fn to_seconds(&self) -> (total: u64)
        ensures
            total == self.total_seconds(),
    {
        let hours: u64 = self.hours as u64;
        let minutes: u64 = self.minutes as u64;
        let seconds: u64 = self.seconds as u64;
        hours * 3600 + minutes * 60 + seconds
    }
}

/// Why a range that reads as `(start-end)` still cannot be counted.
#[derive(Debug, Clone, Copy, PartialEq, Eq, Structural)]
pub enum RangeError {
    /// A minutes field above 59, with the offending value.
    InvalidMinutes(u32),
    /// A seconds field above 59, with the offending value.
    InvalidSeconds(u32),
    /// The end lies before the start.
    EndBeforeStart,
}

/// Largest value a minutes or seconds field may hold.
pub const FIELD_MAX: u32 = 59;

/// The verdict on a range: its length in seconds, or the first bound it breaks.
///
/// Minutes are looked at before seconds, and within each the start before the
/// end; only when all four fields are in bounds are the two totals compared.
/// Hours are never bounded.
pub open spec fn range_verdict(start: Timestamp, end: Timestamp) -> Result<u64, RangeError> {
    if start.minutes > FIELD_MAX {
        Err(RangeError::InvalidMinutes(start.minutes))
    } else if end.minutes > FIELD_MAX {
        Err(RangeError::InvalidMinutes(end.minutes))
    } else if start.seconds > FIELD_MAX {
        Err(RangeError::InvalidSeconds(start.seconds))
    } else if end.seconds > FIELD_MAX {
        Err(RangeError::InvalidSeconds(end.seconds))
    } else if end.total_seconds() < start.total_seconds() {
        Err(RangeError::EndBeforeStart)
    } else {
        Ok((end.total_seconds() - start.total_seconds()) as u64)
    }
}

/// Checks the bounds of a range and measures it.
pub fn validate_range(start: Timestamp, end: Timestamp) -> (verdict: Result<u64, RangeError>)
    ensures
        verdict == range_verdict(start, end),
{
    if start.minutes > FIELD_MAX {
        return Err(RangeError::InvalidMinutes(start.minutes));
    }
    if end.minutes > FIELD_MAX {
        return Err(RangeError::InvalidMinutes(end.minutes));
    }
    if start.seconds > FIELD_MAX {
        return Err(RangeError::InvalidSeconds(start.seconds));
    }
    if end.seconds > FIELD_MAX {
        return Err(RangeError::InvalidSeconds(end.seconds));
    }
    let start_secs = start.to_seconds();
    let end_secs = end.to_seconds();
    if end_secs < start_secs {
        Err(RangeError::EndBeforeStart)
    } else {
        Ok(end_secs - start_secs)
    }
}

} // verus!
