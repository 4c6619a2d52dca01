//! The wall clock in Unix milliseconds.
use crate::catalog::{CatalogError, CatalogErrorView};
use vstd::prelude::*;

verus! {

/// A point of the system clock.
#[verifier::external_type_specification]
#[verifier::external_body]
pub struct ExSystemTime(std::time::SystemTime);

/// The span by which a time lies before another.
#[verifier::external_type_specification]
#[verifier::external_body]
pub struct ExSystemTimeError(std::time::SystemTimeError);

/// `SystemTime::now`: the time of the call, of which nothing is known.
pub assume_specification[ std::time::SystemTime::now ]() -> std::time::SystemTime
;

/// `SystemTime::duration_since`: the span since an earlier time, or an error where that time is
/// later. Times are opaque here, so neither is described.
pub assume_specification[ std::time::SystemTime::duration_since ](
    later: &std::time::SystemTime,
    earlier: std::time::SystemTime,
) -> Result<std::time::Duration, std::time::SystemTimeError>
;

/// `Duration::as_millis`: the whole milliseconds of a span. Spans are opaque here.
pub assume_specification[ std::time::Duration::as_millis ](span: &std::time::Duration) -> u128
;

/// `std::time::UNIX_EPOCH`, the start of Unix time.
#[verifier::external_body]
fn outside_epoch() -> std::time::SystemTime {
    std::time::UNIX_EPOCH
}

/// The stored time for milliseconds since the epoch, which are absent where the clock stands
/// before the epoch.
pub open spec fn stored(elapsed_ms: Option<u128>) -> Result<i64, CatalogErrorView> {
    match elapsed_ms {
        None => Err(CatalogErrorView::ClockBeforeEpoch),
        Some(elapsed) => if elapsed <= i64::MAX {
            Ok(elapsed as i64)
        } else {
            Err(CatalogErrorView::Corrupt("Unix timestamp exceeds i64 milliseconds"@))
        },
    }
}

/// A time, or the error, with its text as a character sequence.
pub open spec fn time_outcome(result: Result<i64, CatalogError>) -> Result<i64, CatalogErrorView> {
    match result {
        Ok(time) => Ok(time),
        Err(error) => Err(error@),
    }
}

/// Whether a reading of the clock can give these milliseconds: a time that `SystemTime::now` gave,
/// the span that `SystemTime::duration_since` found from the epoch to it, and the milliseconds
/// that `Duration::as_millis` counted in that span. They are absent where no span was found.
pub closed spec fn clock_reads(elapsed_ms: Option<u128>) -> bool {
    exists|
        time: std::time::SystemTime,
        epoch: std::time::SystemTime,
        span: Result<std::time::Duration, std::time::SystemTimeError>,
    |
        {
            &&& call_ensures(std::time::SystemTime::now, (), time)
            &&& call_ensures(outside_epoch, (), epoch)
            &&& #[trigger] call_ensures(
                std::time::SystemTime::duration_since,
                (&time, epoch),
                span,
            )
            &&& match (span, elapsed_ms) {
                (Ok(span), Some(elapsed)) => call_ensures(
                    std::time::Duration::as_millis,
                    (&span,),
                    elapsed,
                ),
                (Err(_), None) => true,
                _ => false,
            }
        }
}

/// Milliseconds since the epoch as a stored time: nothing where the clock stands before the epoch.
pub fn stored_millis(elapsed_ms: Option<u128>) -> (result: Result<i64, CatalogError>)
    ensures
        time_outcome(result) == stored(elapsed_ms),
{
    match elapsed_ms {
        None => Err(CatalogError::ClockBeforeEpoch),
        Some(elapsed) => if elapsed <= 0x7fff_ffff_ffff_ffff {
            Ok(elapsed as i64)
        } else {
            Err(CatalogError::Corrupt("Unix timestamp exceeds i64 milliseconds".to_owned()))
        },
    }
}

/// The time of the call in Unix milliseconds.
pub fn now_ms() -> (result: Result<i64, CatalogError>)
    ensures
        exists|elapsed_ms: Option<u128>| #[trigger]
            clock_reads(elapsed_ms) && time_outcome(result) == stored(elapsed_ms),
{
    let time = std::time::SystemTime::now();
    let epoch = outside_epoch();
    let span = time.duration_since(epoch);
    match span {
        Ok(elapsed) => {
            let elapsed_ms: u128 = elapsed.as_millis();
            assert(clock_reads(Some(elapsed_ms)));
            stored_millis(Some(elapsed_ms))
        },
        Err(_) => {
            assert(clock_reads(None));
            stored_millis(None)
        },
    }
}

/// Whole seconds and nanoseconds of Unix time from a span to one side of the epoch. Before the
/// epoch the nanoseconds still count upwards; seconds saturate at the ends of `i64`.
pub open spec fn time_parts(before_epoch: bool, seconds: u64, nanoseconds: u32) -> (i64, u32) {
    let bounded = if seconds <= i64::MAX {
        seconds as i64
    } else {
        i64::MAX
    };
    if !before_epoch {
        (bounded, nanoseconds)
    } else if nanoseconds == 0 {
        ((-bounded) as i64, 0)
    } else if bounded < i64::MAX {
        ((-(bounded + 1)) as i64, (1_000_000_000 - nanoseconds) as u32)
    } else {
        ((-bounded) as i64, (1_000_000_000 - nanoseconds) as u32)
    }
}

/// Whole seconds and nanoseconds of Unix time from a span to one side of the epoch.
pub fn unix_time_parts(before_epoch: bool, seconds: u64, nanoseconds: u32) -> (result: (i64, u32))
    requires
        nanoseconds < 1_000_000_000,
    ensures
        result == time_parts(before_epoch, seconds, nanoseconds),
{
    let bounded: i64 = if seconds <= 0x7fff_ffff_ffff_ffff {
        seconds as i64
    } else {
        i64::MAX
    };
    if !before_epoch {
        (bounded, nanoseconds)
    } else if nanoseconds == 0 {
        (-bounded, 0)
    } else if bounded < i64::MAX {
        (-(bounded + 1), 1_000_000_000 - nanoseconds)
    } else {
        (-bounded, 1_000_000_000 - nanoseconds)
    }
}

} // verus!
