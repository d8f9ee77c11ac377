use std::time::{Duration, SystemTime, SystemTimeError, UNIX_EPOCH};
use vstd::prelude::*;

verus! {

/// `SystemTime` of std: a moment on the system clock. Nothing is read from it.
#[verifier::external_type_specification]
#[verifier::external_body]
pub struct ExSystemTime(SystemTime);

/// `SystemTimeError` of std: the error of `SystemTime::duration_since`.
#[verifier::external_type_specification]
#[verifier::external_body]
pub struct ExSystemTimeError(SystemTimeError);

/// `UNIX_EPOCH` of std: the moment at which Unix time begins.
#[verifier::external_body]
pub(crate) fn unix_epoch() -> SystemTime {
    UNIX_EPOCH
}

/// `SystemTime::now` of std: the time on the system clock.
pub assume_specification[ SystemTime::now ]() -> SystemTime;

/// `SystemTime::duration_since` of std: the time that has passed since
/// `earlier`, or an error where `earlier` is the later of the two.
pub assume_specification[ SystemTime::duration_since ](
    t: &SystemTime,
    earlier: SystemTime,
) -> Result<Duration, SystemTimeError>;

/// `SystemTimeError::duration` of std: how far the second time lay after the
/// first.
pub assume_specification[ SystemTimeError::duration ](e: &SystemTimeError) -> Duration;

/// `Duration::as_secs` of std: the whole seconds of the duration.
pub assume_specification[ Duration::as_secs ](d: &Duration) -> u64;

/// The second of Unix time at which timestamps begin: 2011-01-01T00:00:00Z.
pub const EPOCH: u64 = 1293840000;

/// The timestamp at `unix_secs` seconds of Unix time: the seconds since
/// `EPOCH`, wrapped into 32 bits.
pub open spec fn timestamp_of(unix_secs: u64) -> i32 {
    let low = (unix_secs - EPOCH) % 0x1_0000_0000;
    if low < 0x8000_0000 {
        low as i32
    } else {
        (low - 0x1_0000_0000) as i32
    }
}

/// The timestamp at `unix_secs` seconds of Unix time.
pub fn timestamp_at(unix_secs: u64) -> (stamp: i32)
    ensures
        stamp == timestamp_of(unix_secs),
{
    // The low 32 bits of the difference, then read as a signed number.
    let low: u64 = if unix_secs >= EPOCH {
        (unix_secs - EPOCH) % 0x1_0000_0000
    } else {
        0x1_0000_0000 - (EPOCH - unix_secs)
    };
    if low < 0x8000_0000 {
        low as i32
    } else {
        (low as i64 - 0x1_0000_0000) as i32
    }
}

} // verus!
