//! Day markers: the local midnight starting the day a message was sent,
//! which is what the real core gives as a day marker.

use chrono::{Local, TimeZone};
use vstd::prelude::*;

verus! {

/// Seconds in a day.
pub const DAY: i64 = 86_400;

/// The earliest instant whose day can be marked: a day after the first
/// second chrono can represent (00:00:00 on 1 January of the year
/// -262143), so that no time zone's offset, always under a day, takes its
/// local time out of range.
pub const EARLIEST_MARKED: i64 = -8_334_601_142_400;

/// The latest instant whose day can be marked: a day before the last
/// second chrono can represent (23:59:59 on 31 December 262142).
pub const LATEST_MARKED: i64 = 8_210_266_790_399;

/// What the local clock makes of an instant.
pub enum LocalDay {
    /// The instant has no single local time.
    Unmapped,
    /// It has one, but its day has no local midnight to start it.
    NoMidnight,
    /// The local midnight starting its day, in seconds since the epoch.
    Midnight(i64),
}

/// chrono, in the machine's own time zone: `Local.timestamp_opt(t, 0)
/// .single()`, and for the local time that gives, the earliest instant at
/// 00:00:00 on its date (`date_naive`, `and_hms_opt`, `and_local_timezone`,
/// `earliest`, `timestamp`).
///
/// Which midnight comes back depends on the time zone the machine is set
/// to, so no instant is named. What holds in any zone is claimed:
/// `timestamp_opt` gives a single time for every instant in chrono's
/// range, so the answer is never `Unmapped`; and a zone's offset from UTC
/// is under a day either way (`FixedOffset::east_opt` refuses any other),
/// so the local time lies within a day of the instant, its midnight within
/// a day before that, and the instant of that midnight within a day of it
/// again: more than three days before the instant is out, and so is two
/// days after it. The `requires` keeps the local time inside chrono's
/// range, where `date_naive` would panic. Left unsaid: chrono also panics
/// when the machine's zone data cannot be read or gives an offset of a day
/// or more; that depends on the machine, not on the instant.
#[verifier::external_body]
fn local_day(timestamp: i64) -> (local: LocalDay)
    requires
        EARLIEST_MARKED <= timestamp <= LATEST_MARKED,
    ensures
        !(local is Unmapped),
        local matches LocalDay::Midnight(m) ==> timestamp - 3 * DAY < m < timestamp + 2 * DAY,
{
    let when = match Local.timestamp_opt(timestamp, 0).single() {
        Some(when) => when,
        None => return LocalDay::Unmapped,
    };
    let midnight = match when.date_naive().and_hms_opt(0, 0, 0) {
        Some(midnight) => midnight,
        None => return LocalDay::NoMidnight,
    };
    match midnight.and_local_timezone(Local).earliest() {
        Some(start) => LocalDay::Midnight(start.timestamp()),
        None => LocalDay::NoMidnight,
    }
}

/// The start of the day `timestamp` falls in, in UTC.
pub open spec fn utc_day_start(timestamp: int) -> int {
    (timestamp / DAY as int) * DAY as int
}

/// The day marker for `timestamp`, from what the local clock made of it:
/// its local midnight; the timestamp itself when its day has none; the
/// UTC day's start when the instant has no single local time.
pub fn day_start_from(timestamp: i64, local: LocalDay) -> (start: i64)
    requires
        local is Unmapped ==> utc_day_start(timestamp as int) >= i64::MIN,
    ensures
        start == (match local {
            LocalDay::Unmapped => utc_day_start(timestamp as int),
            LocalDay::NoMidnight => timestamp as int,
            LocalDay::Midnight(m) => m as int,
        }),
{
    match local {
        LocalDay::Unmapped => {
            let r = timestamp % DAY;
            if r < 0 {
                timestamp - r - DAY
            } else {
                timestamp - r
            }
        },
        LocalDay::NoMidnight => timestamp,
        LocalDay::Midnight(midnight) => midnight,
    }
}

/// Whether `start` can mark the day of `timestamp` in some time zone: the
/// timestamp itself, or a midnight less than three days before it and less
/// than two after it.
pub open spec fn near_day_of(timestamp: int, start: int) -> bool {
    timestamp - 3 * DAY < start < timestamp + 2 * DAY
}

/// Local midnight starting the day `timestamp` falls in, as the machine's
/// clock reckons it; see [`day_start_from`] for what is made of each
/// answer the clock gives. Whatever the machine's time zone, the marker is
/// near the instant: the instant itself when its day has no midnight,
/// otherwise its local midnight.
pub fn day_start(timestamp: i64) -> (start: i64)
    requires
        EARLIEST_MARKED <= timestamp <= LATEST_MARKED,
    ensures
        near_day_of(timestamp as int, start as int),
{
    let local = local_day(timestamp);
    day_start_from(timestamp, local)
}

} // verus!
