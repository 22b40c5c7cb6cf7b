//! Clocks. Wall time is for people; intervals use the monotonic clock.

use vstd::prelude::*;
use std::time::{Duration, Instant};

verus! {

#[verifier::external_type_specification]
#[verifier::external_body]
pub struct ExInstant(Instant);

/// `Instant::now` reads the monotonic clock; nothing is known of the reading.
pub assume_specification[ Instant::now ]() -> Instant;

/// The length of a `Duration` in nanoseconds.
pub uninterp spec fn nanos(duration: Duration) -> nat;

/// The whole milliseconds in a duration.
pub open spec fn whole_ms(duration: Duration) -> nat {
    nanos(duration) / 1_000_000
}

/// `Duration::as_millis` counts the whole milliseconds in a duration.
pub assume_specification[ Duration::as_millis ](duration: &Duration) -> (ms: u128)
    ensures
        ms == nanos(*duration) / 1_000_000,
;

/// The time from one reading of the monotonic clock to another, in nanoseconds;
/// zero where the second is not later.
pub uninterp spec fn nanos_between(earlier: Instant, later: Instant) -> nat;

/// `Instant::duration_since` gives the time between two readings, which depends
/// on them alone.
pub assume_specification[ Instant::duration_since ](later: &Instant, earlier: Instant) -> (time:
    Duration)
    ensures
        nanos(time) == nanos_between(earlier, *later),
;

/// `SystemTime::elapsed` of the Unix epoch: the wall-clock time since then, or
/// nothing where the clock stands before it. Nothing is known of the reading.
#[verifier::external_body]
fn since_epoch() -> Option<Duration> {
    std::time::UNIX_EPOCH.elapsed().ok()
}

/// Milliseconds as the wire and the files hold them: the low 64 bits, which is
/// all of them for millennia; zero for a clock before the epoch.
pub fn wire_ms(elapsed: Option<u128>) -> (ms: u64)
    ensures
        ms as int == match elapsed {
            Some(all) => all as int % 0x1_0000_0000_0000_0000,
            None => 0,
        },
{
    match elapsed {
        Some(all) => {
            assert(all as u64 == all % 0x1_0000_0000_0000_0000u128) by (bit_vector);
            #[verifier::truncate]
            let ms: u64 = all as u64;
            ms
        },
        None => 0,
    }
}

/// Whether the wall clock may read `ms`: the low 64 bits of the whole
/// milliseconds of some time since the Unix epoch, or zero before it.
pub open spec fn wall_reading(ms: u64) -> bool {
    ||| ms == 0
    ||| exists|time: Duration| ms == #[trigger] whole_ms(time) % 0x1_0000_0000_0000_0000
}

/// Wall-clock milliseconds since the Unix epoch; zero where the clock stands
/// before it.
pub fn now_ms() -> (ms: u64)
    ensures
        wall_reading(ms),
{
    match since_epoch() {
        Some(time) => {
            let all: u128 = time.as_millis();
            assert(all == whole_ms(time));
            wire_ms(Some(all))
        },
        None => wire_ms(None),
    }
}

/// The whole milliseconds from one reading of the monotonic clock to another.
pub open spec fn ms_between(earlier: Instant, later: Instant) -> nat {
    nanos_between(earlier, later) / 1_000_000
}

/// The milliseconds from one reading of the monotonic clock to another, as the
/// wire holds them.
pub fn gap_between(earlier: Instant, later: &Instant) -> (ms: u64)
    ensures
        ms == ms_between(earlier, *later) % 0x1_0000_0000_0000_0000,
{
    wire_ms(Some(later.duration_since(earlier).as_millis()))
}

/// Whether the monotonic clock may read `ms` since `since`: the whole
/// milliseconds from there to some other reading.
pub open spec fn elapsed_reading(since: Instant, ms: nat) -> bool {
    exists|now: Instant| ms == #[trigger] ms_between(since, now)
}

/// Milliseconds of the monotonic clock since `since`: the whole ones up to a
/// new reading, which the clock decides.
pub fn elapsed_ms(since: &Instant) -> (ms: u128)
    ensures
        elapsed_reading(*since, ms as nat),
{
    let now = Instant::now();
    let ms: u128 = now.duration_since(*since).as_millis();
    assert(ms == ms_between(*since, now));
    ms
}

} // verus!
