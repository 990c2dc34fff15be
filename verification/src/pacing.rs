//! Playback pacing: how long to hold an event back so that a replayed log
//! arrives at a scaled real-time rate.

use crate::aggregate::{AccessLogAggregate, Event};
use crate::engine::event_aggregate;
use vstd::prelude::*;

verus! {

/// Seconds of log time between the previous event and the next one. Zero
/// when there was no previous event, which a `previous` of zero stands
/// for, and zero when the next event is not later than the previous one.
pub open spec fn spec_elapsed_seconds(previous: i32, next: i32) -> int {
    if previous == 0 || next <= previous {
        0
    } else {
        next - previous
    }
}

/// Milliseconds to wait before the next event is delivered:
/// `millis_per_second` for every elapsed second of log time, held at the
/// largest representable wait when the product would pass it.
pub open spec fn spec_wait_millis(millis_per_second: u64, previous: i32, next: i32) -> u64 {
    let wait = millis_per_second * spec_elapsed_seconds(previous, next);
    if wait > u64::MAX {
        u64::MAX
    } else {
        wait as u64
    }
}

/// Computes the wait before the next event is delivered.
///
/// `millis_per_second` is the playback scale: the milliseconds of real
/// time that one second of log time takes. Zero switches pacing off.
pub fn wait_millis(millis_per_second: u64, previous: i32, next: i32) -> (wait: u64)
    ensures
        wait == spec_wait_millis(millis_per_second, previous, next),
        millis_per_second == 0 ==> wait == 0,
        previous == 0 ==> wait == 0,
        next <= previous ==> wait == 0,
{
    if previous == 0 || next <= previous {
        return 0;
    }
    let elapsed: u128 = (next as i64 - previous as i64) as u128;
    let scale: u128 = millis_per_second as u128;
    assert(scale * elapsed <= 0xffff_ffff_ffff_ffff * 0xffff_ffff) by (nonlinear_arith)
        requires
            0 <= scale <= 0xffff_ffff_ffff_ffff,
            0 <= elapsed <= 0xffff_ffff,
    ;
    assert(scale == 0 ==> scale * elapsed == 0) by (nonlinear_arith);
    let wait: u128 = scale * elapsed;
    if wait > u64::MAX as u128 {
        u64::MAX
    } else {
        wait as u64
    }
}

/// Prepares one event for the engine and the monitor: the wait that
/// playback owes before the event is delivered, and the single-event
/// aggregate that stands for it. `current_timestamp` is the timestamp of
/// the event before it, or zero if there was none.
pub fn process_event(event: &Event, millis_per_second: u64, current_timestamp: i32) -> (prepared: (
    u64,
    AccessLogAggregate,
))
    ensures
        prepared.0 == spec_wait_millis(millis_per_second, current_timestamp, event.timestamp),
        prepared.1 == event_aggregate(*event),
{
    let wait = wait_millis(millis_per_second, current_timestamp, event.timestamp);
    (wait, AccessLogAggregate::new(0, event.timestamp, Some(event)))
}

} // verus!
