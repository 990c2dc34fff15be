use http_log_analysis::aggregate::{AccessLogAggregate, Event};
use http_log_analysis::pacing::{process_event, wait_millis};

#[test]
fn wait_is_scale_times_elapsed_seconds() {
    assert_eq!(wait_millis(1000, 5, 8), 3000);
    assert_eq!(wait_millis(250, 100, 104), 1000);
    assert_eq!(wait_millis(1, 1, 2), 1);
}

#[test]
fn wait_is_zero_without_a_previous_event() {
    assert_eq!(wait_millis(1000, 0, 8), 0);
    assert_eq!(wait_millis(u64::MAX, 0, i32::MAX), 0);
}

#[test]
fn wait_is_zero_when_pacing_is_off() {
    assert_eq!(wait_millis(0, 5, 8), 0);
    assert_eq!(wait_millis(0, i32::MIN, i32::MAX), 0);
}

#[test]
fn wait_is_zero_when_time_goes_backwards() {
    assert_eq!(wait_millis(1000, 8, 5), 0);
    assert_eq!(wait_millis(1000, 8, 8), 0);
    assert_eq!(wait_millis(1000, i32::MAX, i32::MIN), 0);
}

#[test]
fn wait_covers_the_widest_gap_without_wrapping() {
    assert_eq!(wait_millis(1000, i32::MIN, i32::MAX), 4_294_967_295_000);
    assert_eq!(wait_millis(1000, -1, 1), 2000);
}

#[test]
fn wait_holds_at_the_largest_value() {
    assert_eq!(wait_millis(u64::MAX, 1, 3), u64::MAX);
    assert_eq!(wait_millis(u64::MAX, 1, 2), u64::MAX);
    assert_eq!(wait_millis(u64::MAX / 2 + 1, 1, 3), u64::MAX);
    assert_eq!(wait_millis(u64::MAX / 2, 1, 3), u64::MAX - 1);
}

#[test]
fn process_event_gives_wait_and_single_event_aggregate() {
    let event = Event { timestamp: 107, size_bytes: 64 };
    let (wait, aggregate) = process_event(&event, 500, 100);
    assert_eq!(wait, 3500);
    assert_eq!(
        aggregate,
        AccessLogAggregate {
            bucket_start: 107,
            span_seconds: 0,
            close_deadline: 137,
            total_bytes: 64,
            is_closed: false,
        }
    );
}

#[test]
fn process_event_first_event_owes_no_wait() {
    let event = Event { timestamp: 107, size_bytes: 64 };
    let (wait, aggregate) = process_event(&event, 500, 0);
    assert_eq!(wait, 0);
    assert_eq!(aggregate.bucket_start, 107);
    assert_eq!(aggregate.total_bytes, 64);
}
