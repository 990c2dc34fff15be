use http_log_analysis::aggregate::{AccessLogAggregate, BucketSummary, Event, GRACE_SECONDS};

#[test]
fn grace_period_is_thirty_seconds() {
    assert_eq!(GRACE_SECONDS, 30);
}

#[test]
fn new_without_event_is_an_empty_bucket() {
    let agg = AccessLogAggregate::new(10, 100, None);
    assert_eq!(
        agg,
        AccessLogAggregate {
            bucket_start: 100,
            span_seconds: 10,
            close_deadline: 140,
            total_bytes: 0,
            is_closed: false,
        }
    );
}

#[test]
fn new_with_event_stands_for_that_event() {
    let event = Event { timestamp: 105, size_bytes: 512 };
    let agg = AccessLogAggregate::new(10, 105, Some(&event));
    assert_eq!(
        agg,
        AccessLogAggregate {
            bucket_start: 105,
            span_seconds: 0,
            close_deadline: 135,
            total_bytes: 512,
            is_closed: false,
        }
    );
}

#[test]
fn new_deadline_does_not_wrap_at_the_largest_timestamp() {
    let agg = AccessLogAggregate::new(i32::MAX, i32::MAX, None);
    assert_eq!(agg.close_deadline, 2 * (i32::MAX as i64) + 30);
    let low = AccessLogAggregate::new(i32::MIN, i32::MIN, None);
    assert_eq!(low.close_deadline, 2 * (i32::MIN as i64) + 30);
}

#[test]
fn add_accumulates_bytes_while_open() {
    let mut bucket = AccessLogAggregate::new(10, 100, None);
    let first = AccessLogAggregate::new(0, 101, Some(&Event { timestamp: 101, size_bytes: 7 }));
    let second = AccessLogAggregate::new(0, 102, Some(&Event { timestamp: 102, size_bytes: 35 }));
    bucket.add(&first);
    assert_eq!(bucket.total_bytes, 7);
    bucket.add(&second);
    assert_eq!(bucket.total_bytes, 42);
    assert_eq!(bucket.bucket_start, 100);
    assert_eq!(bucket.span_seconds, 10);
    assert_eq!(bucket.close_deadline, 140);
    assert!(!bucket.is_closed);
}

#[test]
fn add_to_a_closed_aggregate_is_ignored() {
    let mut bucket = AccessLogAggregate::new(10, 100, None);
    let entry = AccessLogAggregate::new(0, 101, Some(&Event { timestamp: 101, size_bytes: 7 }));
    bucket.add(&entry);
    let summary = bucket.close();
    assert_eq!(summary.total_bytes, 7);
    let before = bucket;
    bucket.add(&entry);
    assert_eq!(bucket, before);
    assert_eq!(bucket.total_bytes, 7);
}

#[test]
fn add_holds_at_the_largest_total() {
    let mut bucket = AccessLogAggregate::new(10, 100, None);
    let huge = AccessLogAggregate::new(0, 101, Some(&Event { timestamp: 101, size_bytes: u64::MAX - 1 }));
    let small = AccessLogAggregate::new(0, 102, Some(&Event { timestamp: 102, size_bytes: 5 }));
    bucket.add(&huge);
    assert_eq!(bucket.total_bytes, u64::MAX - 1);
    bucket.add(&small);
    assert_eq!(bucket.total_bytes, u64::MAX);
}

#[test]
fn close_marks_closed_and_reports_the_totals() {
    let mut bucket = AccessLogAggregate::new(10, 100, None);
    let entry = AccessLogAggregate::new(0, 103, Some(&Event { timestamp: 103, size_bytes: 9 }));
    bucket.add(&entry);
    let summary = bucket.close();
    assert_eq!(summary, BucketSummary { bucket_start: 100, span_seconds: 10, total_bytes: 9 });
    assert!(bucket.is_closed);
    assert_eq!(bucket.total_bytes, 9);
}

#[test]
fn closing_twice_changes_nothing() {
    let mut bucket = AccessLogAggregate::new(10, 100, None);
    let first = bucket.close();
    let after_first = bucket;
    let second = bucket.close();
    assert_eq!(first, second);
    assert_eq!(bucket, after_first);
}
