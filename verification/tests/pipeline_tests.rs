use http_log_analysis::aggregate::{BucketSummary, Event};
use http_log_analysis::config::ConfigError;
use http_log_analysis::monitor::AlertNotification;
use http_log_analysis::pipeline::{process, Pipeline, StepReport};

type Record = Result<Event, String>;

fn events(stamps: &[i32]) -> Vec<Event> {
    stamps.iter().map(|&timestamp| Event { timestamp, size_bytes: 1 }).collect()
}

fn records(events: &[Event]) -> Vec<Record> {
    events.iter().map(|e| Ok(*e)).collect()
}

fn delivered(report: StepReport) -> Option<StepReport> {
    Some(report)
}

fn busy_log() -> Vec<Event> {
    let mut log = Vec::new();
    for t in 1..=12 {
        log.push(Event { timestamp: t, size_bytes: 10 });
        log.push(Event { timestamp: t, size_bytes: 5 });
    }
    for t in 13..=60 {
        log.push(Event { timestamp: t, size_bytes: 1 });
    }
    log
}

#[test]
fn process_refuses_invalid_values_in_order() {
    let log = records(&events(&[1, 2, 3]));
    assert_eq!(process(&log, 0, 0, 10, 20), Err(ConfigError::InvalidBucketWidth));
    assert_eq!(process(&log, 0, -3, 0, 0), Err(ConfigError::InvalidBucketWidth));
    assert_eq!(process(&log, 0, 10, 0, 20), Err(ConfigError::InvalidAlertWindow));
    assert_eq!(process(&log, 0, 10, -1, 0), Err(ConfigError::InvalidAlertWindow));
    assert_eq!(process(&log, 0, 10, 10, 0), Err(ConfigError::InvalidAlertThreshold));
    assert!(process(&log, 0, 1, 1, 1).is_ok());
}

#[test]
fn pipeline_new_refuses_what_process_refuses() {
    assert!(matches!(Pipeline::new(0, 0, 10, 20), Err(ConfigError::InvalidBucketWidth)));
    assert!(matches!(Pipeline::new(0, 10, 0, 20), Err(ConfigError::InvalidAlertWindow)));
    assert!(matches!(Pipeline::new(0, 10, 10, 0), Err(ConfigError::InvalidAlertThreshold)));
    assert!(Pipeline::new(u64::MAX, i32::MAX, i32::MAX, u64::MAX).is_ok());
}

#[test]
fn process_of_no_events_reports_nothing() {
    let nothing: Vec<Record> = Vec::new();
    assert_eq!(process(&nothing, 1000, 10, 10, 20), Ok(Vec::new()));
}

#[test]
fn a_single_event_closes_no_bucket_and_raises_no_alert() {
    for timestamp in [i32::MIN, -7, 0, 1, 1_600_000_000, i32::MAX] {
        let log = records(&[Event { timestamp, size_bytes: 99 }]);
        assert_eq!(
            process(&log, 1000, 10, 1, 1),
            Ok(vec![delivered(StepReport { wait_millis: 0, closed: Vec::new(), alert: None })])
        );
    }
}

#[test]
fn process_reports_each_step() {
    let log = records(&events(&[100, 105, 109, 121, 120, 141]));
    let reports = process(&log, 100, 10, 1000, 20);
    assert_eq!(
        reports,
        Ok(vec![
            delivered(StepReport { wait_millis: 0, closed: Vec::new(), alert: None }),
            delivered(StepReport { wait_millis: 500, closed: Vec::new(), alert: None }),
            delivered(StepReport { wait_millis: 400, closed: Vec::new(), alert: None }),
            delivered(StepReport { wait_millis: 1200, closed: Vec::new(), alert: None }),
            delivered(StepReport { wait_millis: 0, closed: Vec::new(), alert: None }),
            delivered(StepReport {
                wait_millis: 2100,
                closed: vec![BucketSummary { bucket_start: 100, span_seconds: 10, total_bytes: 3 }],
                alert: None,
            }),
        ])
    );
}

#[test]
fn process_reports_alerts_and_closed_buckets_of_a_busy_log() {
    let reports: Vec<StepReport> = match process(&records(&busy_log()), 0, 10, 10, 20) {
        Ok(reports) => reports.into_iter().flatten().collect(),
        Err(e) => panic!("refused: {:?}", e),
    };
    assert_eq!(reports.len(), 72);

    let alerts: Vec<(usize, AlertNotification)> = reports
        .iter()
        .enumerate()
        .filter_map(|(i, r)| r.alert.map(|a| (i, a)))
        .collect();
    assert_eq!(
        alerts,
        vec![
            (
                20,
                AlertNotification::Triggered {
                    rate_tenths: 21,
                    timestamp: 11,
                    window_size_seconds: 10,
                    entry_count: 21,
                    alert_threshold_tenths: 20,
                }
            ),
            (25, AlertNotification::Resolved { rate_tenths: 20, timestamp: 14 }),
        ]
    );

    let closed: Vec<(usize, BucketSummary)> = reports
        .iter()
        .enumerate()
        .flat_map(|(i, r)| r.closed.iter().map(move |c| (i, *c)))
        .collect();
    assert_eq!(
        closed,
        vec![
            (52, BucketSummary { bucket_start: 0, span_seconds: 10, total_bytes: 135 }),
            (62, BucketSummary { bucket_start: 10, span_seconds: 10, total_bytes: 52 }),
        ]
    );
    assert!(reports.iter().all(|r| r.wait_millis == 0));
}

#[test]
fn replaying_the_same_events_gives_the_same_reports() {
    let log = records(&busy_log());
    let first = process(&log, 250, 10, 10, 20);
    let second = process(&log, 250, 10, 10, 20);
    assert!(first.is_ok());
    assert_eq!(first, second);

    let copy: Vec<Record> = log.iter().cloned().collect();
    assert_eq!(process(&copy, 250, 10, 10, 20), first);
}

#[test]
fn malformed_records_are_passed_over() {
    let clean = records(&events(&[100, 105, 109, 121, 120, 141]));
    let mut dirty: Vec<Record> = Vec::new();
    dirty.push(Err(String::from("line 1")));
    for (i, record) in clean.iter().enumerate() {
        dirty.push(record.clone());
        if i % 2 == 1 {
            dirty.push(Err(format!("after {}", i)));
        }
    }
    assert_eq!(dirty.len(), 10);
    let clean_reports = match process(&clean, 100, 10, 1000, 20) {
        Ok(reports) => reports,
        Err(e) => panic!("refused: {:?}", e),
    };
    let dirty_reports = match process(&dirty, 100, 10, 1000, 20) {
        Ok(reports) => reports,
        Err(e) => panic!("refused: {:?}", e),
    };
    assert_eq!(dirty_reports.len(), 10);
    for (record, report) in dirty.iter().zip(dirty_reports.iter()) {
        assert_eq!(record.is_ok(), report.is_some());
    }
    let kept: Vec<Option<StepReport>> =
        dirty_reports.into_iter().filter(|r| r.is_some()).collect();
    assert_eq!(kept, clean_reports);
}

#[test]
fn only_malformed_records_report_nothing() {
    let log: Vec<Record> = vec![Err(String::from("a")), Err(String::from("b"))];
    assert_eq!(process(&log, 100, 10, 10, 20), Ok(vec![None, None]));
}

#[test]
fn deliver_passes_over_an_error_and_changes_nothing() {
    let mut pipeline = match Pipeline::new(1000, 10, 10, 20) {
        Ok(pipeline) => pipeline,
        Err(e) => panic!("refused: {:?}", e),
    };
    let good: Record = Ok(Event { timestamp: 50, size_bytes: 1 });
    let bad: Record = Err(String::from("unreadable"));
    assert_eq!(
        pipeline.deliver(&good),
        Some(StepReport { wait_millis: 0, closed: Vec::new(), alert: None })
    );
    assert_eq!(pipeline.deliver(&bad), None);
    assert_eq!(pipeline.live_count(), 1);
    let next: Record = Ok(Event { timestamp: 52, size_bytes: 1 });
    assert_eq!(
        pipeline.deliver(&next),
        Some(StepReport { wait_millis: 2000, closed: Vec::new(), alert: None })
    );
}

#[test]
fn stepping_gives_what_process_gives() {
    let log = busy_log();
    let expected: Vec<StepReport> = match process(&records(&log), 250, 10, 10, 20) {
        Ok(reports) => reports.into_iter().flatten().collect(),
        Err(e) => panic!("refused: {:?}", e),
    };
    let mut pipeline = match Pipeline::new(250, 10, 10, 20) {
        Ok(pipeline) => pipeline,
        Err(e) => panic!("refused: {:?}", e),
    };
    let mut stepped = Vec::new();
    for event in &log {
        stepped.push(pipeline.step(event));
    }
    assert_eq!(stepped, expected);
    assert!(!pipeline.alert_triggered());
    assert_eq!(pipeline.times_alert_triggered(), 1);
    assert_eq!(pipeline.live_count(), 5);
}

#[test]
fn pipeline_paces_by_the_previous_event() {
    let mut pipeline = match Pipeline::new(1000, 10, 10, 20) {
        Ok(pipeline) => pipeline,
        Err(e) => panic!("refused: {:?}", e),
    };
    assert_eq!(pipeline.step(&Event { timestamp: 50, size_bytes: 1 }).wait_millis, 0);
    assert_eq!(pipeline.step(&Event { timestamp: 53, size_bytes: 1 }).wait_millis, 3000);
    assert_eq!(pipeline.step(&Event { timestamp: 51, size_bytes: 1 }).wait_millis, 0);
    assert_eq!(pipeline.step(&Event { timestamp: 52, size_bytes: 1 }).wait_millis, 1000);
    assert_eq!(pipeline.step(&Event { timestamp: 0, size_bytes: 1 }).wait_millis, 0);
    assert_eq!(pipeline.step(&Event { timestamp: 9, size_bytes: 1 }).wait_millis, 0);
    assert_eq!(pipeline.step(&Event { timestamp: 10, size_bytes: 1 }).wait_millis, 1000);
}

#[test]
fn pipeline_flush_closes_what_is_left() {
    let mut pipeline = match Pipeline::new(0, 10, 10, 20) {
        Ok(pipeline) => pipeline,
        Err(e) => panic!("refused: {:?}", e),
    };
    for event in events(&[100, 105, 109, 121]) {
        pipeline.step(&event);
    }
    assert_eq!(pipeline.live_count(), 2);
    assert_eq!(
        pipeline.flush(),
        vec![
            BucketSummary { bucket_start: 100, span_seconds: 10, total_bytes: 3 },
            BucketSummary { bucket_start: 120, span_seconds: 10, total_bytes: 1 },
        ]
    );
    assert_eq!(pipeline.live_count(), 0);
    assert_eq!(pipeline.flush(), Vec::<BucketSummary>::new());
}
