//! The whole pipeline: pacing, then the bucket engine and the alert
//! monitor, each fed every event in arrival order.
//!
//! The event source hands over one record per log line: an event, or an
//! error for a line that it could not parse. The pipeline passes over the
//! errors and goes on.

use crate::aggregate::{AccessLogAggregate, BucketSummary, Event};
use crate::buckets::to_summary;
use crate::engine::{
    lemma_fresh_engine_closes_nothing, lemma_ingest_keeps_wf, live_buckets_wf, spec_ingest,
    spec_ingest_closed, BucketEngine,
};
use crate::config::ConfigError;
use crate::monitor::{
    alternates, lemma_first_entry_is_quiet, lemma_notifications_alternate, lemma_update_keeps_wf,
    monitor_wf, spec_notifications, spec_update, AccessLogMonitor, AlertNotification, MonitorView,
};
use crate::pacing::{process_event, spec_wait_millis};
use vstd::prelude::*;

verus! {

/// What one event made the pipeline do.
#[derive(Debug, PartialEq, Eq)]
pub struct StepReport {
    /// Milliseconds that playback waits before the event is delivered.
    pub wait_millis: u64,
    /// Summaries of the buckets that the event closed, oldest bucket first.
    pub closed: Vec<BucketSummary>,
    /// The alert's change of state, if the event caused one.
    pub alert: Option<AlertNotification>,
}

/// A step report as a mathematical value.
pub struct StepView {
    pub wait_millis: u64,
    pub closed: Seq<BucketSummary>,
    pub alert: Option<AlertNotification>,
}

impl View for StepReport {
    type V = StepView;

    open spec fn view(&self) -> StepView {
        StepView { wait_millis: self.wait_millis, closed: self.closed@, alert: self.alert }
    }
}

/// The pipeline as a mathematical value.
pub struct PipelineView {
    pub millis_per_second: u64,
    /// Timestamp of the event delivered last; zero before the first.
    pub current_timestamp: i32,
    pub width: i32,
    pub live: Seq<AccessLogAggregate>,
    pub monitor: MonitorView,
}

/// The pipeline's invariant: that of its engine and that of its monitor.
pub open spec fn pipeline_wf(p: PipelineView) -> bool {
    live_buckets_wf(p.live, p.width) && monitor_wf(p.monitor)
}

/// The pipeline that valid configuration values give, before any event.
pub open spec fn spec_fresh(
    millis_per_second: u64,
    bucket_size_seconds: i32,
    alert_window: i32,
    alert_threshold_tenths: u64,
) -> PipelineView {
    PipelineView {
        millis_per_second,
        current_timestamp: 0,
        width: bucket_size_seconds,
        live: Seq::empty(),
        monitor: AccessLogMonitor::spec_new(alert_window, alert_threshold_tenths),
    }
}

/// The error that configuration values are refused with, if any: the
/// bucket width is judged first, then the alert window, then the
/// threshold.
pub open spec fn spec_config_error(
    bucket_size_seconds: i32,
    alert_window: i32,
    alert_threshold_tenths: u64,
) -> Option<ConfigError> {
    if bucket_size_seconds <= 0 {
        Some(ConfigError::InvalidBucketWidth)
    } else if alert_window <= 0 {
        Some(ConfigError::InvalidAlertWindow)
    } else if alert_threshold_tenths == 0 {
        Some(ConfigError::InvalidAlertThreshold)
    } else {
        None
    }
}

/// The pipeline after one event, and the report of that step.
pub open spec fn spec_step(p: PipelineView, event: Event) -> (PipelineView, StepView) {
    let (monitor, alert) = spec_update(p.monitor, event.timestamp);
    (
        PipelineView {
            current_timestamp: event.timestamp,
            live: spec_ingest(p.live, event, p.width),
            monitor,
            ..p
        },
        StepView {
            wait_millis: spec_wait_millis(
                p.millis_per_second,
                p.current_timestamp,
                event.timestamp,
            ),
            closed: spec_ingest_closed(p.live, event, p.width),
            alert,
        },
    )
}

/// The event that a record of the source carries, if it carries one.
pub open spec fn parsed<E>(record: Result<Event, E>) -> Option<Event> {
    match record {
        Ok(event) => Some(event),
        Err(_) => None,
    }
}

/// The events that the records of the source carry, record by record.
pub open spec fn parsed_all<E>(records: Seq<Result<Event, E>>) -> Seq<Option<Event>> {
    records.map_values(|r: Result<Event, E>| parsed(r))
}

/// The pipeline after one record, and the report of that step: a record
/// without an event is passed over and leaves the pipeline as it was.
pub open spec fn spec_deliver(p: PipelineView, record: Option<Event>) -> (
    PipelineView,
    Option<StepView>,
) {
    match record {
        Some(event) => (spec_step(p, event).0, Some(spec_step(p, event).1)),
        None => (p, None),
    }
}

/// The reports of a run over `records`, one for each record in order;
/// none where the record carries no event.
pub open spec fn spec_run(p: PipelineView, records: Seq<Option<Event>>) -> Seq<Option<StepView>>
    decreases records.len(),
{
    if records.len() == 0 {
        Seq::empty()
    } else {
        let (next, report) = spec_deliver(p, records.first());
        seq![report] + spec_run(next, records.drop_first())
    }
}

/// The pipeline after a run over `records`.
pub open spec fn spec_state_after(p: PipelineView, records: Seq<Option<Event>>) -> PipelineView
    decreases records.len(),
{
    if records.len() == 0 {
        p
    } else {
        spec_state_after(spec_deliver(p, records.first()).0, records.drop_first())
    }
}

/// The view of a report that may be missing.
pub open spec fn report_view(report: Option<StepReport>) -> Option<StepView> {
    match report {
        Some(r) => Some(r@),
        None => None,
    }
}

/// The views of a sequence of reports.
pub open spec fn report_views(reports: Seq<Option<StepReport>>) -> Seq<Option<StepView>> {
    reports.map_values(|r: Option<StepReport>| report_view(r))
}

/// Pacer, bucket engine and alert monitor behind one entry point.
pub struct Pipeline {
    millis_per_second: u64,
    current_timestamp: i32,
    engine: BucketEngine,
    monitor: AccessLogMonitor,
}

impl View for Pipeline {
    type V = PipelineView;

    closed spec fn view(&self) -> PipelineView {
        PipelineView {
            millis_per_second: self.millis_per_second,
            current_timestamp: self.current_timestamp,
            width: self.engine.width(),
            live: self.engine.live(),
            monitor: self.monitor@,
        }
    }
}

impl Pipeline {
    /// The pipeline's invariant.
    pub open spec fn wf(&self) -> bool {
        pipeline_wf(self@)
    }

    /// Creates a pipeline that has seen no event.
    ///
    /// `millis_per_second` is the playback scale (zero switches pacing
    /// off), `bucket_size_seconds` the bucket width, `alert_window` the
    /// span that the monitor's window must reach, `alert_threshold_tenths`
    /// the alert threshold in tenths of an event per second. Nothing is
    /// built unless all of them are valid.
    pub fn new(
        millis_per_second: u64,
        bucket_size_seconds: i32,
        alert_window: i32,
        alert_threshold_tenths: u64,
    ) -> (made: Result<Pipeline, ConfigError>)
        ensures
            match made {
                Ok(pipeline) => spec_config_error(
                    bucket_size_seconds,
                    alert_window,
                    alert_threshold_tenths,
                ) is None && pipeline.wf() && pipeline@ == spec_fresh(
                    millis_per_second,
                    bucket_size_seconds,
                    alert_window,
                    alert_threshold_tenths,
                ),
                Err(e) => spec_config_error(
                    bucket_size_seconds,
                    alert_window,
                    alert_threshold_tenths,
                ) == Some(e),
            },
    {
        let engine = match BucketEngine::new(bucket_size_seconds) {
            Ok(engine) => engine,
            Err(e) => {
                return Err(e);
            },
        };
        let monitor = match AccessLogMonitor::new(alert_window, alert_threshold_tenths) {
            Ok(monitor) => monitor,
            Err(e) => {
                return Err(e);
            },
        };
        Ok(Pipeline { millis_per_second, current_timestamp: 0, engine, monitor })
    }

    /// Takes one event through the pipeline and reports the wait that
    /// playback owes before it, the buckets it closed and the alert's
    /// change of state.
    pub fn step(&mut self, event: &Event) -> (report: StepReport)
        requires
            old(self).wf(),
        ensures
            final(self).wf(),
            (final(self)@, report@) == spec_step(old(self)@, *event),
    {
        let (wait_millis, aggregate) = process_event(
            event,
            self.millis_per_second,
            self.current_timestamp,
        );
        self.current_timestamp = event.timestamp;
        let closed = self.engine.ingest(event);
        let alert = self.monitor.update(&aggregate);
        StepReport { wait_millis, closed, alert }
    }

    /// Takes one record of the event source: an event goes through the
    /// pipeline, an error is passed over and changes nothing.
    pub fn deliver<E>(&mut self, record: &Result<Event, E>) -> (report: Option<StepReport>)
        requires
            old(self).wf(),
        ensures
            final(self).wf(),
            (final(self)@, report_view(report)) == spec_deliver(old(self)@, parsed(*record)),
            record is Err ==> final(self)@ == old(self)@ && report is None,
    {
        match record {
            Ok(event) => Some(self.step(event)),
            Err(_) => None,
        }
    }

    /// Closes every live bucket at the end of the stream and returns their
    /// summaries, oldest bucket first.
    pub fn flush(&mut self) -> (closed: Vec<BucketSummary>)
        requires
            old(self).wf(),
        ensures
            final(self).wf(),
            final(self)@ == (PipelineView { live: Seq::empty(), ..old(self)@ }),
            closed@ == old(self)@.live.map_values(to_summary()),
    {
        self.engine.flush()
    }

    /// The number of live buckets.
    pub fn live_count(&self) -> (count: usize)
        ensures
            count == self@.live.len(),
    {
        self.engine.live_count()
    }

    /// Whether the alert is raised.
    pub fn alert_triggered(&self) -> (raised: bool)
        ensures
            raised == self@.monitor.alert_triggered,
    {
        self.monitor.alert_triggered()
    }

    /// How many times the alert has been raised.
    pub fn times_alert_triggered(&self) -> (times: u64)
        ensures
            times == self@.monitor.times_alert_triggered,
    {
        self.monitor.times_alert_triggered()
    }
}

/// Runs the records of an event source through a pipeline built from the
/// given values and returns one report for each record, in order: none
/// for a record that carries an error. Buckets still open after the last
/// record are not closed. Invalid values are refused before any record is
/// looked at.
pub fn process<E>(
    records: &Vec<Result<Event, E>>,
    millis_per_second: u64,
    bucket_size_seconds: i32,
    alert_window: i32,
    alert_threshold_tenths: u64,
) -> (outcome: Result<Vec<Option<StepReport>>, ConfigError>)
    ensures
        match outcome {
            Ok(reports) => spec_config_error(
                bucket_size_seconds,
                alert_window,
                alert_threshold_tenths,
            ) is None && report_views(reports@) == spec_run(
                spec_fresh(
                    millis_per_second,
                    bucket_size_seconds,
                    alert_window,
                    alert_threshold_tenths,
                ),
                parsed_all(records@),
            ),
            Err(e) => spec_config_error(bucket_size_seconds, alert_window, alert_threshold_tenths)
                == Some(e),
        },
{
    let mut pipeline = match Pipeline::new(
        millis_per_second,
        bucket_size_seconds,
        alert_window,
        alert_threshold_tenths,
    ) {
        Ok(pipeline) => pipeline,
        Err(e) => {
            return Err(e);
        },
    };
    let ghost fresh = pipeline@;
    let ghost all = parsed_all(records@);
    let mut reports: Vec<Option<StepReport>> = Vec::new();
    let n = records.len();
    let mut i: usize = 0;
    proof {
        assert(all.skip(0) =~= all);
        assert(report_views(reports@) + spec_run(fresh, all) =~= spec_run(fresh, all));
    }
    while i < n
        invariant
            i <= n,
            n == records@.len(),
            all == parsed_all(records@),
            pipeline.wf(),
            spec_run(fresh, all) == report_views(reports@) + spec_run(
                pipeline@,
                all.skip(i as int),
            ),
        decreases n - i,
    {
        let ghost before = pipeline@;
        let ghost done = report_views(reports@);
        let report = pipeline.deliver(&records[i]);
        proof {
            let rest = all.skip(i as int);
            let view = report_view(report);
            assert(rest.first() == parsed(records@[i as int]));
            assert(rest.drop_first() =~= all.skip(i + 1));
            assert(spec_run(before, rest) == seq![view] + spec_run(pipeline@, all.skip(i + 1)));
            assert(report_views(reports@.push(report)) =~= done.push(view));
            assert(done + (seq![view] + spec_run(pipeline@, all.skip(i + 1))) =~= done.push(view)
                + spec_run(pipeline@, all.skip(i + 1)));
        }
        reports.push(report);
        i += 1;
    }
    proof {
        assert(all.skip(n as int) =~= Seq::<Option<Event>>::empty());
        assert(report_views(reports@) + Seq::<Option<StepView>>::empty() =~= report_views(
            reports@,
        ));
    }
    Ok(reports)
}

/// The timestamps of the events among a sequence of records, in order.
pub open spec fn event_stamps(records: Seq<Option<Event>>) -> Seq<i32>
    decreases records.len(),
{
    if records.len() == 0 {
        Seq::empty()
    } else {
        let rest = event_stamps(records.drop_first());
        match records.first() {
            Some(event) => seq![event.timestamp] + rest,
            None => rest,
        }
    }
}

/// The notifications among a sequence of reports, in order.
pub open spec fn alerts_of(reports: Seq<Option<StepView>>) -> Seq<AlertNotification>
    decreases reports.len(),
{
    if reports.len() == 0 {
        Seq::empty()
    } else {
        let rest = alerts_of(reports.drop_first());
        match reports.first() {
            Some(StepView { alert: Some(n), .. }) => seq![n] + rest,
            _ => rest,
        }
    }
}

/// One record keeps the pipeline's invariant.
pub proof fn lemma_deliver_keeps_wf(p: PipelineView, record: Option<Event>)
    requires
        pipeline_wf(p),
    ensures
        pipeline_wf(spec_deliver(p, record).0),
{
    if let Some(event) = record {
        lemma_ingest_keeps_wf(p.live, event, p.width);
        lemma_update_keeps_wf(p.monitor, event.timestamp);
    }
}

/// Whatever the records, the pipeline meets its invariant after them: in
/// particular no closed bucket is ever among the live ones.
pub proof fn lemma_run_keeps_wf(p: PipelineView, records: Seq<Option<Event>>)
    requires
        pipeline_wf(p),
    ensures
        pipeline_wf(spec_state_after(p, records)),
        forall|i: int|
            0 <= i < spec_state_after(p, records).live.len() ==> !(#[trigger] spec_state_after(
                p,
                records,
            ).live[i]).is_closed,
    decreases records.len(),
{
    if records.len() > 0 {
        lemma_deliver_keeps_wf(p, records.first());
        lemma_run_keeps_wf(spec_deliver(p, records.first()).0, records.drop_first());
    }
}

/// The test "carries an event", as a predicate on records.
pub open spec fn carries_event() -> spec_fn(Option<Event>) -> bool {
    |r: Option<Event>| r is Some
}

/// The test "is there", as a predicate on reports.
pub open spec fn is_report() -> spec_fn(Option<StepView>) -> bool {
    |r: Option<StepView>| r is Some
}

/// Records without an event leave no trace: the reports of a run, less
/// the missing ones, and the pipeline after it are those of the run over
/// the events alone.
pub proof fn lemma_errors_leave_no_trace(p: PipelineView, records: Seq<Option<Event>>)
    ensures
        spec_run(p, records).filter(is_report()) == spec_run(
            p,
            records.filter(carries_event()),
        ),
        spec_state_after(p, records) == spec_state_after(p, records.filter(carries_event())),
    decreases records.len(),
{
    reveal(Seq::filter);
    if records.len() > 0 {
        let first = records.first();
        let rest = records.drop_first();
        let (next, report) = spec_deliver(p, first);
        let tail = spec_run(next, rest);
        lemma_errors_leave_no_trace(next, rest);
        assert(records =~= seq![first] + rest);
        rest.lemma_filter_prepend(first, carries_event());
        tail.lemma_filter_prepend(report, is_report());
        let events = rest.filter(carries_event());
        if first is Some {
            let kept = seq![first] + events;
            assert(kept.first() == first);
            assert(kept.drop_first() =~= events);
        } else {
            assert(Seq::<Option<Event>>::empty() + events =~= events);
            assert(Seq::<Option<StepView>>::empty() + tail.filter(is_report()) =~= tail.filter(
                is_report(),
            ));
        }
    }
}

/// The notifications of a run are those of its monitor alone, fed the
/// timestamps of the events.
pub proof fn lemma_run_alerts_are_monitor_notifications(
    p: PipelineView,
    records: Seq<Option<Event>>,
)
    ensures
        alerts_of(spec_run(p, records)) == spec_notifications(p.monitor, event_stamps(records)),
    decreases records.len(),
{
    if records.len() > 0 {
        let (next, report) = spec_deliver(p, records.first());
        let tail = spec_run(next, records.drop_first());
        lemma_run_alerts_are_monitor_notifications(next, records.drop_first());
        let run = seq![report] + tail;
        assert(run.first() == report);
        assert(run.drop_first() =~= tail);
        if let Some(event) = records.first() {
            let stamps = seq![event.timestamp] + event_stamps(records.drop_first());
            assert(stamps.first() == event.timestamp);
            assert(stamps.drop_first() =~= event_stamps(records.drop_first()));
        }
    }
}

/// Over a whole run the alert notifications take turns: a "triggered" is
/// never followed by another "triggered" without a "resolved" between
/// them, nor a "resolved" by another "resolved".
pub proof fn lemma_run_alerts_alternate(p: PipelineView, records: Seq<Option<Event>>)
    ensures
        alternates(alerts_of(spec_run(p, records)), p.monitor.alert_triggered),
{
    lemma_run_alerts_are_monitor_notifications(p, records);
    lemma_notifications_alternate(p.monitor, event_stamps(records));
}

/// Replaying a sequence of records through a second pipeline built from
/// the same values gives the same reports, step for step, and leaves the
/// same pipeline behind.
pub proof fn lemma_replay_gives_same_reports(
    millis_per_second: u64,
    bucket_size_seconds: i32,
    alert_window: i32,
    alert_threshold_tenths: u64,
    first: Seq<Option<Event>>,
    second: Seq<Option<Event>>,
)
    requires
        first.len() == second.len(),
        forall|i: int| 0 <= i < first.len() ==> first[i] == second[i],
    ensures
        spec_run(
            spec_fresh(millis_per_second, bucket_size_seconds, alert_window, alert_threshold_tenths),
            first,
        ) == spec_run(
            spec_fresh(millis_per_second, bucket_size_seconds, alert_window, alert_threshold_tenths),
            second,
        ),
        spec_state_after(
            spec_fresh(millis_per_second, bucket_size_seconds, alert_window, alert_threshold_tenths),
            first,
        ) == spec_state_after(
            spec_fresh(millis_per_second, bucket_size_seconds, alert_window, alert_threshold_tenths),
            second,
        ),
{
    assert(first =~= second);
}

/// A run over a single event closes no bucket, raises no alert and owes
/// no wait.
pub proof fn lemma_single_event_is_quiet(
    millis_per_second: u64,
    bucket_size_seconds: i32,
    alert_window: i32,
    alert_threshold_tenths: u64,
    event: Event,
)
    requires
        spec_config_error(bucket_size_seconds, alert_window, alert_threshold_tenths) is None,
    ensures
        spec_run(
            spec_fresh(millis_per_second, bucket_size_seconds, alert_window, alert_threshold_tenths),
            seq![Some(event)],
        ) == seq![
            Some(StepView { wait_millis: 0, closed: Seq::<BucketSummary>::empty(), alert: None }),
        ],
{
    let fresh = spec_fresh(
        millis_per_second,
        bucket_size_seconds,
        alert_window,
        alert_threshold_tenths,
    );
    let records = seq![Some(event)];
    let (next, report) = spec_deliver(fresh, Some(event));
    assert(records.first() == Some(event));
    assert(records.drop_first() =~= Seq::<Option<Event>>::empty());
    assert(spec_run(next, records.drop_first()) == Seq::<Option<StepView>>::empty());
    assert(spec_run(fresh, records) =~= seq![report]);
    lemma_fresh_engine_closes_nothing(event, bucket_size_seconds);
    lemma_first_entry_is_quiet(fresh.monitor, event.timestamp);
}

} // verus!
