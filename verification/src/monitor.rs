//! The sliding-window alert monitor.
//!
//! Rates and thresholds are whole numbers of tenths of an event per
//! second: the resolution to which a rate is rounded before it is judged.

use crate::aggregate::AccessLogAggregate;
use crate::config::ConfigError;
use vstd::prelude::*;

verus! {

/// What the monitor reports when the alert changes state.
#[derive(Clone, Copy, Debug, PartialEq, Eq, Structural)]
pub enum AlertNotification {
    /// Traffic rose above the threshold.
    Triggered {
        rate_tenths: u128,
        timestamp: i32,
        window_size_seconds: i64,
        entry_count: usize,
        alert_threshold_tenths: u64,
    },
    /// Traffic fell back to the threshold or below.
    Resolved { rate_tenths: u128, timestamp: i32 },
}

/// The monitor as a mathematical value.
pub struct MonitorView {
    /// Timestamps in the window, in order of arrival.
    pub window: Seq<i32>,
    pub window_size_seconds: int,
    pub min_window_size_seconds: i32,
    pub alert_threshold_tenths: u64,
    pub alert_triggered: bool,
    pub times_alert_triggered: u64,
}

/// The timestamps of a window as integers.
pub open spec fn timestamps(window: Seq<i32>) -> Seq<int> {
    window.map_values(|t: i32| t as int)
}

/// Seconds between the oldest and the newest timestamp of a window; zero
/// for an empty one.
pub open spec fn window_span(window: Seq<i32>) -> int {
    timestamps(window).max() - timestamps(window).min()
}

/// The test "not before `cutoff`", as a predicate on timestamps.
pub open spec fn not_before(cutoff: int) -> spec_fn(i32) -> bool {
    |t: i32| t >= cutoff
}

/// The window after an entry at `timestamp` arrived: entries more than
/// `min_window` seconds older than it are gone, and it stands last.
pub open spec fn spec_window_after(window: Seq<i32>, timestamp: i32, min_window: i32) -> Seq<i32> {
    window.filter(not_before(timestamp - min_window)).push(timestamp)
}

/// Ten times `count / span`, rounded to the nearest whole number, halves
/// upwards: the rate in tenths of an event per second.
pub open spec fn spec_rate_tenths(count: nat, span: int) -> int {
    (20 * count + span) / (2 * span)
}

/// `count`, one higher, but never past the largest representable count.
pub open spec fn bumped(count: u64) -> u64 {
    if count < u64::MAX {
        (count + 1) as u64
    } else {
        count
    }
}

/// The monitor's invariant: window and threshold are positive, the stored
/// size is the span of the window, and no entry is more than the minimum
/// window older than the one that arrived last.
pub open spec fn monitor_wf(v: MonitorView) -> bool {
    &&& v.min_window_size_seconds > 0
    &&& v.alert_threshold_tenths > 0
    &&& v.window_size_seconds == window_span(v.window)
    &&& forall|i: int|
        0 <= i < v.window.len() ==> (#[trigger] v.window[i]) >= v.window.last()
            - v.min_window_size_seconds
}

/// The monitor after it judged a rate above the threshold, and what it
/// reports: the alert is raised only if it was not raised already.
pub open spec fn spec_trigger(v: MonitorView, rate_tenths: u128, timestamp: i32) -> (
    MonitorView,
    Option<AlertNotification>,
) {
    if v.alert_triggered {
        (v, None)
    } else {
        (
            MonitorView {
                alert_triggered: true,
                times_alert_triggered: bumped(v.times_alert_triggered),
                ..v
            },
            Some(
                AlertNotification::Triggered {
                    rate_tenths,
                    timestamp,
                    window_size_seconds: v.window_size_seconds as i64,
                    entry_count: v.window.len() as usize,
                    alert_threshold_tenths: v.alert_threshold_tenths,
                },
            ),
        )
    }
}

/// The monitor after it judged a rate at or below the threshold, and what
/// it reports: the alert is cleared only if it was raised.
pub open spec fn spec_resolve(v: MonitorView, rate_tenths: u128, timestamp: i32) -> (
    MonitorView,
    Option<AlertNotification>,
) {
    if v.alert_triggered {
        (
            MonitorView { alert_triggered: false, ..v },
            Some(AlertNotification::Resolved { rate_tenths, timestamp }),
        )
    } else {
        (v, None)
    }
}

/// The monitor after it judged the rate of its window at `timestamp`.
pub open spec fn spec_evaluate(v: MonitorView, timestamp: i32) -> (
    MonitorView,
    Option<AlertNotification>,
) {
    let rate = spec_rate_tenths(v.window.len(), v.window_size_seconds) as u128;
    if rate > v.alert_threshold_tenths {
        spec_trigger(v, rate, timestamp)
    } else {
        spec_resolve(v, rate, timestamp)
    }
}

/// The monitor after the window took in an entry at `timestamp`.
pub open spec fn spec_update_window(v: MonitorView, timestamp: i32) -> MonitorView {
    let window = spec_window_after(v.window, timestamp, v.min_window_size_seconds);
    MonitorView { window, window_size_seconds: window_span(window), ..v }
}

/// The monitor after it observed an entry at `timestamp`, and what it
/// reports. The rate is judged only once the window spans the minimum.
pub open spec fn spec_update(v: MonitorView, timestamp: i32) -> (
    MonitorView,
    Option<AlertNotification>,
) {
    let moved = spec_update_window(v, timestamp);
    if moved.window_size_seconds >= moved.min_window_size_seconds {
        spec_evaluate(moved, timestamp)
    } else {
        (moved, None)
    }
}

/// Computes the seconds between the oldest and the newest timestamp.
pub fn span_of(window: &Vec<i32>) -> (span: i64)
    ensures
        span == window_span(window@),
        0 <= span <= u32::MAX,
{
    let ghost stamps = timestamps(window@);
    if window.len() == 0 {
        return 0;
    }
    let mut oldest: i32 = window[0];
    let mut newest: i32 = window[0];
    let mut i: usize = 1;
    while i < window.len()
        invariant
            1 <= i <= window.len(),
            stamps == timestamps(window@),
            exists|k: int| 0 <= k < i && (#[trigger] window@[k]) == oldest,
            exists|k: int| 0 <= k < i && (#[trigger] window@[k]) == newest,
            forall|j: int| 0 <= j < i ==> oldest <= (#[trigger] window@[j]) && window@[j] <= newest,
        decreases window.len() - i,
    {
        let t = window[i];
        if t < oldest {
            oldest = t;
        }
        if t > newest {
            newest = t;
        }
        i += 1;
    }
    proof {
        stamps.max_ensures();
        stamps.min_ensures();
        let k_old = choose|k: int| 0 <= k < window@.len() && window@[k] == oldest;
        let k_new = choose|k: int| 0 <= k < window@.len() && window@[k] == newest;
        assert(stamps[k_old] == oldest);
        assert(stamps[k_new] == newest);
        let top = stamps.max();
        let bottom = stamps.min();
        assert(stamps.contains(top));
        assert(stamps.contains(bottom));
        let k_top = choose|k: int| 0 <= k < stamps.len() && stamps[k] == top;
        let k_bottom = choose|k: int| 0 <= k < stamps.len() && stamps[k] == bottom;
        assert(window@[k_top] == top);
        assert(window@[k_bottom] == bottom);
    }
    newest as i64 - oldest as i64
}

/// Computes the rate in tenths of an event per second: ten times
/// `entry_count / window_size_seconds`, rounded to the nearest whole
/// number, halves upwards.
pub fn rate_tenths(entry_count: usize, window_size_seconds: i64) -> (rate: u128)
    requires
        window_size_seconds > 0,
    ensures
        rate == spec_rate_tenths(entry_count as nat, window_size_seconds as int),
{
    let count = entry_count as u128;
    let span = window_size_seconds as u128;
    (20 * count + span) / (2 * span)
}

/// A monitor over a sliding window of recent entries.
pub struct AccessLogMonitor {
    window_size_seconds: i64,
    min_window_size_seconds: i32,
    alert_threshold_tenths: u64,
    alert_triggered: bool,
    times_alert_triggered: u64,
    window: Vec<i32>,
}

impl View for AccessLogMonitor {
    type V = MonitorView;

    closed spec fn view(&self) -> MonitorView {
        MonitorView {
            window: self.window@,
            window_size_seconds: self.window_size_seconds as int,
            min_window_size_seconds: self.min_window_size_seconds,
            alert_threshold_tenths: self.alert_threshold_tenths,
            alert_triggered: self.alert_triggered,
            times_alert_triggered: self.times_alert_triggered,
        }
    }
}

impl AccessLogMonitor {
    /// The monitor's invariant.
    pub open spec fn wf(&self) -> bool {
        monitor_wf(self@)
    }

    /// The monitor that `new` builds from valid values.
    pub open spec fn spec_new(window_size_seconds: i32, threshold_tenths: u64) -> MonitorView {
        MonitorView {
            window: Seq::empty(),
            window_size_seconds: 0,
            min_window_size_seconds: window_size_seconds,
            alert_threshold_tenths: threshold_tenths,
            alert_triggered: false,
            times_alert_triggered: 0,
        }
    }

    /// Creates a monitor in the normal state with an empty window.
    ///
    /// `window_size_seconds` is the span that the window must reach before
    /// a rate is judged; `threshold_tenths` is the rate, in tenths of an
    /// event per second, above which the alert is raised. A window of zero
    /// or less is refused, and so is a threshold of zero.
    pub fn new(window_size_seconds: i32, threshold_tenths: u64) -> (made: Result<
        AccessLogMonitor,
        ConfigError,
    >)
        ensures
            made is Ok <==> window_size_seconds > 0 && threshold_tenths > 0,
            made matches Ok(monitor) ==> monitor.wf() && monitor@ == Self::spec_new(
                window_size_seconds,
                threshold_tenths,
            ),
            made matches Err(e) ==> e == (if window_size_seconds <= 0 {
                ConfigError::InvalidAlertWindow
            } else {
                ConfigError::InvalidAlertThreshold
            }),
    {
        if window_size_seconds <= 0 {
            return Err(ConfigError::InvalidAlertWindow);
        }
        if threshold_tenths == 0 {
            return Err(ConfigError::InvalidAlertThreshold);
        }
        let monitor = AccessLogMonitor {
            window_size_seconds: 0,
            min_window_size_seconds: window_size_seconds,
            alert_threshold_tenths: threshold_tenths,
            alert_triggered: false,
            times_alert_triggered: 0,
            window: Vec::new(),
        };
        proof {
            assert(timestamps(monitor@.window) =~= Seq::<int>::empty());
        }
        Ok(monitor)
    }

    /// Observes one entry: moves the window, and once the window spans the
    /// minimum, judges the rate. Returns the notification if the alert
    /// changed state.
    pub fn update(&mut self, aggregate: &AccessLogAggregate) -> (note: Option<AlertNotification>)
        requires
            old(self).wf(),
        ensures
            final(self).wf(),
            (final(self)@, note) == spec_update(old(self)@, aggregate.bucket_start),
    {
        self.update_window(aggregate);
        if self.window_size_seconds >= self.min_window_size_seconds as i64 {
            self.evaluate_alert_conditions(aggregate.bucket_start)
        } else {
            None
        }
    }

    /// Adds the entry to the window, expelling the entries that are more
    /// than the minimum window older than it, and records the span of what
    /// is left.
    pub fn update_window(&mut self, event: &AccessLogAggregate)
        requires
            old(self).wf(),
        ensures
            final(self).wf(),
            final(self)@ == spec_update_window(old(self)@, event.bucket_start),
    {
        let cutoff: i64 = event.bucket_start as i64 - self.min_window_size_seconds as i64;
        let mut kept: Vec<i32> = Vec::new();
        let n = self.window.len();
        let mut i: usize = 0;
        while i < n
            invariant
                i <= n,
                n == self.window@.len(),
                *self == *old(self),
                kept@ == self.window@.take(i as int).filter(not_before(cutoff as int)),
            decreases n - i,
        {
            let t = self.window[i];
            proof {
                let before = self.window@.take(i as int);
                assert(self.window@.take(i + 1) =~= before.push(t));
                before.lemma_filter_push(t, not_before(cutoff as int));
            }
            if t as i64 >= cutoff {
                kept.push(t);
            }
            i += 1;
        }
        proof {
            assert(self.window@.take(n as int) =~= self.window@);
            broadcast use vstd::seq_lib::group_filter_ensures;
            assert(forall|j: int| 0 <= j < kept@.len() ==> (#[trigger] kept@[j]) >= cutoff);
        }
        kept.push(event.bucket_start);
        let span = span_of(&kept);
        self.window = kept;
        self.window_size_seconds = span;
    }

    /// Judges the rate of the window against the threshold and raises or
    /// clears the alert. Returns the notification if the alert changed
    /// state.
    pub fn evaluate_alert_conditions(&mut self, timestamp: i32) -> (note: Option<
        AlertNotification,
    >)
        requires
            old(self).wf(),
            old(self)@.window_size_seconds >= old(self)@.min_window_size_seconds,
        ensures
            final(self).wf(),
            (final(self)@, note) == spec_evaluate(old(self)@, timestamp),
    {
        let rate = rate_tenths(self.window.len(), self.window_size_seconds);
        if rate > self.alert_threshold_tenths as u128 {
            self.trigger_alert(rate, timestamp)
        } else {
            self.resolve_alert(rate, timestamp)
        }
    }

    /// Raises the alert unless it is raised already. Only the change is
    /// reported and counted.
    pub fn trigger_alert(&mut self, rate_tenths: u128, current_time: i32) -> (note: Option<
        AlertNotification,
    >)
        requires
            old(self).wf(),
        ensures
            final(self).wf(),
            (final(self)@, note) == spec_trigger(old(self)@, rate_tenths, current_time),
    {
        if !self.alert_triggered {
            self.alert_triggered = true;
            self.times_alert_triggered = self.times_alert_triggered.saturating_add(1);
            Some(
                AlertNotification::Triggered {
                    rate_tenths,
                    timestamp: current_time,
                    window_size_seconds: self.window_size_seconds,
                    entry_count: self.window.len(),
                    alert_threshold_tenths: self.alert_threshold_tenths,
                },
            )
        } else {
            None
        }
    }

    /// Clears the alert if it is raised. Only the change is reported.
    pub fn resolve_alert(&mut self, rate_tenths: u128, current_time: i32) -> (note: Option<
        AlertNotification,
    >)
        requires
            old(self).wf(),
        ensures
            final(self).wf(),
            (final(self)@, note) == spec_resolve(old(self)@, rate_tenths, current_time),
    {
        if self.alert_triggered {
            self.alert_triggered = false;
            Some(AlertNotification::Resolved { rate_tenths, timestamp: current_time })
        } else {
            None
        }
    }

    /// Whether the alert is raised.
    pub fn alert_triggered(&self) -> (raised: bool)
        ensures
            raised == self@.alert_triggered,
    {
        self.alert_triggered
    }

    /// How many times the alert has been raised.
    pub fn times_alert_triggered(&self) -> (times: u64)
        ensures
            times == self@.times_alert_triggered,
    {
        self.times_alert_triggered
    }

    /// Seconds between the oldest and the newest entry of the window.
    pub fn window_size_seconds(&self) -> (span: i64)
        ensures
            span == self@.window_size_seconds,
    {
        self.window_size_seconds
    }

    /// The number of entries in the window.
    pub fn entry_count(&self) -> (count: usize)
        ensures
            count == self@.window.len(),
    {
        self.window.len()
    }
}


/// The notifications that a monitor starting as `v` emits while it
/// observes the entries at `stamps`, one after the other.
pub open spec fn spec_notifications(v: MonitorView, stamps: Seq<i32>) -> Seq<AlertNotification>
    decreases stamps.len(),
{
    if stamps.len() == 0 {
        Seq::empty()
    } else {
        let (next, note) = spec_update(v, stamps.first());
        let rest = spec_notifications(next, stamps.drop_first());
        match note {
            Some(n) => seq![n] + rest,
            None => rest,
        }
    }
}

/// Whether notifications take turns: no two in a row are of the same
/// kind, and the first one leaves the state `raised`.
pub open spec fn alternates(notes: Seq<AlertNotification>, raised: bool) -> bool {
    &&& notes.len() > 0 ==> (notes[0] is Triggered <==> !raised)
    &&& forall|i: int|
        0 <= i < notes.len() - 1 ==> ((#[trigger] notes[i]) is Triggered <==> notes[i + 1]
            is Resolved)
}

/// One observation changes the alert state exactly when it notifies: a
/// "triggered" takes a monitor from normal to alerting, a "resolved" takes
/// it back, and without a notification the state stays as it was.
pub proof fn lemma_update_is_edge_triggered(v: MonitorView, timestamp: i32)
    ensures
        ({
            let (next, note) = spec_update(v, timestamp);
            &&& note is None ==> next.alert_triggered == v.alert_triggered
            &&& note matches Some(n) ==> (n is Triggered <==> !v.alert_triggered)
            &&& note matches Some(n) ==> (n is Resolved <==> v.alert_triggered)
            &&& note matches Some(n) ==> next.alert_triggered == !v.alert_triggered
        }),
{
}

/// The monitor never emits two "triggered" notifications without a
/// "resolved" between them, nor two "resolved" without a "triggered"
/// between them, whatever it observes.
pub proof fn lemma_notifications_alternate(v: MonitorView, stamps: Seq<i32>)
    ensures
        alternates(spec_notifications(v, stamps), v.alert_triggered),
    decreases stamps.len(),
{
    if stamps.len() > 0 {
        let (next, note) = spec_update(v, stamps.first());
        let rest = spec_notifications(next, stamps.drop_first());
        lemma_update_is_edge_triggered(v, stamps.first());
        lemma_notifications_alternate(next, stamps.drop_first());
        match note {
            Some(n) => {
                let notes = seq![n] + rest;
                assert(notes[0] == n);
                assert forall|i: int| 0 <= i < notes.len() - 1 implies ((#[trigger] notes[i])
                    is Triggered <==> notes[i + 1] is Resolved) by {
                    if i > 0 {
                        assert(notes[i] == rest[i - 1]);
                        assert(notes[i + 1] == rest[i]);
                    } else {
                        assert(notes[1] == rest[0]);
                    }
                }
            },
            None => {},
        }
    }
}

/// The rate in tenths is the whole number nearest to ten times
/// `count / span`: twice the distance between the two is at most one, and
/// a value halfway between two whole numbers goes to the higher.
pub proof fn lemma_rate_is_nearest_tenth(count: nat, span: int)
    requires
        span > 0,
    ensures
        ({
            let rate = spec_rate_tenths(count, span);
            &&& rate >= 0
            &&& 2 * (rate * span) <= 20 * count + span
            &&& 20 * count + span < 2 * ((rate + 1) * span)
        }),
{
    let n = 20 * count + span;
    let d = 2 * span;
    vstd::arithmetic::div_mod::lemma_fundamental_div_mod(n, d);
    vstd::arithmetic::div_mod::lemma_mod_bound(n, d);
    vstd::arithmetic::div_mod::lemma_div_pos_is_pos(n, d);
    let rate = n / d;
    assert(d * rate == 2 * (rate * span)) by (nonlinear_arith)
        requires
            d == 2 * span,
    ;
    assert(2 * ((rate + 1) * span) == d * rate + d) by (nonlinear_arith)
        requires
            d == 2 * span,
    ;
}


/// Observing an entry keeps the monitor's invariant.
pub proof fn lemma_update_keeps_wf(v: MonitorView, timestamp: i32)
    requires
        monitor_wf(v),
    ensures
        monitor_wf(spec_update(v, timestamp).0),
{
    broadcast use vstd::seq_lib::group_filter_ensures;

    let cutoff = timestamp - v.min_window_size_seconds;
    let kept = v.window.filter(not_before(cutoff));
    assert(forall|j: int| 0 <= j < kept.len() ==> (#[trigger] kept[j]) >= cutoff);
    let window = spec_window_after(v.window, timestamp, v.min_window_size_seconds);
    assert(window.last() == timestamp);
    assert forall|i: int| 0 <= i < window.len() implies (#[trigger] window[i]) >= window.last()
        - v.min_window_size_seconds by {
        if i < kept.len() {
            assert(window[i] == kept[i]);
        }
    }
}

/// The first entry that a monitor observes is alone in the window, which
/// then spans no time, so no rate is judged and nothing is reported.
pub proof fn lemma_first_entry_is_quiet(v: MonitorView, timestamp: i32)
    requires
        v.window.len() == 0,
        v.min_window_size_seconds > 0,
    ensures
        spec_update(v, timestamp).1 is None,
        spec_update(v, timestamp).0.window == seq![timestamp],
        spec_update(v, timestamp).0.window_size_seconds == 0,
        spec_update(v, timestamp).0.alert_triggered == v.alert_triggered,
        spec_update(v, timestamp).0.times_alert_triggered == v.times_alert_triggered,
{
    reveal(Seq::filter);
    let window = spec_window_after(v.window, timestamp, v.min_window_size_seconds);
    assert(window =~= seq![timestamp]);
    assert(timestamps(window) =~= seq![timestamp as int]);
}

} // verus!
