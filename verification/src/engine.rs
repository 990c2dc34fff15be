//! The bucket aggregation engine: live buckets of one width, filled by
//! events and closed by the events that pass their deadlines.

use crate::aggregate::{AccessLogAggregate, BucketSummary, Event};
use crate::buckets::{
    accumulate, evict_closed, filled, find_bucket, has_bucket, is_due, is_first_at, is_open,
    spec_bucket_key, spec_closed_by, spec_update_stats, swept, to_summary, update_stats,
    with_bucket,
};
use crate::config::ConfigError;
use vstd::prelude::*;

verus! {

/// The single-event aggregate that stands for `event`.
pub open spec fn event_aggregate(event: Event) -> AccessLogAggregate {
    AccessLogAggregate::spec_new(0, event.timestamp, Some(event))
}

/// What holds of every live bucket of an engine of `width` seconds: it is
/// open, spans the width, starts on a multiple of it, and its deadline is
/// its end plus the grace period.
pub open spec fn bucket_wf(a: AccessLogAggregate, width: i32) -> bool {
    &&& !a.is_closed
    &&& a.span_seconds == width
    &&& a.deadline_consistent()
    &&& (a.bucket_start as int) % (width as int) == 0
}

/// No two aggregates of `s` start at the same time.
pub open spec fn distinct_starts(s: Seq<AccessLogAggregate>) -> bool {
    forall|i: int, j: int|
        0 <= i < j < s.len() ==> (#[trigger] s[i]).bucket_start != (#[trigger] s[j]).bucket_start
}

/// The invariant of an engine's live buckets.
pub open spec fn live_buckets_wf(s: Seq<AccessLogAggregate>, width: i32) -> bool {
    &&& width > 0
    &&& distinct_starts(s)
    &&& forall|i: int| 0 <= i < s.len() ==> bucket_wf(#[trigger] s[i], width)
}

/// The live buckets after an engine of `width` seconds ingested `event`.
pub open spec fn spec_ingest(s: Seq<AccessLogAggregate>, event: Event, width: i32) -> Seq<
    AccessLogAggregate,
> {
    spec_update_stats(s, event_aggregate(event), width).filter(is_open())
}

/// The summaries that an engine of `width` seconds emits when it ingests
/// `event`.
pub open spec fn spec_ingest_closed(s: Seq<AccessLogAggregate>, event: Event, width: i32) -> Seq<
    BucketSummary,
> {
    spec_closed_by(s, event_aggregate(event), width)
}

/// Whether `summary` is the summary of some aggregate of `s`.
pub open spec fn summarizes_one_of(s: Seq<AccessLogAggregate>, summary: BucketSummary) -> bool {
    exists|i: int| 0 <= i < s.len() && (#[trigger] s[i]).summary() == summary
}

/// The bucket aggregation engine: the live buckets of one width.
pub struct BucketEngine {
    bucket_size_seconds: i32,
    all_aggregates: Vec<AccessLogAggregate>,
}

impl BucketEngine {
    /// The configured bucket width.
    pub closed spec fn width(&self) -> i32 {
        self.bucket_size_seconds
    }

    /// The live buckets, oldest first.
    pub closed spec fn live(&self) -> Seq<AccessLogAggregate> {
        self.all_aggregates@
    }

    /// The engine's invariant: a positive width, and live buckets that are
    /// open, aligned, of that width, and keyed by distinct starts.
    pub open spec fn wf(&self) -> bool {
        live_buckets_wf(self.live(), self.width())
    }

    /// Creates an engine without buckets. A width of zero or less is
    /// refused.
    pub fn new(bucket_size_seconds: i32) -> (made: Result<BucketEngine, ConfigError>)
        ensures
            made is Ok <==> bucket_size_seconds > 0,
            made matches Ok(engine) ==> engine.wf() && engine.width() == bucket_size_seconds
                && engine.live() == Seq::<AccessLogAggregate>::empty(),
            made matches Err(e) ==> e == ConfigError::InvalidBucketWidth,
    {
        if bucket_size_seconds <= 0 {
            return Err(ConfigError::InvalidBucketWidth);
        }
        Ok(BucketEngine { bucket_size_seconds, all_aggregates: Vec::new() })
    }

    /// Takes one event in: its bytes go to the bucket that holds its
    /// timestamp, every bucket whose deadline the timestamp has passed
    /// closes and leaves the engine, and the summaries of those buckets
    /// are returned, oldest bucket first.
    pub fn ingest(&mut self, event: &Event) -> (closed: Vec<BucketSummary>)
        requires
            old(self).wf(),
        ensures
            final(self).wf(),
            final(self).width() == old(self).width(),
            final(self).live() == spec_ingest(old(self).live(), *event, old(self).width()),
            closed@ == spec_ingest_closed(old(self).live(), *event, old(self).width()),
            forall|i: int| 0 <= i < final(self).live().len() ==> !final(self).live()[i].is_closed,
    {
        let agg = AccessLogAggregate::new(0, event.timestamp, Some(event));
        let closed = update_stats(&agg, &mut self.all_aggregates, self.bucket_size_seconds);
        evict_closed(&mut self.all_aggregates);
        proof {
            lemma_ingest_keeps_wf(old(self).live(), *event, old(self).width());
        }
        closed
    }

    /// Closes every live bucket at the end of the stream and returns their
    /// summaries, oldest bucket first. The engine is empty afterwards.
    pub fn flush(&mut self) -> (closed: Vec<BucketSummary>)
        requires
            old(self).wf(),
        ensures
            final(self).wf(),
            final(self).width() == old(self).width(),
            final(self).live() == Seq::<AccessLogAggregate>::empty(),
            closed@ == old(self).live().map_values(to_summary()),
    {
        let mut closed: Vec<BucketSummary> = Vec::new();
        let n = self.all_aggregates.len();
        let mut i: usize = 0;
        while i < n
            invariant
                i <= n,
                n == self.all_aggregates@.len(),
                *self == *old(self),
                closed@ == self.all_aggregates@.take(i as int).map_values(to_summary()),
            decreases n - i,
        {
            let mut current = self.all_aggregates[i];
            let summary = current.close();
            proof {
                let before = self.all_aggregates@.take(i as int);
                assert(self.all_aggregates@.take(i + 1) =~= before.push(self.all_aggregates@[i as int]));
                assert(before.push(self.all_aggregates@[i as int]).map_values(to_summary())
                    =~= before.map_values(to_summary()).push(summary));
            }
            closed.push(summary);
            i += 1;
        }
        proof {
            assert(self.all_aggregates@.take(n as int) =~= self.all_aggregates@);
        }
        self.all_aggregates = Vec::new();
        closed
    }

    /// The configured bucket width in seconds.
    pub fn bucket_size_seconds(&self) -> (width: i32)
        ensures
            width == self.width(),
    {
        self.bucket_size_seconds
    }

    /// The number of live buckets.
    pub fn live_count(&self) -> (count: usize)
        ensures
            count == self.live().len(),
    {
        self.all_aggregates.len()
    }

    /// The live bucket that starts at `key`, if there is one.
    pub fn bucket(&self, key: i32) -> (found: Option<AccessLogAggregate>)
        ensures
            found is Some <==> has_bucket(self.live(), key),
            found matches Some(a) ==> exists|i: int|
                #[trigger] is_first_at(self.live(), key, i) && self.live()[i] == a,
    {
        match find_bucket(&self.all_aggregates, key) {
            Some(i) => {
                assert(is_first_at(self.live(), key, i as int));
                Some(self.all_aggregates[i])
            },
            None => None,
        }
    }
}

/// A bucket start is a multiple of the width, lies between zero and the
/// timestamp, and is less than one width away from the timestamp.
pub proof fn lemma_bucket_key_aligned(timestamp: i32, width: i32)
    requires
        width > 0,
    ensures
        spec_bucket_key(timestamp, width) % (width as int) == 0,
        timestamp >= 0 ==> timestamp - width < spec_bucket_key(timestamp, width) <= timestamp,
        timestamp < 0 ==> timestamp <= spec_bucket_key(timestamp, width) < timestamp + width,
        timestamp >= 0 ==> 0 <= spec_bucket_key(timestamp, width),
        timestamp < 0 ==> spec_bucket_key(timestamp, width) <= 0,
{
    let t = timestamp as int;
    let w = width as int;
    if t >= 0 {
        vstd::arithmetic::div_mod::lemma_fundamental_div_mod(t, w);
        vstd::arithmetic::div_mod::lemma_mod_multiples_basic(t / w, w);
        assert(t - t % w == (t / w) * w) by (nonlinear_arith)
            requires
                t == w * (t / w) + t % w,
        ;
    } else {
        let u = -t;
        vstd::arithmetic::div_mod::lemma_fundamental_div_mod(u, w);
        vstd::arithmetic::div_mod::lemma_mod_multiples_basic(-(u / w), w);
        assert(t + u % w == (-(u / w)) * w) by (nonlinear_arith)
            requires
                u == w * (u / w) + u % w,
                t == -u,
        ;
    }
}

/// Filtering keeps starts distinct, and keeps only aggregates that were
/// there and pass the test.
pub proof fn lemma_filter_distinct(s: Seq<AccessLogAggregate>, pred: spec_fn(
    AccessLogAggregate,
) -> bool)
    requires
        distinct_starts(s),
    ensures
        distinct_starts(s.filter(pred)),
        forall|i: int|
            0 <= i < s.filter(pred).len() ==> s.contains(#[trigger] s.filter(pred)[i]) && pred(
                s.filter(pred)[i],
            ),
    decreases s.len(),
{
    reveal(Seq::filter);
    if s.len() > 0 {
        let rest = s.drop_last();
        lemma_filter_distinct(rest, pred);
        let out = s.filter(pred);
        assert forall|i: int| 0 <= i < out.len() implies s.contains(#[trigger] out[i]) && pred(
            out[i],
        ) by {
            if i < rest.filter(pred).len() {
                let x = rest.filter(pred)[i];
                assert(rest.contains(x));
                let k = choose|k: int| 0 <= k < rest.len() && rest[k] == x;
                assert(s[k] == x);
            } else {
                assert(out[i] == s[s.len() - 1]);
            }
        }
        assert forall|i: int, j: int| 0 <= i < j < out.len() implies (#[trigger] out[i]).bucket_start
            != (#[trigger] out[j]).bucket_start by {
            if j < rest.filter(pred).len() {
            } else {
                let x = rest.filter(pred)[i];
                assert(rest.contains(x));
                let k = choose|k: int| 0 <= k < rest.len() && rest[k] == x;
                assert(s[k] == x);
                assert(out[j] == s[s.len() - 1]);
            }
        }
    }
}

/// Finding or creating the bucket of an aggregate and adding the
/// aggregate to it keeps the invariant of the live buckets.
pub proof fn lemma_filled_wf(s: Seq<AccessLogAggregate>, agg: AccessLogAggregate, width: i32)
    requires
        live_buckets_wf(s, width),
    ensures
        live_buckets_wf(filled(s, agg, width), width),
{
    let key = spec_bucket_key(agg.bucket_start, width) as i32;
    lemma_bucket_key_aligned(agg.bucket_start, width);
    let present = with_bucket(s, key, width);
    assert(live_buckets_wf(present, width));
    let full = filled(s, agg, width);
    assert forall|i: int| 0 <= i < full.len() implies bucket_wf(#[trigger] full[i], width) by {
        assert(bucket_wf(present[i], width));
    }
    assert forall|i: int, j: int| 0 <= i < j < full.len() implies (#[trigger] full[i]).bucket_start
        != (#[trigger] full[j]).bucket_start by {
        assert(present[i].bucket_start != present[j].bucket_start);
    }
}

/// Ingesting an event keeps the invariant of the live buckets.
pub proof fn lemma_ingest_keeps_wf(s: Seq<AccessLogAggregate>, event: Event, width: i32)
    requires
        live_buckets_wf(s, width),
    ensures
        live_buckets_wf(spec_ingest(s, event, width), width),
{
    let agg = event_aggregate(event);
    let full = filled(s, agg, width);
    lemma_filled_wf(s, agg, width);
    let marked = swept(full, agg.bucket_start);
    assert forall|i: int, j: int| 0 <= i < j < marked.len() implies (#[trigger] marked[i]).bucket_start
        != (#[trigger] marked[j]).bucket_start by {
        assert(full[i].bucket_start != full[j].bucket_start);
    }
    lemma_filter_distinct(marked, is_open());
    let out = marked.filter(is_open());
    assert forall|i: int| 0 <= i < out.len() implies bucket_wf(#[trigger] out[i], width) by {
        let x = out[i];
        assert(marked.contains(x));
        let k = choose|k: int| 0 <= k < marked.len() && marked[k] == x;
        assert(bucket_wf(full[k], width));
    }
}

/// An event closes a live bucket if and only if its timestamp lies past
/// the bucket's deadline.
///
/// Of the buckets that stand once the event's bytes are counted, those
/// past their deadline are exactly the ones whose summaries are emitted,
/// and the others are exactly the ones that stay live. Nothing else is
/// emitted and nothing else stays.
pub proof fn lemma_closes_iff_deadline_passed(
    s: Seq<AccessLogAggregate>,
    event: Event,
    width: i32,
)
    requires
        live_buckets_wf(s, width),
    ensures
        ({
            let full = filled(s, event_aggregate(event), width);
            let closed = spec_ingest_closed(s, event, width);
            let live = spec_ingest(s, event, width);
            &&& forall|i: int|
                0 <= i < full.len() ==> (closed.contains((#[trigger] full[i]).summary())
                    <==> event.timestamp > full[i].close_deadline)
            &&& forall|i: int|
                0 <= i < full.len() ==> (live.contains(#[trigger] full[i]) <==> event.timestamp
                    <= full[i].close_deadline)
            &&& forall|j: int| 0 <= j < closed.len() ==> summarizes_one_of(full, #[trigger] closed[j])
            &&& forall|j: int| 0 <= j < live.len() ==> full.contains(#[trigger] live[j])
        }),
{
    let agg = event_aggregate(event);
    let ts = event.timestamp;
    let full = filled(s, agg, width);
    let closed = spec_ingest_closed(s, event, width);
    let live = spec_ingest(s, event, width);
    lemma_filled_wf(s, agg, width);
    let due = full.filter(is_due(ts));
    let marked = swept(full, ts);
    lemma_filter_distinct(full, is_due(ts));
    assert forall|i: int, j: int| 0 <= i < j < marked.len() implies (#[trigger] marked[i]).bucket_start
        != (#[trigger] marked[j]).bucket_start by {
        assert(full[i].bucket_start != full[j].bucket_start);
    }
    lemma_filter_distinct(marked, is_open());
    broadcast use vstd::seq_lib::group_filter_ensures;

    assert forall|i: int| 0 <= i < full.len() implies (closed.contains(
        (#[trigger] full[i]).summary(),
    ) <==> ts > full[i].close_deadline) by {
        assert(bucket_wf(full[i], width));
        if ts > full[i].close_deadline {
            assert(is_due(ts)(full[i]));
            assert(due.contains(full[i]));
            let k = choose|k: int| 0 <= k < due.len() && due[k] == full[i];
            assert(closed[k] == full[i].summary());
        }
        if closed.contains(full[i].summary()) {
            let k = choose|k: int| 0 <= k < closed.len() && closed[k] == full[i].summary();
            assert(full.contains(due[k]) && is_due(ts)(due[k]));
            let m = choose|m: int| 0 <= m < full.len() && full[m] == due[k];
            assert(full[m].bucket_start == full[i].bucket_start);
            assert(m == i);
        }
    }
    assert forall|i: int| 0 <= i < full.len() implies (live.contains(#[trigger] full[i]) <==> ts
        <= full[i].close_deadline) by {
        assert(bucket_wf(full[i], width));
        if ts <= full[i].close_deadline {
            assert(marked[i] == full[i]);
            assert(is_open()(marked[i]));
            assert(live.contains(marked[i]));
        }
        if live.contains(full[i]) {
            let k = choose|k: int| 0 <= k < live.len() && live[k] == full[i];
            assert(marked.contains(live[k]));
            let m = choose|m: int| 0 <= m < marked.len() && marked[m] == live[k];
            assert(marked[m].bucket_start == full[m].bucket_start);
            assert(m == i);
        }
    }
    assert forall|j: int| 0 <= j < closed.len() implies summarizes_one_of(
        full,
        #[trigger] closed[j],
    ) by {
        assert(full.contains(due[j]));
        let m = choose|m: int| 0 <= m < full.len() && full[m] == due[j];
        assert(full[m].summary() == closed[j]);
    }
    assert forall|j: int| 0 <= j < live.len() implies full.contains(#[trigger] live[j]) by {
        assert(marked.contains(live[j]) && is_open()(live[j]));
        let m = choose|m: int| 0 <= m < marked.len() && marked[m] == live[j];
        assert(bucket_wf(full[m], width));
        assert(marked[m] == full[m]);
    }
}

/// The bucket that takes an event's bytes is not closed by that event:
/// it is live once the event is ingested.
pub proof fn lemma_own_bucket_stays_live(s: Seq<AccessLogAggregate>, event: Event, width: i32)
    requires
        live_buckets_wf(s, width),
    ensures
        has_bucket(
            spec_ingest(s, event, width),
            spec_bucket_key(event.timestamp, width) as i32,
        ),
{
    let agg = event_aggregate(event);
    let key = spec_bucket_key(event.timestamp, width) as i32;
    lemma_bucket_key_aligned(event.timestamp, width);
    let present = with_bucket(s, key, width);
    if !has_bucket(s, key) {
        assert(present[present.len() - 1].bucket_start == key);
    }
    let i = choose|i: int| 0 <= i < present.len() && (#[trigger] present[i]).bucket_start == key;
    let full = filled(s, agg, width);
    assert(full[i].bucket_start == key);
    lemma_filled_wf(s, agg, width);
    assert(bucket_wf(full[i], width));
    lemma_closes_iff_deadline_passed(s, event, width);
    let live = spec_ingest(s, event, width);
    assert(live.contains(full[i]));
    let k = choose|k: int| 0 <= k < live.len() && live[k] == full[i];
    assert(live[k].bucket_start == key);
}

/// The first event that an engine takes in opens its bucket and closes
/// nothing.
pub proof fn lemma_fresh_engine_closes_nothing(event: Event, width: i32)
    requires
        width > 0,
    ensures
        spec_ingest_closed(Seq::empty(), event, width) == Seq::<BucketSummary>::empty(),
        spec_ingest(Seq::empty(), event, width) == seq![
            AccessLogAggregate::spec_new(
                width,
                spec_bucket_key(event.timestamp, width) as i32,
                None,
            ).spec_add(event_aggregate(event)),
        ],
{
    reveal(Seq::filter);
    let agg = event_aggregate(event);
    let key = spec_bucket_key(event.timestamp, width) as i32;
    lemma_bucket_key_aligned(event.timestamp, width);
    let empty = Seq::<AccessLogAggregate>::empty();
    let bucket = AccessLogAggregate::spec_new(width, key, None);
    let present = with_bucket(empty, key, width);
    assert(present =~= seq![bucket]);
    assert(is_first_at(present, key, 0));
    let full = filled(empty, agg, width);
    assert(full =~= seq![bucket.spec_add(agg)]);
    assert(!full[0].due_at(event.timestamp));
    assert(full == empty.push(full[0]));
    empty.lemma_filter_push(full[0], is_due(event.timestamp));
    assert(empty.filter(is_due(event.timestamp)) =~= empty);
    assert(spec_ingest_closed(empty, event, width) =~= Seq::<BucketSummary>::empty());
    let marked = swept(full, event.timestamp);
    assert(marked =~= full);
    empty.lemma_filter_push(full[0], is_open());
    assert(empty.filter(is_open()) =~= empty);
}

} // verus!
