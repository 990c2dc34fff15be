//! Fixed-width time buckets: finding the bucket of a timestamp, adding to
//! it, and closing the buckets whose deadline has passed.

use crate::aggregate::{AccessLogAggregate, BucketSummary};
use vstd::prelude::*;

verus! {

/// Start of the bucket of `width` seconds that holds `timestamp`: the
/// timestamp less its remainder by the width, the remainder taking the
/// timestamp's sign.
pub open spec fn spec_bucket_key(timestamp: i32, width: i32) -> int {
    let t = timestamp as int;
    let w = width as int;
    if t >= 0 {
        t - t % w
    } else {
        t + (-t) % w
    }
}

/// Whether some aggregate of `s` starts at `key`.
pub open spec fn has_bucket(s: Seq<AccessLogAggregate>, key: i32) -> bool {
    exists|i: int| 0 <= i < s.len() && (#[trigger] s[i]).bucket_start == key
}

/// Whether `i` is the first position of `s` whose aggregate starts at `key`.
pub open spec fn is_first_at(s: Seq<AccessLogAggregate>, key: i32, i: int) -> bool {
    &&& 0 <= i < s.len()
    &&& s[i].bucket_start == key
    &&& forall|j: int| 0 <= j < i ==> (#[trigger] s[j]).bucket_start != key
}

/// `s` with an empty bucket for `key` appended, unless it holds one.
pub open spec fn with_bucket(s: Seq<AccessLogAggregate>, key: i32, width: i32) -> Seq<
    AccessLogAggregate,
> {
    if has_bucket(s, key) {
        s
    } else {
        s.push(AccessLogAggregate::spec_new(width, key, None))
    }
}

/// `s` with `agg` added into the first aggregate that starts at `key`.
pub open spec fn accumulate(s: Seq<AccessLogAggregate>, key: i32, agg: AccessLogAggregate) -> Seq<
    AccessLogAggregate,
> {
    Seq::new(
        s.len(),
        |i: int|
            if is_first_at(s, key, i) {
                s[i].spec_add(agg)
            } else {
                s[i]
            },
    )
}

/// The buckets after `agg` found its bucket, created on demand, and was
/// added to it; nothing is closed yet.
pub open spec fn filled(s: Seq<AccessLogAggregate>, agg: AccessLogAggregate, width: i32) -> Seq<
    AccessLogAggregate,
> {
    let key = spec_bucket_key(agg.bucket_start, width) as i32;
    accumulate(with_bucket(s, key, width), key, agg)
}

/// The test "closes at `timestamp`", as a predicate on aggregates.
pub open spec fn is_due(timestamp: i32) -> spec_fn(AccessLogAggregate) -> bool {
    |a: AccessLogAggregate| a.due_at(timestamp)
}

/// The test "still open", as a predicate on aggregates.
pub open spec fn is_open() -> spec_fn(AccessLogAggregate) -> bool {
    |a: AccessLogAggregate| !a.is_closed
}

/// The summary of an aggregate, as a function on aggregates.
pub open spec fn to_summary() -> spec_fn(AccessLogAggregate) -> BucketSummary {
    |a: AccessLogAggregate| a.summary()
}

/// `s` with every aggregate that is due at `timestamp` marked closed.
pub open spec fn swept(s: Seq<AccessLogAggregate>, timestamp: i32) -> Seq<AccessLogAggregate> {
    Seq::new(
        s.len(),
        |i: int|
            if s[i].due_at(timestamp) {
                s[i].spec_close()
            } else {
                s[i]
            },
    )
}

/// The summaries of the aggregates of `s` that are due at `timestamp`, in
/// the order in which `s` holds them.
pub open spec fn due_summaries(s: Seq<AccessLogAggregate>, timestamp: i32) -> Seq<BucketSummary> {
    s.filter(is_due(timestamp)).map_values(to_summary())
}

/// The buckets that `update_stats` leaves behind.
pub open spec fn spec_update_stats(
    s: Seq<AccessLogAggregate>,
    agg: AccessLogAggregate,
    width: i32,
) -> Seq<AccessLogAggregate> {
    swept(filled(s, agg, width), agg.bucket_start)
}

/// The summaries that `update_stats` emits.
pub open spec fn spec_closed_by(s: Seq<AccessLogAggregate>, agg: AccessLogAggregate, width: i32)
    -> Seq<BucketSummary> {
    due_summaries(filled(s, agg, width), agg.bucket_start)
}

/// Computes the start of the bucket that holds `timestamp`.
pub fn bucket_key(timestamp: i32, width: i32) -> (key: i32)
    requires
        width > 0,
    ensures
        key == spec_bucket_key(timestamp, width),
{
    timestamp - timestamp % width
}

/// Finds the first aggregate that starts at `key`.
pub fn find_bucket(all_aggregates: &Vec<AccessLogAggregate>, key: i32) -> (slot: Option<usize>)
    ensures
        match slot {
            Some(i) => is_first_at(all_aggregates@, key, i as int),
            None => !has_bucket(all_aggregates@, key),
        },
{
    let mut i: usize = 0;
    while i < all_aggregates.len()
        invariant
            i <= all_aggregates.len(),
            forall|j: int| 0 <= j < i ==> (#[trigger] all_aggregates@[j]).bucket_start != key,
        decreases all_aggregates.len() - i,
    {
        if all_aggregates[i].bucket_start == key {
            return Some(i);
        }
        i += 1;
    }
    None
}

/// Feeds one aggregate into the buckets.
///
/// The bucket that holds the aggregate's start is created if it is not
/// there, and receives the aggregate's bytes. Then every bucket whose
/// deadline the aggregate's start has passed is marked closed. The
/// summaries of the buckets closed by this call are returned in the order
/// in which the buckets stand; the closed buckets themselves stay in the
/// collection.
pub fn update_stats(
    agg: &AccessLogAggregate,
    all_aggregates: &mut Vec<AccessLogAggregate>,
    bucket_size_seconds: i32,
) -> (closed: Vec<BucketSummary>)
    requires
        bucket_size_seconds > 0,
    ensures
        final(all_aggregates)@ == spec_update_stats(
            old(all_aggregates)@,
            *agg,
            bucket_size_seconds,
        ),
        closed@ == spec_closed_by(old(all_aggregates)@, *agg, bucket_size_seconds),
{
    let bucket = bucket_key(agg.bucket_start, bucket_size_seconds);
    let slot: usize = match find_bucket(all_aggregates, bucket) {
        Some(i) => i,
        None => {
            all_aggregates.push(AccessLogAggregate::new(bucket_size_seconds, bucket, None));
            all_aggregates.len() - 1
        },
    };
    let ghost present = with_bucket(old(all_aggregates)@, bucket, bucket_size_seconds);
    assert(all_aggregates@ == present);
    assert(is_first_at(present, bucket, slot as int));
    let mut target = all_aggregates[slot];
    target.add(agg);
    all_aggregates.set(slot, target);
    let ghost full = filled(old(all_aggregates)@, *agg, bucket_size_seconds);
    assert(all_aggregates@ =~= full);

    let mut closed: Vec<BucketSummary> = Vec::new();
    let n = all_aggregates.len();
    let mut i: usize = 0;
    while i < n
        invariant
            i <= n,
            n == full.len(),
            all_aggregates@.len() == n,
            forall|j: int| 0 <= j < i ==> all_aggregates@[j] == swept(full, agg.bucket_start)[j],
            forall|j: int| i <= j < n ==> all_aggregates@[j] == full[j],
            closed@ == due_summaries(full.take(i as int), agg.bucket_start),
        decreases n - i,
    {
        let mut current = all_aggregates[i];
        proof {
            let before = full.take(i as int);
            assert(full.take(i + 1) =~= before.push(full[i as int]));
            before.lemma_filter_push(full[i as int], is_due(agg.bucket_start));
            let kept = before.filter(is_due(agg.bucket_start));
            assert(kept.push(full[i as int]).map_values(to_summary()) =~= kept.map_values(
                to_summary(),
            ).push(full[i as int].summary()));
        }
        if !current.is_closed && agg.bucket_start as i64 > current.close_deadline
            && current.span_seconds != 0 {
            let summary = current.close();
            closed.push(summary);
            all_aggregates.set(i, current);
        }
        i += 1;
    }
    proof {
        assert(full.take(n as int) =~= full);
        assert(all_aggregates@ =~= swept(full, agg.bucket_start));
    }
    closed
}

/// Drops every closed aggregate, keeping the others in their order.
pub fn evict_closed(all_aggregates: &mut Vec<AccessLogAggregate>)
    ensures
        final(all_aggregates)@ == old(all_aggregates)@.filter(is_open()),
{
    let mut kept: Vec<AccessLogAggregate> = Vec::new();
    let n = all_aggregates.len();
    let mut i: usize = 0;
    while i < n
        invariant
            i <= n,
            n == all_aggregates@.len(),
            all_aggregates@ == old(all_aggregates)@,
            kept@ == all_aggregates@.take(i as int).filter(is_open()),
        decreases n - i,
    {
        let current = all_aggregates[i];
        proof {
            let before = all_aggregates@.take(i as int);
            assert(all_aggregates@.take(i + 1) =~= before.push(current));
            before.lemma_filter_push(current, is_open());
        }
        if !current.is_closed {
            kept.push(current);
        }
        i += 1;
    }
    proof {
        assert(all_aggregates@.take(n as int) =~= all_aggregates@);
    }
    *all_aggregates = kept;
}

} // verus!
