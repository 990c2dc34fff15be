//! Events and the byte totals accumulated from them.

use vstd::prelude::*;

verus! {

/// Seconds that a bucket stays open after its nominal end, to absorb
/// events that arrive slightly late.
pub const GRACE_SECONDS: i64 = 30;

/// One parsed access-log record, reduced to what the engine reads.
#[derive(Clone, Copy, Debug, PartialEq, Eq, Structural)]
pub struct Event {
    /// Seconds since the epoch, or logical seconds.
    pub timestamp: i32,
    /// Size of the response body.
    pub size_bytes: u64,
}

/// What a bucket reports when it closes.
#[derive(Clone, Copy, Debug, PartialEq, Eq, Structural)]
pub struct BucketSummary {
    pub bucket_start: i32,
    pub span_seconds: i32,
    pub total_bytes: u64,
}

/// A byte total over a span of time: a single event when `span_seconds`
/// is zero, a time bucket otherwise.
#[derive(Clone, Copy, Debug, PartialEq, Eq, Structural)]
pub struct AccessLogAggregate {
    pub bucket_start: i32,
    pub span_seconds: i32,
    pub close_deadline: i64,
    pub total_bytes: u64,
    pub is_closed: bool,
}

/// The sum of two byte counts, held at the largest representable total
/// when it would pass it.
pub open spec fn saturating_total(a: u64, b: u64) -> u64 {
    if a + b > u64::MAX {
        u64::MAX
    } else {
        (a + b) as u64
    }
}

impl AccessLogAggregate {
    /// The aggregate that `new` builds.
    pub open spec fn spec_new(bucket_size_seconds: i32, bucket: i32, event: Option<Event>)
        -> AccessLogAggregate {
        let span: i32 = if event is Some { 0i32 } else { bucket_size_seconds };
        AccessLogAggregate {
            bucket_start: bucket,
            span_seconds: span,
            close_deadline: (bucket + span + GRACE_SECONDS) as i64,
            total_bytes: if let Some(e) = event { e.size_bytes } else { 0 },
            is_closed: false,
        }
    }

    /// The deadline is the start plus the span plus the grace period.
    pub open spec fn deadline_consistent(self) -> bool {
        self.close_deadline == self.bucket_start + self.span_seconds + GRACE_SECONDS
    }

    /// The aggregate after `other` was added into it: unchanged once
    /// closed, otherwise with the other's bytes on top of its own.
    pub open spec fn spec_add(self, other: AccessLogAggregate) -> AccessLogAggregate {
        if self.is_closed {
            self
        } else {
            AccessLogAggregate {
                total_bytes: saturating_total(self.total_bytes, other.total_bytes),
                ..self
            }
        }
    }

    /// The aggregate after closing.
    pub open spec fn spec_close(self) -> AccessLogAggregate {
        AccessLogAggregate { is_closed: true, ..self }
    }

    /// What the aggregate reports when it closes.
    pub open spec fn summary(self) -> BucketSummary {
        BucketSummary {
            bucket_start: self.bucket_start,
            span_seconds: self.span_seconds,
            total_bytes: self.total_bytes,
        }
    }

    /// Whether an event at `timestamp` closes this aggregate: it is a
    /// bucket, still open, and the timestamp lies past its deadline.
    pub open spec fn due_at(self, timestamp: i32) -> bool {
        !self.is_closed && self.span_seconds != 0 && timestamp > self.close_deadline
    }

    /// Creates an open aggregate starting at `bucket`. With an event it
    /// stands for that event alone (`span_seconds` is zero and the total is
    /// the event's size); without one it is an empty bucket of
    /// `bucket_size_seconds`.
    pub fn new(bucket_size_seconds: i32, bucket: i32, event: Option<&Event>) -> (agg:
        AccessLogAggregate)
        ensures
            agg == Self::spec_new(
                bucket_size_seconds,
                bucket,
                match event {
                    Some(e) => Some(*e),
                    None => None,
                },
            ),
            agg.deadline_consistent(),
            !agg.is_closed,
    {
        let mut span: i32 = bucket_size_seconds;
        let mut total_bytes: u64 = 0;
        if let Some(e) = event {
            span = 0;
            total_bytes = e.size_bytes;
        }
        AccessLogAggregate {
            bucket_start: bucket,
            span_seconds: span,
            close_deadline: bucket as i64 + span as i64 + GRACE_SECONDS,
            total_bytes,
            is_closed: false,
        }
    }

    /// Adds the bytes of `aggregate` to this one. A closed aggregate
    /// ignores the addition.
    pub fn add(&mut self, aggregate: &AccessLogAggregate)
        ensures
            *final(self) == old(self).spec_add(*aggregate),
            old(self).is_closed ==> *final(self) == *old(self),
            final(self).total_bytes >= old(self).total_bytes,
    {
        if self.is_closed {
            return ;
        }
        self.total_bytes = self.total_bytes.saturating_add(aggregate.total_bytes);
    }

    /// Marks the aggregate closed and hands back its summary.
    pub fn close(&mut self) -> (summary: BucketSummary)
        ensures
            *final(self) == old(self).spec_close(),
            summary == old(self).summary(),
    {
        self.is_closed = true;
        BucketSummary {
            bucket_start: self.bucket_start,
            span_seconds: self.span_seconds,
            total_bytes: self.total_bytes,
        }
    }
}


/// Closing is final: a closed aggregate takes no further bytes, closing
/// it again changes nothing, and no later event closes it anew.
pub proof fn lemma_closed_is_final(a: AccessLogAggregate, other: AccessLogAggregate, timestamp: i32)
    ensures
        a.spec_close().spec_add(other) == a.spec_close(),
        a.spec_close().spec_close() == a.spec_close(),
        !a.spec_close().due_at(timestamp),
        a.spec_close().summary() == a.summary(),
{
}

/// While an aggregate is open its total never goes down, and it goes up
/// by exactly what is added as long as the sum can be represented.
pub proof fn lemma_add_grows_total(a: AccessLogAggregate, other: AccessLogAggregate)
    ensures
        a.spec_add(other).total_bytes >= a.total_bytes,
        !a.is_closed && a.total_bytes + other.total_bytes <= u64::MAX ==> a.spec_add(
            other,
        ).total_bytes == a.total_bytes + other.total_bytes,
        a.spec_add(other).bucket_start == a.bucket_start,
        a.spec_add(other).span_seconds == a.span_seconds,
        a.spec_add(other).close_deadline == a.close_deadline,
        a.spec_add(other).is_closed == a.is_closed,
{
}

} // verus!
