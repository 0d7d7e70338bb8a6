//! Spreading flowmeter readings over the hours they cover.
//!
//! A flowmeter reading is a volume measured over an interval. The service
//! reports irrigation per hour: each reading is split at hour boundaries and
//! each hour receives the share of the volume that matches the whole seconds
//! of the reading that fall in it. This module computes, with integers only,
//! which hours are touched, in order, and for every piece of every reading its
//! hour and its whole seconds; the caller weighs the volumes with them.

use vstd::prelude::*;
use crate::time::{
    seconds_between, spec_hour_start, truncate_to_hour, whole_seconds_between, Timestamp,
    LAST_HOUR_START_SECS, SECS_PER_HOUR,
};

verus! {

/// The time span of one flowmeter reading.
#[derive(Clone, Copy, Debug, PartialEq, Eq, Structural)]
pub struct FlowInterval {
    pub start: Timestamp,
    pub stop: Timestamp,
}

/// The part of a reading that falls in one hour: the hour's start, in seconds
/// after the epoch, and the whole seconds of the part.
#[derive(Clone, Copy, Debug, PartialEq, Eq, Structural)]
pub struct HourlySegment {
    pub bucket: i64,
    pub seconds: i64,
}

/// The end of the piece of a reading that starts at `cur`: the next hour
/// boundary, or the reading's stop when that comes first.
pub open spec fn segment_end(cur: Timestamp, stop: Timestamp) -> Timestamp {
    let next = Timestamp { secs: (spec_hour_start(cur.secs as int) + SECS_PER_HOUR) as i64, nanos: 0 };
    if next.precedes(stop) {
        next
    } else {
        stop
    }
}

/// The pieces, hour by hour, of the span from `cur` to `stop`.
pub open spec fn hourly_segments(cur: Timestamp, stop: Timestamp) -> Seq<HourlySegment>
    decreases stop.total_nanos() - cur.total_nanos(),
{
    if cur.wf() && cur.precedes(stop) {
        let end = segment_end(cur, stop);
        seq![HourlySegment { bucket: spec_hour_start(cur.secs as int) as i64, seconds: seconds_between(cur, end) as i64 }]
            + hourly_segments(end, stop)
    } else {
        Seq::empty()
    }
}

/// The pieces of one reading; none when the reading does not stop after it starts.
pub open spec fn interval_segments(e: FlowInterval) -> Seq<HourlySegment> {
    hourly_segments(e.start, e.stop)
}

/// Whole seconds of one reading.
pub open spec fn interval_seconds(e: FlowInterval) -> int {
    seconds_between(e.start, e.stop)
}

/// The start of the last representable hour.
pub open spec fn last_hour_start() -> Timestamp {
    Timestamp { secs: LAST_HOUR_START_SECS, nanos: 0 }
}

/// A reading whose span can be walked hour by hour: both ends are valid
/// instants and, when it stops after it starts, it does not reach into the
/// last representable hour (the hour after that one does not exist).
pub open spec fn walkable(e: FlowInterval) -> bool {
    &&& e.start.wf()
    &&& e.stop.wf()
    &&& e.start.precedes(e.stop) ==> !last_hour_start().precedes(e.stop)
}

proof fn lemma_aligned_gap(a: int, b: int)
    requires
        a % 3600 == 0,
        b % 3600 == 0,
        a < b,
    ensures
        a + 3600 <= b,
{
    vstd::arithmetic::div_mod::lemma_fundamental_div_mod(a, 3600);
    vstd::arithmetic::div_mod::lemma_fundamental_div_mod(b, 3600);
}

/// Splits a reading at hour boundaries: for each hour that the reading
/// touches, in order, the hour's start and the whole seconds of the reading in
/// it. A reading that does not stop after it starts has no pieces.
pub fn split_into_hours(e: FlowInterval) -> (segments: Vec<HourlySegment>)
    requires
        walkable(e),
    ensures
        segments@ == interval_segments(e),
        hour_parts_of(e, segments@),
{
    proof {
        lemma_interval_segments_are_hour_parts(e);
    }
    let mut segments: Vec<HourlySegment> = Vec::new();
    let mut cur = e.start;
    while cur.is_before(&e.stop)
        invariant
            walkable(e),
            cur.wf(),
            segments@ + hourly_segments(cur, e.stop) == hourly_segments(e.start, e.stop),
        decreases e.stop.total_nanos() - cur.total_nanos(),
    {
        let bucket = truncate_to_hour(cur);
        proof {
            assert(LAST_HOUR_START_SECS % 3600 == 0);
            assert(bucket.secs < LAST_HOUR_START_SECS);
            lemma_aligned_gap(bucket.secs as int, LAST_HOUR_START_SECS as int);
        }
        let next = Timestamp { secs: bucket.secs + SECS_PER_HOUR, nanos: 0 };
        let end = if next.is_before(&e.stop) { next } else { e.stop };
        assert(end == segment_end(cur, e.stop));
        let seconds = whole_seconds_between(cur, end);
        let ghost rest = hourly_segments(end, e.stop);
        assert(hourly_segments(cur, e.stop) == seq![HourlySegment { bucket: bucket.secs, seconds }] + rest);
        segments.push(HourlySegment { bucket: bucket.secs, seconds });
        assert(segments@ + rest =~= hourly_segments(e.start, e.stop));
        cur = end;
    }
    assert(hourly_segments(cur, e.stop) == Seq::<HourlySegment>::empty());
    assert(segments@ + Seq::<HourlySegment>::empty() =~= segments@);
    segments
}

/// Total whole seconds of a list of pieces.
pub open spec fn sum_seconds(segs: Seq<HourlySegment>) -> int
    decreases segs.len(),
{
    if segs.len() == 0 {
        0
    } else {
        segs[0].seconds + sum_seconds(segs.drop_first())
    }
}

/// The pieces of a span lie in consecutive hours, starting with the hour of
/// the span's start; each piece covers between zero and 3600 whole seconds;
/// together they cover no more whole seconds than the span, and exactly as
/// many when the span starts on a whole second.
#[verifier::spinoff_prover]
pub proof fn lemma_hourly_segments_cover(cur: Timestamp, stop: Timestamp)
    requires
        walkable(FlowInterval { start: cur, stop }),
    ensures
        ({
            let segs = hourly_segments(cur, stop);
            &&& segs.len() > 0 <==> cur.precedes(stop)
            &&& segs.len() > 0 ==> segs[0].bucket == spec_hour_start(cur.secs as int)
            &&& consecutive_hour_pieces(segs)
            &&& cur.precedes(stop) ==> sum_seconds(segs) <= seconds_between(cur, stop)
            &&& cur.precedes(stop) && cur.nanos == 0 ==> sum_seconds(segs) == seconds_between(
                cur,
                stop,
            )
        }),
    decreases stop.total_nanos() - cur.total_nanos(),
{
    let segs = hourly_segments(cur, stop);
    if cur.precedes(stop) {
        let end = segment_end(cur, stop);
        let h = spec_hour_start(cur.secs as int);
        assert(h % 3600 == 0 && h <= cur.secs < h + 3600) by {
            vstd::arithmetic::div_mod::lemma_fundamental_div_mod(cur.secs as int, 3600);
            vstd::arithmetic::div_mod::lemma_mod_multiples_vanish(
                -(cur.secs as int / 3600),
                cur.secs as int,
                3600,
            );
        }
        if end != stop {
            assert(LAST_HOUR_START_SECS % 3600 == 0);
            lemma_aligned_gap(h, LAST_HOUR_START_SECS as int);
        }
        lemma_hourly_segments_cover(end, stop);
        let rest = hourly_segments(end, stop);
        assert(segs == seq![HourlySegment { bucket: h as i64, seconds: seconds_between(cur, end) as i64 }] + rest);
        assert(segs.drop_first() =~= rest);
        assert(sum_seconds(segs) == seconds_between(cur, end) + sum_seconds(rest));
        if end == stop {
            assert(sum_seconds(rest) == 0);
        }
        if rest.len() > 0 {
            assert(end.precedes(stop));
            assert(end.secs == h + 3600 && end.nanos == 0);
            assert(spec_hour_start(end.secs as int) == h + 3600) by {
                vstd::arithmetic::div_mod::lemma_mod_multiples_vanish(1, h, 3600);
            }
        }
        lemma_pieces_prepend(segs[0], rest);
    }
}

/// Hour-aligned pieces of at most an hour each, in consecutive hours.
pub open spec fn consecutive_hour_pieces(segs: Seq<HourlySegment>) -> bool {
    &&& forall|k: int|
        0 <= k < segs.len() ==> #[trigger] segs[k].bucket % SECS_PER_HOUR == 0 && 0 <= segs[k].seconds
            <= SECS_PER_HOUR
    &&& forall|k: int| 0 < k < segs.len() ==> #[trigger] segs[k].bucket == segs[k - 1].bucket + SECS_PER_HOUR
}

proof fn lemma_pieces_prepend(first: HourlySegment, rest: Seq<HourlySegment>)
    requires
        first.bucket % SECS_PER_HOUR == 0,
        0 <= first.seconds <= SECS_PER_HOUR,
        consecutive_hour_pieces(rest),
        rest.len() > 0 ==> rest[0].bucket == first.bucket + SECS_PER_HOUR,
    ensures
        consecutive_hour_pieces(seq![first] + rest),
{
    let segs = seq![first] + rest;
    assert forall|k: int| 0 <= k < segs.len() implies #[trigger] segs[k].bucket % SECS_PER_HOUR == 0 && 0
        <= segs[k].seconds <= SECS_PER_HOUR by {
        if k > 0 {
            assert(segs[k] == rest[k - 1]);
        }
    }
    assert forall|k: int| 0 < k < segs.len() implies #[trigger] segs[k].bucket == segs[k - 1].bucket
        + SECS_PER_HOUR by {
        assert(segs[k] == rest[k - 1]);
        if k > 1 {
            assert(segs[k - 1] == rest[k - 2]);
            assert(rest[k - 1].bucket == rest[k - 2].bucket + SECS_PER_HOUR);
        }
    }
}

/// Where the part of reading `e` that lies in the hour starting at `bucket`
/// begins: the hour's start, or the reading's start when that is later.
pub open spec fn hour_part_start(e: FlowInterval, bucket: i64) -> Timestamp {
    let hour = Timestamp { secs: bucket, nanos: 0 };
    if hour.precedes(e.start) {
        e.start
    } else {
        hour
    }
}

/// Where the part of a reading that stops at `stop` and lies in the hour
/// starting at `bucket` ends: the hour's end, or the stop when that is earlier.
pub open spec fn hour_part_end(stop: Timestamp, bucket: i64) -> Timestamp {
    let next = Timestamp { secs: (bucket + SECS_PER_HOUR) as i64, nanos: 0 };
    if next.precedes(stop) {
        next
    } else {
        stop
    }
}

/// `segs` are the pieces of reading `e`, one per hour that the reading
/// touches: none when it does not stop after it starts; otherwise hour-aligned
/// consecutive hours from the hour of its start to the hour of the last
/// instant before its stop, each with the whole seconds of the reading's part
/// in that hour.
pub open spec fn hour_parts_of(e: FlowInterval, segs: Seq<HourlySegment>) -> bool {
    if e.start.precedes(e.stop) {
        &&& segs.len() > 0
        &&& segs[0].bucket == spec_hour_start(e.start.secs as int)
        &&& consecutive_hour_pieces(segs)
        &&& Timestamp { secs: segs[segs.len() - 1].bucket, nanos: 0 }.precedes(e.stop)
        &&& !Timestamp { secs: (segs[segs.len() - 1].bucket + SECS_PER_HOUR) as i64, nanos: 0 }.precedes(
            e.stop,
        )
        &&& forall|k: int|
            0 <= k < segs.len() ==> #[trigger] segs[k].seconds == seconds_between(
                hour_part_start(e, segs[k].bucket),
                hour_part_end(e.stop, segs[k].bucket),
            )
    } else {
        segs.len() == 0
    }
}

#[verifier::spinoff_prover]
proof fn lemma_hourly_segments_parts(cur: Timestamp, stop: Timestamp)
    requires
        walkable(FlowInterval { start: cur, stop }),
        cur.precedes(stop),
    ensures
        ({
            let segs = hourly_segments(cur, stop);
            &&& segs.len() > 0
            &&& segs[0].seconds == seconds_between(cur, hour_part_end(stop, segs[0].bucket))
            &&& Timestamp { secs: segs[segs.len() - 1].bucket, nanos: 0 }.precedes(stop)
            &&& !Timestamp { secs: (segs[segs.len() - 1].bucket + SECS_PER_HOUR) as i64, nanos: 0 }.precedes(
                stop,
            )
            &&& forall|k: int|
                0 < k < segs.len() ==> #[trigger] segs[k].seconds == seconds_between(
                    Timestamp { secs: segs[k].bucket, nanos: 0 },
                    hour_part_end(stop, segs[k].bucket),
                )
        }),
    decreases stop.total_nanos() - cur.total_nanos(),
{
    let segs = hourly_segments(cur, stop);
    let end = segment_end(cur, stop);
    let h = spec_hour_start(cur.secs as int);
    lemma_hourly_segments_cover(cur, stop);
    assert(h % 3600 == 0 && h <= cur.secs < h + 3600) by {
        vstd::arithmetic::div_mod::lemma_fundamental_div_mod(cur.secs as int, 3600);
        vstd::arithmetic::div_mod::lemma_mod_multiples_vanish(-(cur.secs as int / 3600), cur.secs as int, 3600);
    }
    if end != stop {
        assert(LAST_HOUR_START_SECS % 3600 == 0);
        lemma_aligned_gap(h, LAST_HOUR_START_SECS as int);
    }
    let rest = hourly_segments(end, stop);
    assert(segs == seq![HourlySegment { bucket: h as i64, seconds: seconds_between(cur, end) as i64 }] + rest);
    assert(segs[0].bucket == h);
    assert(end == hour_part_end(stop, h as i64));
    if rest.len() > 0 {
        lemma_hourly_segments_parts(end, stop);
        lemma_hourly_segments_cover(end, stop);
        assert(end.precedes(stop));
        assert(end.secs == h + 3600 && end.nanos == 0);
        assert(spec_hour_start(end.secs as int) == h + 3600) by {
            vstd::arithmetic::div_mod::lemma_mod_multiples_vanish(1, h, 3600);
        }
        assert(segs[segs.len() - 1] == rest[rest.len() - 1]);
        assert forall|k: int| 0 < k < segs.len() implies #[trigger] segs[k].seconds == seconds_between(
            Timestamp { secs: segs[k].bucket, nanos: 0 },
            hour_part_end(stop, segs[k].bucket),
        ) by {
            assert(segs[k] == rest[k - 1]);
            if k > 1 {
                assert(rest[k - 1].seconds == seconds_between(
                    Timestamp { secs: rest[k - 1].bucket, nanos: 0 },
                    hour_part_end(stop, rest[k - 1].bucket),
                ));
            } else {
                assert(rest[0].bucket == end.secs);
            }
        }
    } else {
        assert(segs.len() == 1);
        assert(!end.precedes(stop));
        let next = Timestamp { secs: (h + SECS_PER_HOUR) as i64, nanos: 0 };
        if next.precedes(stop) {
            assert(end == next);
            assert(next.wf());
            assert(rest.len() > 0);
        }
    }
}

/// The pieces of a reading are its parts in the hours it touches, as
/// [`hour_parts_of`] describes them.
pub proof fn lemma_interval_segments_are_hour_parts(e: FlowInterval)
    requires
        walkable(e),
    ensures
        hour_parts_of(e, interval_segments(e)),
{
    let segs = interval_segments(e);
    if e.start.precedes(e.stop) {
        lemma_hourly_segments_cover(e.start, e.stop);
        lemma_hourly_segments_parts(e.start, e.stop);
        let h = spec_hour_start(e.start.secs as int);
        assert(h <= e.start.secs < h + 3600) by {
            vstd::arithmetic::div_mod::lemma_fundamental_div_mod(e.start.secs as int, 3600);
        }
        assert forall|k: int| 0 <= k < segs.len() implies #[trigger] segs[k].seconds == seconds_between(
            hour_part_start(e, segs[k].bucket),
            hour_part_end(e.stop, segs[k].bucket),
        ) by {
            if k == 0 {
                assert(hour_part_start(e, segs[0].bucket) == e.start || (e.start.secs == h && e.start.nanos == 0));
            } else {
                assert(segs[k].bucket >= h + 3600) by {
                    lemma_consecutive_from(segs, k);
                }
                assert(hour_part_start(e, segs[k].bucket) == Timestamp { secs: segs[k].bucket, nanos: 0 });
            }
        }
    } else {
        assert(segs.len() == 0);
    }
}

proof fn lemma_consecutive_from(segs: Seq<HourlySegment>, k: int)
    requires
        consecutive_hour_pieces(segs),
        0 <= k < segs.len(),
    ensures
        segs[k].bucket == segs[0].bucket + k * SECS_PER_HOUR,
    decreases k,
{
    if k > 0 {
        lemma_consecutive_from(segs, k - 1);
        assert(segs[k].bucket == segs[k - 1].bucket + SECS_PER_HOUR);
    }
}

/// One weighed piece of the plan: the reading it belongs to, the index of its
/// hour in the plan's hours, its whole seconds and the whole seconds of the
/// whole reading. The reading's volume times `seconds / total_seconds` goes to
/// that hour.
#[derive(Clone, Copy, Debug, PartialEq, Eq, Structural)]
pub struct Contribution {
    pub entry: usize,
    pub bucket_index: usize,
    pub seconds: i64,
    pub total_seconds: i64,
}

/// The hours touched by a list of readings, in increasing order and each once,
/// and every piece of every reading, in the order of the readings and, within
/// a reading, of time.
#[derive(Debug)]
pub struct HourlyPlan {
    pub buckets: Vec<i64>,
    pub contributions: Vec<Contribution>,
}

/// The pieces of `segs`, each with the index `i` of its reading.
pub open spec fn tagged(segs: Seq<HourlySegment>, i: usize) -> Seq<(usize, HourlySegment)> {
    segs.map_values(|s: HourlySegment| (i, s))
}

/// The pieces of all readings, in order, each with the index of its reading.
pub open spec fn all_segments(entries: Seq<FlowInterval>) -> Seq<(usize, HourlySegment)>
    decreases entries.len(),
{
    if entries.len() == 0 {
        Seq::empty()
    } else {
        all_segments(entries.drop_last()) + tagged(
            interval_segments(entries.last()),
            (entries.len() - 1) as usize,
        )
    }
}

/// Every element of `s` is smaller than every later one.
pub open spec fn strictly_increasing(s: Seq<i64>) -> bool {
    forall|i: int, j: int| 0 <= i < j < s.len() ==> s[i] < s[j]
}

/// Some piece of `segs` lies in the hour that starts at `bucket`.
pub open spec fn some_segment_in_hour(segs: Seq<(usize, HourlySegment)>, bucket: i64) -> bool {
    exists|k: int| 0 <= k < segs.len() && #[trigger] segs[k].1.bucket == bucket
}

/// `buckets` and `contributions` are the plan for `entries`: one contribution
/// per piece, in order, pointing at the piece's hour; the hours increase and
/// each of them is the hour of some piece.
pub open spec fn is_plan_for(
    entries: Seq<FlowInterval>,
    buckets: Seq<i64>,
    contributions: Seq<Contribution>,
) -> bool {
    let segs = all_segments(entries);
    &&& contributions.len() == segs.len()
    &&& forall|k: int|
        #![trigger contributions[k]]
        0 <= k < segs.len() ==> {
            let c = contributions[k];
            &&& c.entry == segs[k].0
            &&& c.entry < entries.len()
            &&& c.seconds == segs[k].1.seconds
            &&& c.total_seconds == interval_seconds(entries[c.entry as int])
            &&& c.bucket_index < buckets.len()
            &&& buckets[c.bucket_index as int] == segs[k].1.bucket
        }
    &&& strictly_increasing(buckets)
    &&& forall|b: int|
        #![trigger buckets[b]]
        0 <= b < buckets.len() ==> some_segment_in_hour(segs, buckets[b])
}

/// Adds `b` to the increasing list `buckets` unless it is there already.
fn insert_bucket(buckets: &mut Vec<i64>, b: i64)
    requires
        strictly_increasing(old(buckets)@),
    ensures
        strictly_increasing(final(buckets)@),
        forall|x: i64| final(buckets)@.contains(x) <==> (old(buckets)@.contains(x) || x == b),
{
    let mut p: usize = 0;
    while p < buckets.len() && buckets[p] < b
        invariant
            p <= buckets.len(),
            buckets@ == old(buckets)@,
            forall|i: int| 0 <= i < p ==> buckets@[i] < b,
        decreases buckets.len() - p,
    {
        p = p + 1;
    }
    if p < buckets.len() && buckets[p] == b {
        assert(buckets@[p as int] == b);
        return;
    }
    proof {
        lemma_insert_contains(buckets@, p as int, b);
    }
    buckets.insert(p, b);
}

proof fn lemma_insert_contains(s: Seq<i64>, p: int, b: i64)
    requires
        0 <= p <= s.len(),
    ensures
        forall|x: i64| #[trigger] s.insert(p, b).contains(x) <==> (s.contains(x) || x == b),
{
    let t = s.insert(p, b);
    assert forall|x: i64| #[trigger] t.contains(x) <==> (s.contains(x) || x == b) by {
        if t.contains(x) {
            let i = choose|i: int| 0 <= i < t.len() && t[i] == x;
            if i < p {
                assert(s[i] == x);
            } else if i > p {
                assert(s[i - 1] == x);
            }
        }
        if s.contains(x) {
            let i = choose|i: int| 0 <= i < s.len() && s[i] == x;
            if i < p {
                assert(t[i] == x);
            } else {
                assert(t[i + 1] == x);
            }
        }
        if x == b {
            assert(t[p] == x);
        }
    }
}

/// The position of `b` in `buckets`.
fn find_bucket(buckets: &Vec<i64>, b: i64) -> (index: usize)
    requires
        buckets@.contains(b),
    ensures
        index < buckets.len(),
        buckets@[index as int] == b,
{
    let mut i: usize = 0;
    while i < buckets.len()
        invariant
            i <= buckets.len(),
            buckets@.contains(b),
            forall|j: int| 0 <= j < i ==> buckets@[j] != b,
        decreases buckets.len() - i,
    {
        if buckets[i] == b {
            return i;
        }
        i = i + 1;
    }
    proof {
        let j = choose|j: int| 0 <= j < buckets@.len() && buckets@[j] == b;
    }
    0
}

/// Plans the hourly irrigation report for `entries`: the hours that their
/// pieces fall in, increasing and each once, and one contribution per piece, in
/// the order of the readings and of time, with the index of its hour. Readings
/// that do not stop after they start contribute nothing.
pub fn hourly_plan(entries: &Vec<FlowInterval>) -> (plan: HourlyPlan)
    requires
        forall|i: int| 0 <= i < entries.len() ==> walkable(#[trigger] entries@[i]),
    ensures
        is_plan_for(entries@, plan.buckets@, plan.contributions@),
{
    let n = entries.len();
    let mut segs: Vec<(usize, HourlySegment)> = Vec::new();
    let mut totals: Vec<i64> = Vec::new();
    let mut i: usize = 0;
    while i < n
        invariant
            n == entries.len(),
            i <= n,
            forall|m: int| 0 <= m < entries.len() ==> walkable(#[trigger] entries@[m]),
            segs@ == all_segments(entries@.take(i as int)),
            totals.len() == i,
            forall|k: int|
                #![trigger segs@[k]]
                0 <= k < segs.len() ==> segs@[k].0 < i && entries@[segs@[k].0 as int].start.precedes(
                    entries@[segs@[k].0 as int].stop,
                ),
            forall|m: int|
                #![trigger totals@[m]]
                0 <= m < i && entries@[m].start.precedes(entries@[m].stop) ==> totals@[m]
                    == interval_seconds(entries@[m]),
        decreases n - i,
    {
        let e = entries[i];
        assert(walkable(entries@[i as int]));
        let pieces = split_into_hours(e);
        let total = if e.start.is_before(&e.stop) {
            whole_seconds_between(e.start, e.stop)
        } else {
            0
        };
        totals.push(total);
        proof {
            if pieces@.len() > 0 {
                assert(e.start.precedes(e.stop));
            }
        }
        let ghost base = segs@;
        let mut j: usize = 0;
        while j < pieces.len()
            invariant
                i < n,
                n == entries.len(),
                e == entries@[i as int],
                pieces@ == interval_segments(e),
                pieces@.len() > 0 ==> e.start.precedes(e.stop),
                j <= pieces.len(),
                segs@ == base + tagged(pieces@.take(j as int), i),
                forall|k: int|
                    #![trigger base[k]]
                    0 <= k < base.len() ==> base[k].0 < i && entries@[base[k].0 as int].start.precedes(
                        entries@[base[k].0 as int].stop,
                    ),
                forall|k: int|
                    #![trigger segs@[k]]
                    0 <= k < segs.len() ==> segs@[k].0 <= i && entries@[segs@[k].0 as int].start.precedes(
                        entries@[segs@[k].0 as int].stop,
                    ),
            decreases pieces.len() - j,
        {
            segs.push((i, pieces[j]));
            assert(tagged(pieces@.take(j + 1), i) =~= tagged(pieces@.take(j as int), i).push((i, pieces@[j as int])));
            j = j + 1;
        }
        proof {
            assert(pieces@.take(pieces@.len() as int) =~= pieces@);
            assert(entries@.take(i + 1).drop_last() =~= entries@.take(i as int));
            assert(entries@.take(i + 1).last() == e);
        }
        i = i + 1;
    }
    assert(entries@.take(n as int) =~= entries@);

    let mut buckets: Vec<i64> = Vec::new();
    let mut k: usize = 0;
    while k < segs.len()
        invariant
            k <= segs.len(),
            strictly_increasing(buckets@),
            forall|x: i64|
                buckets@.contains(x) <==> exists|j: int| 0 <= j < k && #[trigger] segs@[j].1.bucket == x,
        decreases segs.len() - k,
    {
        let ghost before = buckets@;
        insert_bucket(&mut buckets, segs[k].1.bucket);
        assert forall|x: i64|
            buckets@.contains(x) <==> exists|j: int| 0 <= j < k + 1 && #[trigger] segs@[j].1.bucket == x by {
            if x == segs@[k as int].1.bucket {
                assert(segs@[k as int].1.bucket == x);
            }
            if exists|j: int| 0 <= j < k + 1 && #[trigger] segs@[j].1.bucket == x {
                let j = choose|j: int| 0 <= j < k + 1 && #[trigger] segs@[j].1.bucket == x;
                if j < k {
                    assert(before.contains(x));
                }
            }
        }
        k = k + 1;
    }

    let mut contributions: Vec<Contribution> = Vec::new();
    let mut k: usize = 0;
    while k < segs.len()
        invariant
            k <= segs.len(),
            segs@ == all_segments(entries@),
            totals.len() == entries.len(),
            strictly_increasing(buckets@),
            forall|x: i64|
                buckets@.contains(x) <==> exists|j: int| 0 <= j < segs.len() && #[trigger] segs@[j].1.bucket == x,
            forall|j: int|
                #![trigger segs@[j]]
                0 <= j < segs.len() ==> segs@[j].0 < entries.len() && entries@[segs@[j].0 as int].start.precedes(
                    entries@[segs@[j].0 as int].stop,
                ),
            forall|m: int|
                #![trigger totals@[m]]
                0 <= m < entries.len() && entries@[m].start.precedes(entries@[m].stop) ==> totals@[m]
                    == interval_seconds(entries@[m]),
            contributions.len() == k,
            forall|j: int|
                #![trigger contributions@[j]]
                0 <= j < k ==> {
                    let c = contributions@[j];
                    &&& c.entry == segs@[j].0
                    &&& c.entry < entries.len()
                    &&& c.seconds == segs@[j].1.seconds
                    &&& c.total_seconds == interval_seconds(entries@[c.entry as int])
                    &&& c.bucket_index < buckets.len()
                    &&& buckets@[c.bucket_index as int] == segs@[j].1.bucket
                },
        decreases segs.len() - k,
    {
        let (entry, seg) = segs[k];
        assert(segs@[k as int].1.bucket == seg.bucket);
        let index = find_bucket(&buckets, seg.bucket);
        assert(entries@[entry as int].start.precedes(entries@[entry as int].stop));
        let total = totals[entry];
        contributions.push(Contribution { entry, bucket_index: index, seconds: seg.seconds, total_seconds: total });
        k = k + 1;
    }
    assert forall|b: int| 0 <= b < buckets@.len() implies some_segment_in_hour(
        all_segments(entries@),
        #[trigger] buckets@[b],
    ) by {
        assert(buckets@.contains(buckets@[b]));
    }
    HourlyPlan { buckets, contributions }
}

/// Whole seconds of the pieces in `segs` that belong to reading `i`.
pub open spec fn tagged_seconds(segs: Seq<(usize, HourlySegment)>, i: usize) -> int
    decreases segs.len(),
{
    if segs.len() == 0 {
        0
    } else {
        (if segs[0].0 == i {
            segs[0].1.seconds as int
        } else {
            0
        }) + tagged_seconds(segs.drop_first(), i)
    }
}

/// Whole seconds of the contributions in `cs` that belong to reading `i`.
pub open spec fn entry_seconds(cs: Seq<Contribution>, i: usize) -> int
    decreases cs.len(),
{
    if cs.len() == 0 {
        0
    } else {
        (if cs[0].entry == i {
            cs[0].seconds as int
        } else {
            0
        }) + entry_seconds(cs.drop_first(), i)
    }
}

proof fn lemma_tagged_seconds_concat(a: Seq<(usize, HourlySegment)>, b: Seq<(usize, HourlySegment)>, i: usize)
    ensures
        tagged_seconds(a + b, i) == tagged_seconds(a, i) + tagged_seconds(b, i),
    decreases a.len(),
{
    if a.len() == 0 {
        assert(a + b =~= b);
    } else {
        assert((a + b).drop_first() =~= a.drop_first() + b);
        lemma_tagged_seconds_concat(a.drop_first(), b, i);
    }
}

proof fn lemma_tagged_seconds_one_reading(segs: Seq<HourlySegment>, j: usize, i: usize)
    ensures
        tagged_seconds(tagged(segs, j), i) == if j == i {
            sum_seconds(segs)
        } else {
            0
        },
    decreases segs.len(),
{
    if segs.len() > 0 {
        assert(tagged(segs, j).drop_first() =~= tagged(segs.drop_first(), j));
        lemma_tagged_seconds_one_reading(segs.drop_first(), j, i);
    }
}

proof fn lemma_tagged_seconds_all(entries: Seq<FlowInterval>, i: usize)
    requires
        i < entries.len() <= usize::MAX,
    ensures
        tagged_seconds(all_segments(entries), i) == sum_seconds(interval_segments(entries[i as int])),
    decreases entries.len(),
{
    let n = entries.len();
    let init = entries.drop_last();
    lemma_tagged_seconds_concat(all_segments(init), tagged(interval_segments(entries.last()), (n - 1) as usize), i);
    lemma_tagged_seconds_one_reading(interval_segments(entries.last()), (n - 1) as usize, i);
    if i < n - 1 {
        assert(init[i as int] == entries[i as int]);
        lemma_tagged_seconds_all(init, i);
    } else {
        lemma_tagged_seconds_none(init, i);
    }
}

proof fn lemma_tagged_seconds_none(entries: Seq<FlowInterval>, i: usize)
    requires
        i >= entries.len(),
    ensures
        tagged_seconds(all_segments(entries), i) == 0,
    decreases entries.len(),
{
    if entries.len() > 0 {
        let n = entries.len();
        lemma_tagged_seconds_concat(
            all_segments(entries.drop_last()),
            tagged(interval_segments(entries.last()), (n - 1) as usize),
            i,
        );
        lemma_tagged_seconds_one_reading(interval_segments(entries.last()), (n - 1) as usize, i);
        lemma_tagged_seconds_none(entries.drop_last(), i);
    }
}

proof fn lemma_entry_seconds_match(
    cs: Seq<Contribution>,
    segs: Seq<(usize, HourlySegment)>,
    i: usize,
)
    requires
        cs.len() == segs.len(),
        forall|k: int|
            0 <= k < cs.len() ==> #[trigger] cs[k].entry == segs[k].0 && cs[k].seconds == segs[k].1.seconds,
    ensures
        entry_seconds(cs, i) == tagged_seconds(segs, i),
    decreases cs.len(),
{
    if cs.len() > 0 {
        assert(cs[0].entry == segs[0].0);
        assert forall|k: int| 0 <= k < cs.drop_first().len() implies #[trigger] cs.drop_first()[k].entry
            == segs.drop_first()[k].0 && cs.drop_first()[k].seconds == segs.drop_first()[k].1.seconds by {
            assert(cs.drop_first()[k] == cs[k + 1]);
            assert(segs.drop_first()[k] == segs[k + 1]);
            assert(cs[k + 1].entry == segs[k + 1].0 && cs[k + 1].seconds == segs[k + 1].1.seconds);
        }
        lemma_entry_seconds_match(cs.drop_first(), segs.drop_first(), i);
    }
}

/// In a plan, the contributions of a reading cover no more whole seconds than
/// the reading lasts, and exactly as many when it starts on a whole second: the
/// shares `seconds / total_seconds` of such a reading add up to one, so its
/// whole volume is spread over the hours.
pub proof fn lemma_plan_covers_readings(
    entries: Seq<FlowInterval>,
    buckets: Seq<i64>,
    contributions: Seq<Contribution>,
    i: usize,
)
    requires
        is_plan_for(entries, buckets, contributions),
        i < entries.len() <= usize::MAX,
        walkable(entries[i as int]),
        entries[i as int].start.precedes(entries[i as int].stop),
    ensures
        entry_seconds(contributions, i) <= interval_seconds(entries[i as int]),
        entries[i as int].start.nanos == 0 ==> entry_seconds(contributions, i) == interval_seconds(
            entries[i as int],
        ),
{
    let segs = all_segments(entries);
    assert forall|k: int| 0 <= k < contributions.len() implies #[trigger] contributions[k].entry == segs[k].0
        && contributions[k].seconds == segs[k].1.seconds by {}
    lemma_entry_seconds_match(contributions, segs, i);
    lemma_tagged_seconds_all(entries, i);
    lemma_hourly_segments_cover(entries[i as int].start, entries[i as int].stop);
}

/// The pieces in `segs` that carry reading index `i`, in order.
pub open spec fn pieces_tagged(segs: Seq<(usize, HourlySegment)>, i: usize) -> Seq<HourlySegment> {
    segs.filter(has_tag(i)).map_values(|p: (usize, HourlySegment)| p.1)
}

/// Whether a piece carries reading index `i`.
pub open spec fn has_tag(i: usize) -> spec_fn((usize, HourlySegment)) -> bool {
    |p: (usize, HourlySegment)| p.0 == i
}

proof fn lemma_filter_all_or_none(s: Seq<(usize, HourlySegment)>, i: usize)
    ensures
        (forall|k: int| 0 <= k < s.len() ==> #[trigger] s[k].0 == i) ==> s.filter(has_tag(i)) == s,
        (forall|k: int| 0 <= k < s.len() ==> #[trigger] s[k].0 != i) ==> s.filter(has_tag(i)) == Seq::<
            (usize, HourlySegment),
        >::empty(),
    decreases s.len(),
{
    reveal(Seq::filter);
    if s.len() > 0 {
        lemma_filter_all_or_none(s.drop_last(), i);
        if forall|k: int| 0 <= k < s.len() ==> #[trigger] s[k].0 == i {
            assert(forall|k: int| 0 <= k < s.drop_last().len() ==> #[trigger] s.drop_last()[k].0 == i);
            assert(s.drop_last().push(s.last()) =~= s);
        }
        if forall|k: int| 0 <= k < s.len() ==> #[trigger] s[k].0 != i {
            assert(forall|k: int| 0 <= k < s.drop_last().len() ==> #[trigger] s.drop_last()[k].0 != i);
            assert(s[s.len() - 1].0 != i);
        }
    }
}

/// The pieces of all readings come reading by reading, in the order of the
/// readings; the pieces that carry the index of a reading are exactly that
/// reading's pieces, in order.
pub proof fn lemma_all_segments_by_reading(entries: Seq<FlowInterval>)
    requires
        entries.len() <= usize::MAX,
    ensures
        forall|k: int| 0 <= k < all_segments(entries).len() ==> (#[trigger] all_segments(entries)[k]).0 < entries.len(),
        forall|j: int, k: int|
            0 <= j < k < all_segments(entries).len() ==> (#[trigger] all_segments(entries)[j]).0 <= (
            #[trigger] all_segments(entries)[k]).0,
        forall|i: usize|
            i < entries.len() ==> #[trigger] pieces_tagged(all_segments(entries), i) == interval_segments(
                entries[i as int],
            ),
    decreases entries.len(),
{
    let segs = all_segments(entries);
    if entries.len() > 0 {
        let n = entries.len();
        let init = entries.drop_last();
        let a = all_segments(init);
        let t = tagged(interval_segments(entries.last()), (n - 1) as usize);
        lemma_all_segments_by_reading(init);
        assert(segs == a + t);
        assert forall|k: int| 0 <= k < segs.len() implies (#[trigger] segs[k]).0 < entries.len() by {
            if k >= a.len() {
                assert(segs[k] == t[k - a.len()]);
            } else {
                assert(segs[k] == a[k]);
            }
        }
        assert forall|j: int, k: int| 0 <= j < k < segs.len() implies (#[trigger] segs[j]).0 <= (#[trigger] segs[k]).0 by {
            if k >= a.len() {
                assert(segs[k] == t[k - a.len()]);
                if j >= a.len() {
                    assert(segs[j] == t[j - a.len()]);
                } else {
                    assert(segs[j] == a[j]);
                }
            } else {
                assert(segs[k] == a[k]);
                assert(segs[j] == a[j]);
            }
        }
        assert forall|i: usize| i < entries.len() implies #[trigger] pieces_tagged(segs, i) == interval_segments(
            entries[i as int],
        ) by {
            let fa = a.filter(has_tag(i));
            let ft = t.filter(has_tag(i));
            Seq::filter_distributes_over_add(a, t, has_tag(i));
            assert(segs.filter(has_tag(i)) == fa + ft);
            lemma_filter_all_or_none(a, i);
            lemma_filter_all_or_none(t, i);
            if i < n - 1 {
                assert(forall|k: int| 0 <= k < t.len() ==> #[trigger] t[k].0 != i);
                assert(ft == Seq::<(usize, HourlySegment)>::empty());
                assert(init[i as int] == entries[i as int]);
                assert(fa + ft =~= fa);
                assert(pieces_tagged(a, i) == interval_segments(init[i as int]));
            } else {
                assert forall|k: int| 0 <= k < a.len() implies #[trigger] a[k].0 != i by {}
                assert(forall|k: int| 0 <= k < t.len() ==> #[trigger] t[k].0 == i);
                assert(fa == Seq::<(usize, HourlySegment)>::empty());
                assert(ft == t);
                assert(fa + ft =~= t);
                assert(t.map_values(|p: (usize, HourlySegment)| p.1) =~= interval_segments(entries.last()));
            }
        }
    }
}

} // verus!
