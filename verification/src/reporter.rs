//! Read-only aggregation over the record history.
//!
//! `total_duration` sums the elapsed time of every record whose start falls
//! within the window reaching back from now. The inclusion test is on the
//! start timestamp only — a session that started before the window is
//! excluded even if it ended inside it. The sum runs in a wrapping 64-bit
//! signed accumulator, tolerating clock anomalies, and is reinterpreted as
//! an unsigned duration at the end.

use vstd::prelude::*;
use vstd::wrapping::i64_specs;

use crate::tracker::{now_millis, MemoryTracker, TimeRecord};

verus! {

/// A query window: the last so many milliseconds, counted back from now.
#[derive(Debug, Clone, Copy, PartialEq, Eq, Structural)]
pub enum ReportTimespan {
    Last(u64),
}

/// The milliseconds one record contributes: the 64-bit signed difference of
/// its end and start timestamps, wrapping on (pathological) overflow.
pub open spec fn record_ms(r: TimeRecord) -> i64 {
    i64_specs::wrapping_sub(r.end.0, r.start.0)
}

/// Signed total of the contributions of the records that started at or
/// after `cutoff`, accumulated in wrapping 64-bit arithmetic.
pub open spec fn spec_total_ms(recs: Seq<TimeRecord>, cutoff: int) -> i64
    decreases recs.len(),
{
    if recs.len() == 0 {
        0
    } else {
        let rest = spec_total_ms(recs.drop_last(), cutoff);
        if recs.last().start.0 >= cutoff {
            i64_specs::wrapping_add(rest, record_ms(recs.last()))
        } else {
            rest
        }
    }
}

/// The duration reported for `recs` when the clock reads `now_ms` and the
/// window reaches `span_ms` milliseconds backwards.
pub open spec fn spec_report(recs: Seq<TimeRecord>, now_ms: i64, span_ms: u64) -> u64 {
    spec_total_ms(recs, now_ms - span_ms) as u64
}

/// The reported duration with the clock reading passed in explicitly.
pub fn total_duration_at(records: &Vec<TimeRecord>, now_ms: i64, timespan: ReportTimespan) -> (r:
    u64)
    ensures
        r == spec_report(records@, now_ms, timespan->Last_0),
{
    let ReportTimespan::Last(span) = timespan;
    let ghost cutoff: int = now_ms - span;
    let mut acc: i64 = 0;
    let mut i: usize = 0;
    while i < records.len()
        invariant
            i <= records.len(),
            cutoff == now_ms - span,
            acc == spec_total_ms(records@.take(i as int), cutoff),
        decreases records.len() - i,
    {
        let rec = records[i];
        let cut_wide: i128 = now_ms as i128 - span as i128;
        proof {
            assert(cut_wide == now_ms - span);
            assert(rec.start.0 as i128 == rec.start.0);
        }
        let in_window = rec.start.0 as i128 >= cut_wide;
        proof {
            assert(in_window == (rec.start.0 >= cutoff));
        }
        if in_window {
            acc = acc.wrapping_add(rec.end.0.wrapping_sub(rec.start.0));
        }
        proof {
            assert(records@.take(i as int + 1).drop_last() =~= records@.take(i as int));
            assert(records@.take(i as int + 1).last() == records@[i as int]);
        }
        i = i + 1;
    }
    proof {
        assert(records@.take(records@.len() as int) =~= records@);
    }
    #[verifier::truncate] (acc as u64)
}

/// The duration of the sessions that started within the window ending now.
pub fn total_duration(records: &Vec<TimeRecord>, timespan: ReportTimespan) -> (r: u64)
    ensures
        exists|now_ms: i64|
            #![auto]
            now_ms >= 0 && r == spec_report(records@, now_ms, timespan->Last_0),
{
    let now_ms = now_millis();
    total_duration_at(records, now_ms, timespan)
}

impl MemoryTracker {
    /// Report over this tracker's history at the current instant.
    pub fn total_duration(&self, timespan: ReportTimespan) -> (r: u64)
        ensures
            exists|now_ms: i64|
                #![auto]
                now_ms >= 0 && r == spec_report(self.records_spec(), now_ms, timespan->Last_0),
    {
        let now_ms = now_millis();
        let r = total_duration_at(&self.records, now_ms, timespan);
        proof {
            assert(now_ms >= 0 && r == spec_report(self.records_spec(), now_ms, timespan->Last_0));
        }
        r
    }
}

/// With zero records the reported duration is zero, whatever the clock
/// reads and whatever the window.
pub proof fn lemma_total_empty(now_ms: i64, span_ms: u64)
    ensures
        spec_report(Seq::<TimeRecord>::empty(), now_ms, span_ms) == 0,
{
}

/// Two completed sessions whose starts both fall within the window are each
/// counted in full: the reported duration is at least the sum of their
/// elapsed times (here at least ten milliseconds each; the sum must not
/// overflow the signed 64-bit accumulator).
pub proof fn lemma_two_sessions_counted(r1: TimeRecord, r2: TimeRecord, now_ms: i64, span_ms: u64)
    requires
        r1.start.0 >= now_ms - span_ms,
        r2.start.0 >= now_ms - span_ms,
        r1.end.0 - r1.start.0 >= 10,
        r2.end.0 - r2.start.0 >= 10,
        (r1.end.0 - r1.start.0) + (r2.end.0 - r2.start.0) <= i64::MAX,
    ensures
        spec_report(seq![r1, r2], now_ms, span_ms) >= (r1.end.0 - r1.start.0) + (r2.end.0
            - r2.start.0),
{
    let recs = seq![r1, r2];
    let cutoff = now_ms - span_ms;
    assert(recs.drop_last() =~= seq![r1]);
    assert(seq![r1].drop_last() =~= Seq::<TimeRecord>::empty());
    assert(recs.last() == r2);
    assert(seq![r1].last() == r1);
    assert(record_ms(r1) == r1.end.0 - r1.start.0);
    assert(record_ms(r2) == r2.end.0 - r2.start.0);
    assert(spec_total_ms(Seq::<TimeRecord>::empty(), cutoff) == 0);
    assert(spec_total_ms(seq![r1], cutoff) == i64_specs::wrapping_add(0, record_ms(r1)));
    assert(i64_specs::wrapping_add(0, record_ms(r1)) == record_ms(r1));
    assert(spec_total_ms(recs, cutoff) == i64_specs::wrapping_add(record_ms(r1), record_ms(r2)));
}

} // verus!
