//! The tracking state machine.
//!
//! A session marker holds the start time of the one open session, if any;
//! completed sessions accumulate as `TimeRecord`s. `spec_start` and
//! `spec_stop` are the authoritative transition functions; the in-memory
//! tracker below and the flat-file helpers both follow them.

use vstd::prelude::*;

verus! {

/// A UTC instant at which a session started: milliseconds since the Unix epoch.
#[derive(Debug, Clone, Copy, PartialEq, Eq, Structural)]
pub struct StartTime(pub i64);

/// A UTC instant at which a session ended: milliseconds since the Unix epoch.
#[derive(Debug, Clone, Copy, PartialEq, Eq, Structural)]
pub struct EndTime(pub i64);

/// One completed tracking interval. Valid records have `end >= start`.
#[derive(Debug, Clone, Copy, PartialEq, Eq, Structural)]
pub struct TimeRecord {
    pub start: StartTime,
    pub end: EndTime,
}

/// What `start` found: a session was already `Running`, or a new one `Started`.
#[derive(Debug, Clone, Copy, PartialEq, Eq, Structural)]
pub enum StartupStatus {
    Running,
    Started,
}

/// Why a tracker operation failed.
#[derive(Debug, Clone, Copy, PartialEq, Eq, Structural)]
pub enum TrackerErrorKind {
    /// The underlying storage failed.
    Io,
    /// Persisted data exists but cannot be decoded.
    Corrupt,
    /// `stop` was called while no session was open.
    NotRunning,
}

/// Error of a tracker operation, carrying the failure's category.
#[derive(Debug, Clone, Copy, PartialEq, Eq, Structural)]
pub struct TrackerError {
    pub kind: TrackerErrorKind,
}

/// Relies on `chrono::Utc::now` and `chrono::DateTime::timestamp_millis`:
/// the current UTC wall-clock instant, in milliseconds since the Unix epoch.
/// `Utc::now` only returns instants at or after the epoch, so the result is
/// never negative.
#[verifier::external_body]
pub(crate) fn now_millis() -> (r: i64)
    ensures
        r >= 0,
{
    chrono::Utc::now().timestamp_millis()
}

impl StartTime {
    /// The current instant as a session start time.
    pub fn now() -> (r: Self)
        ensures
            r.0 >= 0,
    {
        StartTime(now_millis())
    }

    pub fn timestamp_millis(&self) -> (r: i64)
        ensures
            r == self.0,
    {
        self.0
    }
}

impl EndTime {
    /// The current instant as a session end time.
    pub fn now() -> (r: Self)
        ensures
            r.0 >= 0,
    {
        EndTime(now_millis())
    }

    pub fn timestamp_millis(&self) -> (r: i64)
        ensures
            r == self.0,
    {
        self.0
    }
}

/// The `start` transition: an open session is left untouched and reported as
/// `Running`; otherwise a session opens at `now_ms` and `Started` is reported.
pub open spec fn spec_start(marker: Option<StartTime>, now_ms: i64) -> (Option<StartTime>, StartupStatus) {
    match marker {
        Some(st) => (Some(st), StartupStatus::Running),
        None => (Some(StartTime(now_ms)), StartupStatus::Started),
    }
}

/// The `stop` transition: with no open session the state is unchanged and the
/// logical-conflict error is reported; otherwise the open session closes at
/// `now_ms`, its record is appended, and the marker is cleared.
pub open spec fn spec_stop(
    marker: Option<StartTime>,
    records: Seq<TimeRecord>,
    now_ms: i64,
) -> (Option<StartTime>, Seq<TimeRecord>, Result<(), TrackerError>) {
    match marker {
        None => (None, records, Err(TrackerError { kind: TrackerErrorKind::NotRunning })),
        Some(st) => (
            None,
            records.push(TimeRecord { start: st, end: EndTime(now_ms) }),
            Ok(()),
        ),
    }
}

/// Starting twice in a row from an idle store yields `Started` then `Running`,
/// and the marker after both calls still holds the time recorded by the first
/// call: the second call never overwrites it.
pub proof fn lemma_start_idempotent(marker: Option<StartTime>, n1: i64, n2: i64)
    requires
        marker is None,
    ensures
        ({
            let (m1, s1) = spec_start(marker, n1);
            let (m2, s2) = spec_start(m1, n2);
            &&& s1 == StartupStatus::Started
            &&& s2 == StartupStatus::Running
            &&& m1 == Some(StartTime(n1))
            &&& m2 == m1
        }),
{
}

/// Whatever the store's state, a second `start` never changes the marker left
/// by the first.
pub proof fn lemma_start_never_overwrites(marker: Option<StartTime>, n1: i64, n2: i64)
    ensures
        spec_start(spec_start(marker, n1).0, n2).0 == spec_start(marker, n1).0,
{
}

/// After `start` then `stop` the store is idle again, and exactly one record
/// was appended, closing the session that the `start` opened; the stop
/// succeeds, and when the clock did not run backwards the new record's end is
/// no earlier than its start.
pub proof fn lemma_stop_closes_and_clears(
    marker: Option<StartTime>,
    records: Seq<TimeRecord>,
    n1: i64,
    n2: i64,
)
    requires
        marker is None,
        n2 >= n1,
    ensures
        ({
            let (m1, s1) = spec_start(marker, n1);
            let (m2, recs2, r) = spec_stop(m1, records, n2);
            &&& m2 is None
            &&& r is Ok
            &&& recs2 == records.push(TimeRecord { start: StartTime(n1), end: EndTime(n2) })
            &&& recs2.len() == records.len() + 1
            &&& recs2.last().end.0 >= recs2.last().start.0
        }),
{
}

/// An in-memory tracker: the same state machine as the durable one, with no
/// persistence. Useful for fast tests and as the reference implementation.
#[derive(Debug)]
pub struct MemoryTracker {
    pub tracking: Option<StartTime>,
    pub records: Vec<TimeRecord>,
}

impl MemoryTracker {
    pub open spec fn marker_spec(&self) -> Option<StartTime> {
        self.tracking
    }

    pub open spec fn records_spec(&self) -> Seq<TimeRecord> {
        self.records@
    }

    /// A fresh, idle tracker with no history.
    pub fn new() -> (r: Self)
        ensures
            r.marker_spec() is None,
            r.records_spec() == Seq::<TimeRecord>::empty(),
    {
        MemoryTracker { tracking: None, records: Vec::new() }
    }

    /// Whether a session is currently open.
    pub fn is_running(&self) -> (r: bool)
        ensures
            r == (self.marker_spec() is Some),
    {
        self.tracking.is_some()
    }

    /// `start` with the clock reading passed in: follows `spec_start` exactly.
    pub fn start_at(&mut self, now_ms: i64) -> (r: StartupStatus)
        ensures
            (final(self).marker_spec(), r) == spec_start(old(self).marker_spec(), now_ms),
            final(self).records_spec() == old(self).records_spec(),
    {
        match self.tracking {
            Some(_) => StartupStatus::Running,
            None => {
                self.tracking = Some(StartTime(now_ms));
                StartupStatus::Started
            },
        }
    }

    /// `start` at the current instant.
    pub fn start(&mut self) -> (r: StartupStatus)
        ensures
            exists|now_ms: i64|
                #![auto]
                now_ms >= 0 && (final(self).marker_spec(), r) == spec_start(
                    old(self).marker_spec(),
                    now_ms,
                ),
            final(self).records_spec() == old(self).records_spec(),
    {
        let now_ms = now_millis();
        self.start_at(now_ms)
    }

    /// `stop` with the clock reading passed in: follows `spec_stop` exactly.
    pub fn stop_at(&mut self, now_ms: i64) -> (r: Result<(), TrackerError>)
        ensures
            (final(self).marker_spec(), final(self).records_spec(), r) == spec_stop(
                old(self).marker_spec(),
                old(self).records_spec(),
                now_ms,
            ),
    {
        match self.tracking {
            None => Err(TrackerError { kind: TrackerErrorKind::NotRunning }),
            Some(st) => {
                self.records.push(TimeRecord { start: st, end: EndTime(now_ms) });
                self.tracking = None;
                Ok(())
            },
        }
    }

    /// `stop` at the current instant.
    pub fn stop(&mut self) -> (r: Result<(), TrackerError>)
        ensures
            exists|now_ms: i64|
                #![auto]
                now_ms >= 0 && (final(self).marker_spec(), final(self).records_spec(), r)
                    == spec_stop(old(self).marker_spec(), old(self).records_spec(), now_ms),
    {
        let now_ms = now_millis();
        self.stop_at(now_ms)
    }

    /// The full history of completed sessions, in insertion order.
    pub fn records(&self) -> (r: Vec<TimeRecord>)
        ensures
            r@ == self.records_spec(),
    {
        let mut out: Vec<TimeRecord> = Vec::new();
        let mut i: usize = 0;
        while i < self.records.len()
            invariant
                i <= self.records.len(),
                out@ == self.records@.take(i as int),
            decreases self.records.len() - i,
        {
            out.push(self.records[i]);
            i = i + 1;
        }
        proof {
            assert(self.records@.take(self.records@.len() as int) =~= self.records@);
        }
        out
    }
}

} // verus!
