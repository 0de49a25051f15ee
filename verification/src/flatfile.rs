//! The durable tracker's compute half.
//!
//! The marker file and the collection file are each read whole and written
//! whole. Everything between reading bytes and writing bytes is here, with
//! exact contracts over the codec's spec functions; the caller only opens,
//! reads, writes (the marker with an exclusive create-if-absent) and removes
//! files, and hands the bytes back and forth as plain values.

use vstd::prelude::*;

use crate::codec::{db_prefix, enc_db, enc_marker, enc_records, encode_db, encode_marker, parse_db, parse_marker};
use crate::codec::{decode_db, decode_marker, lemma_db_roundtrip, lemma_marker_roundtrip};
use crate::tracker::{EndTime, StartTime, StartupStatus, TimeRecord, TrackerErrorKind};

verus! {

/// Error of the flat-file layer, carrying the failure's category.
#[derive(Debug, Clone, Copy, PartialEq, Eq, Structural)]
pub struct FlatFileTrackerError {
    pub kind: TrackerErrorKind,
}

/// The record collection as held in memory between a load and a save.
#[derive(Debug)]
pub struct FlatfileDatabase {
    pub records: Vec<TimeRecord>,
}

impl FlatfileDatabase {
    /// Append one completed session; appending is the only mutation.
    pub fn push(&mut self, value: TimeRecord)
        ensures
            final(self).records@ == old(self).records@.push(value),
    {
        self.records.push(value);
    }
}

impl Default for FlatfileDatabase {
    /// The empty collection.
    fn default() -> (r: Self)
        ensures
            r.records@ == Seq::<TimeRecord>::empty(),
    {
        FlatfileDatabase { records: Vec::new() }
    }
}

/// The durable tracker's configuration: where the collection document and
/// the session marker live.
#[derive(Debug)]
pub struct FlatFileTracker {
    db: String,
    lockfile: String,
}

impl FlatFileTracker {
    pub closed spec fn db_spec(&self) -> Seq<char> {
        self.db@
    }

    pub closed spec fn lockfile_spec(&self) -> Seq<char> {
        self.lockfile@
    }

    /// A tracker over the given collection path and marker path.
    pub fn new(db: String, lockfile: String) -> (r: Self)
        ensures
            r.db_spec() == db@,
            r.lockfile_spec() == lockfile@,
    {
        FlatFileTracker { db, lockfile }
    }

    /// The collection document's path.
    pub fn db_path(&self) -> (r: &String)
        ensures
            r@ == self.db_spec(),
    {
        &self.db
    }

    /// The marker's path.
    pub fn lockfile_path(&self) -> (r: &String)
        ensures
            r@ == self.lockfile_spec(),
    {
        &self.lockfile
    }
}

/// The bytes of the view `bytes` of an optional resource.
pub open spec fn opt_view(bytes: Option<&Vec<u8>>) -> Option<Seq<u8>> {
    match bytes {
        None => None,
        Some(b) => Some(b@),
    }
}

/// Meaning of the collection resource: an absent resource and an empty one
/// both mean the empty collection; any other content must be a collection
/// document, else the store is corrupt.
pub open spec fn spec_load_db(bytes: Option<Seq<u8>>) -> Result<
    Seq<TimeRecord>,
    FlatFileTrackerError,
> {
    match bytes {
        None => Ok(Seq::<TimeRecord>::empty()),
        Some(b) => if b.len() == 0 {
            Ok(Seq::<TimeRecord>::empty())
        } else {
            match parse_db(b) {
                Some(rs) => Ok(rs),
                None => Err(FlatFileTrackerError { kind: TrackerErrorKind::Corrupt }),
            }
        },
    }
}

/// Decode the collection resource as read from disk (`None` when the file
/// does not exist).
pub fn load_database(bytes: Option<&Vec<u8>>) -> (r: Result<FlatfileDatabase, FlatFileTrackerError>)
    ensures
        match r {
            Ok(db) => spec_load_db(opt_view(bytes)) == Ok::<_, FlatFileTrackerError>(db.records@),
            Err(e) => spec_load_db(opt_view(bytes)) == Err::<Seq<TimeRecord>, _>(e),
        },
{
    match bytes {
        None => Ok(FlatfileDatabase { records: Vec::new() }),
        Some(b) => {
            if b.len() == 0 {
                Ok(FlatfileDatabase { records: Vec::new() })
            } else {
                match decode_db(b) {
                    Some(records) => Ok(FlatfileDatabase { records }),
                    None => Err(FlatFileTrackerError { kind: TrackerErrorKind::Corrupt }),
                }
            }
        },
    }
}

/// The bytes that persist `db`: the whole document, rewritten on every append.
pub fn database_bytes(db: &FlatfileDatabase) -> (r: Vec<u8>)
    ensures
        r@ == enc_db(db.records@),
{
    encode_db(&db.records)
}

/// Meaning of the marker resource: its document's start time, else corruption.
pub open spec fn spec_read_lockfile(b: Seq<u8>) -> Result<StartTime, FlatFileTrackerError> {
    match parse_marker(b) {
        Some(ms) => Ok(StartTime(ms)),
        None => Err(FlatFileTrackerError { kind: TrackerErrorKind::Corrupt }),
    }
}

/// Decode the marker resource as read from disk.
pub fn read_lockfile(bytes: &Vec<u8>) -> (r: Result<StartTime, FlatFileTrackerError>)
    ensures
        r == spec_read_lockfile(bytes@),
{
    match decode_marker(bytes) {
        Some(ms) => Ok(StartTime(ms)),
        None => Err(FlatFileTrackerError { kind: TrackerErrorKind::Corrupt }),
    }
}

/// The bytes to write when a session starting at `start` opens the marker.
pub fn lockfile_bytes(start: StartTime) -> (r: Vec<u8>)
    ensures
        r@ == enc_marker(start.0),
{
    encode_marker(start.0)
}

/// Compute half of `start`, after the exclusive create-if-absent attempt on
/// the marker: the marker already existed means a session was `Running` (and
/// nothing was written); a successful creation means one `Started`.
pub fn start_outcome(already_existed: bool) -> (r: StartupStatus)
    ensures
        r == (if already_existed {
            StartupStatus::Running
        } else {
            StartupStatus::Started
        }),
{
    if already_existed {
        StartupStatus::Running
    } else {
        StartupStatus::Started
    }
}

/// The outcome of `stop`, as a function of what was on disk: no marker is
/// the logical-conflict error; an unreadable marker or collection is
/// corruption; otherwise the new collection document, holding the old
/// records plus the session closed at `end`.
pub open spec fn spec_stop_update(
    marker: Option<Seq<u8>>,
    db: Option<Seq<u8>>,
    end: EndTime,
) -> Result<Seq<u8>, FlatFileTrackerError> {
    match marker {
        None => Err(FlatFileTrackerError { kind: TrackerErrorKind::NotRunning }),
        Some(mb) => match parse_marker(mb) {
            None => Err(FlatFileTrackerError { kind: TrackerErrorKind::Corrupt }),
            Some(ms) => match spec_load_db(db) {
                Err(e) => Err(e),
                Ok(rs) => Ok(enc_db(rs.push(TimeRecord { start: StartTime(ms), end }))),
            },
        },
    }
}

/// Compute half of `stop`: from the marker bytes (`None` when no marker
/// exists — the never-started case) and the collection bytes, the new
/// collection document. The caller writes it in full, then removes the
/// marker — in that order, so that a crash in between leaves the record
/// durable.
pub fn stop_update(
    marker: Option<&Vec<u8>>,
    db: Option<&Vec<u8>>,
    end: EndTime,
) -> (r: Result<Vec<u8>, FlatFileTrackerError>)
    ensures
        match r {
            Ok(v) => spec_stop_update(opt_view(marker), opt_view(db), end) == Ok::<
                _,
                FlatFileTrackerError,
            >(v@),
            Err(e) => spec_stop_update(opt_view(marker), opt_view(db), end) == Err::<Seq<u8>, _>(e),
        },
{
    let mb = match marker {
        None => {
            return Err(FlatFileTrackerError { kind: TrackerErrorKind::NotRunning });
        },
        Some(mb) => mb,
    };
    let start = match read_lockfile(mb) {
        Err(e) => {
            return Err(e);
        },
        Ok(st) => st,
    };
    let mut database = match load_database(db) {
        Err(e) => {
            return Err(e);
        },
        Ok(d) => d,
    };
    database.push(TimeRecord { start, end });
    Ok(database_bytes(&database))
}

/// An encoded collection always loads back as itself: the document is never
/// empty and parses to the records it was made from.
#[verifier::rlimit(100)]
#[verifier::spinoff_prover]
pub proof fn lemma_load_db_of_enc(recs: Seq<TimeRecord>)
    ensures
        spec_load_db(Some(enc_db(recs))) == Ok::<_, FlatFileTrackerError>(recs),
{
    lemma_db_roundtrip(recs);
    assert(parse_db(enc_db(recs)) == Some(recs));
    assert(db_prefix().len() == 12);
    assert(enc_db(recs).len() == db_prefix().len() + enc_records(recs).len() + 2);
    assert(enc_db(recs).len() >= 14);
}

/// Stopping against a well-formed store appends exactly the closed session:
/// with a marker recording `start_ms` and a collection holding `recs`,
/// `stop` succeeds with a document that loads back as `recs` plus the one
/// record from `start_ms` to `end` — nothing else changed, order kept.
#[verifier::rlimit(100)]
#[verifier::spinoff_prover]
pub proof fn lemma_stop_update_well_formed(recs: Seq<TimeRecord>, start_ms: i64, end: EndTime)
    ensures
        ({
            let closed = recs.push(TimeRecord { start: StartTime(start_ms), end });
            let r = spec_stop_update(Some(enc_marker(start_ms)), Some(enc_db(recs)), end);
            &&& r == Ok::<_, FlatFileTrackerError>(enc_db(closed))
            &&& spec_load_db(Some(enc_db(closed))) == Ok::<_, FlatFileTrackerError>(closed)
        }),
{
    let closed = recs.push(TimeRecord { start: StartTime(start_ms), end });
    lemma_marker_roundtrip(start_ms);
    lemma_load_db_of_enc(recs);
    lemma_load_db_of_enc(closed);
}

} // verus!
