use track::flatfile::{
    database_bytes, load_database, lockfile_bytes, read_lockfile, start_outcome, stop_update,
    FlatFileTracker, FlatfileDatabase,
};
use track::tracker::{EndTime, StartTime, StartupStatus, TimeRecord, TrackerErrorKind};

#[test]
fn database_round_trip_empty() {
    let db = FlatfileDatabase::default();
    let bytes = database_bytes(&db);
    assert_eq!(bytes, b"{\"records\":[]}".to_vec());
    let loaded = load_database(Some(&bytes)).unwrap();
    assert_eq!(loaded.records, db.records);
}

#[test]
fn database_round_trip_one() {
    let mut db = FlatfileDatabase::default();
    db.push(TimeRecord { start: StartTime(1), end: EndTime(2) });
    let bytes = database_bytes(&db);
    assert_eq!(bytes, b"{\"records\":[{\"start\":1,\"end\":2}]}".to_vec());
    let loaded = load_database(Some(&bytes)).unwrap();
    assert_eq!(loaded.records, db.records);
}

#[test]
fn database_round_trip_many() {
    let mut db = FlatfileDatabase::default();
    for k in 0..10i64 {
        db.push(TimeRecord { start: StartTime(-5 + 100 * k), end: EndTime(100 * k + 37) });
    }
    let bytes = database_bytes(&db);
    let loaded = load_database(Some(&bytes)).unwrap();
    assert_eq!(loaded.records, db.records);
}

#[test]
fn absent_and_empty_database_mean_empty() {
    assert_eq!(load_database(None).unwrap().records.len(), 0);
    let empty: Vec<u8> = Vec::new();
    assert_eq!(load_database(Some(&empty)).unwrap().records.len(), 0);
}

#[test]
fn corrupt_database_is_an_error() {
    let bytes = b"{\"records\":[nonsense]}".to_vec();
    let err = load_database(Some(&bytes)).unwrap_err();
    assert_eq!(err.kind, TrackerErrorKind::Corrupt);
}

#[test]
fn truncated_database_is_an_error() {
    let bytes = b"{\"records\":[{\"start\":1,\"end\":2}".to_vec();
    let err = load_database(Some(&bytes)).unwrap_err();
    assert_eq!(err.kind, TrackerErrorKind::Corrupt);
}

#[test]
fn lockfile_round_trip() {
    let bytes = lockfile_bytes(StartTime(1234567890123));
    assert_eq!(bytes, b"{\"startTime\":1234567890123}".to_vec());
    let start = read_lockfile(&bytes).unwrap();
    assert_eq!(start, StartTime(1234567890123));
}

#[test]
fn negative_timestamp_round_trip() {
    let bytes = lockfile_bytes(StartTime(-42));
    assert_eq!(bytes, b"{\"startTime\":-42}".to_vec());
    assert_eq!(read_lockfile(&bytes).unwrap(), StartTime(-42));
}

#[test]
fn extreme_timestamps_round_trip() {
    let low = lockfile_bytes(StartTime(i64::MIN));
    assert_eq!(low, b"{\"startTime\":-9223372036854775808}".to_vec());
    assert_eq!(read_lockfile(&low).unwrap(), StartTime(i64::MIN));

    let high = lockfile_bytes(StartTime(i64::MAX));
    assert_eq!(high, b"{\"startTime\":9223372036854775807}".to_vec());
    assert_eq!(read_lockfile(&high).unwrap(), StartTime(i64::MAX));
}

#[test]
fn corrupt_lockfile_is_an_error() {
    let bytes = b"{\"startTime\":oops}".to_vec();
    assert_eq!(read_lockfile(&bytes).unwrap_err().kind, TrackerErrorKind::Corrupt);
}

#[test]
fn stop_without_marker_is_not_running() {
    let err = stop_update(None, None, EndTime(10)).unwrap_err();
    assert_eq!(err.kind, TrackerErrorKind::NotRunning);
}

#[test]
fn stop_appends_record_in_order() {
    let marker = lockfile_bytes(StartTime(100));
    let db = stop_update(Some(&marker), None, EndTime(250)).unwrap();
    assert_eq!(db, b"{\"records\":[{\"start\":100,\"end\":250}]}".to_vec());

    let marker2 = lockfile_bytes(StartTime(300));
    let db2 = stop_update(Some(&marker2), Some(&db), EndTime(450)).unwrap();
    assert_eq!(
        db2,
        b"{\"records\":[{\"start\":100,\"end\":250},{\"start\":300,\"end\":450}]}".to_vec()
    );
}

#[test]
fn stop_with_corrupt_marker_is_corrupt() {
    let marker = b"{\"startTime\":}".to_vec();
    let err = stop_update(Some(&marker), None, EndTime(10)).unwrap_err();
    assert_eq!(err.kind, TrackerErrorKind::Corrupt);
}

#[test]
fn start_outcome_maps_existence_to_status() {
    assert_eq!(start_outcome(true), StartupStatus::Running);
    assert_eq!(start_outcome(false), StartupStatus::Started);
}

#[test]
fn tracker_keeps_its_paths() {
    let tracker = FlatFileTracker::new("db.json".to_string(), "lockfile".to_string());
    assert_eq!(tracker.db_path().as_str(), "db.json");
    assert_eq!(tracker.lockfile_path().as_str(), "lockfile");
}
