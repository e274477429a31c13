use muzn_dm::model::{now_ms, millis_as_stored, DownloadId, DownloadStatus, NewDownload};
use muzn_dm::store::{completed_at, decode_row, found, migration, next_queued_of, StoredRow};

const ALL: [DownloadStatus; 8] = [
    DownloadStatus::Queued,
    DownloadStatus::Probing,
    DownloadStatus::Downloading,
    DownloadStatus::Paused,
    DownloadStatus::Completed,
    DownloadStatus::Failed,
    DownloadStatus::Cancelled,
    DownloadStatus::Seeding,
];

#[test]
fn every_status_reads_back_from_its_text() {
    for s in ALL {
        assert_eq!(DownloadStatus::parse(s.as_str()), Some(s));
    }
    assert_eq!(DownloadStatus::Paused.as_str(), "PAUSED");
    assert_eq!(DownloadStatus::parse("paused"), None);
    assert_eq!(DownloadStatus::parse(""), None);
}

#[test]
fn ids_are_fresh_uuids() {
    let a = DownloadId::new();
    let b = DownloadId::default();
    assert_eq!(a.as_str().len(), 36);
    assert_ne!(a, b);
    assert_eq!(a.clone(), a);
}

#[test]
fn the_clock_is_after_the_epoch() {
    assert!(now_ms() > 1_600_000_000_000);
    assert_eq!(millis_as_stored(None), 0);
    assert_eq!(millis_as_stored(Some(42)), 42);
}

#[test]
fn a_new_download_defaults_to_nothing() {
    let n = NewDownload::default();
    assert!(n.url.is_empty() && n.dir.is_none() && !n.start_paused);
}

fn raw(status: &str, size: Option<i64>, seg_sum: i64) -> StoredRow {
    StoredRow {
        id: "a".into(),
        kind: "http".into(),
        url: "https://x/a".into(),
        final_url: None,
        filename: Some("a.bin".into()),
        dir: "/d".into(),
        size,
        status: status.into(),
        etag: None,
        last_modified: None,
        mime: None,
        referrer: None,
        headers: vec![],
        cookies: vec![],
        error_code: None,
        error_message: None,
        created_at: 10,
        updated_at: 20,
        completed_at: None,
        seg_sum,
    }
}

#[test]
fn stored_rows_read_back() {
    let r = decode_row(raw("COMPLETED", Some(99), 50)).unwrap();
    assert_eq!((r.status, r.size, r.downloaded), (DownloadStatus::Completed, Some(99), 99));
    let r = decode_row(raw("PAUSED", Some(99), 60)).unwrap();
    assert_eq!((r.status, r.downloaded), (DownloadStatus::Paused, 60));
    let r = decode_row(raw("COMPLETED", None, 60)).unwrap();
    assert_eq!(r.downloaded, 0);
    assert_eq!(decode_row(raw("BOGUS", None, 0)).unwrap_err().code(), "INVALID_STATE");
    let mut t = raw("QUEUED", None, 0);
    t.kind = "torrent".into();
    assert_eq!(decode_row(t).unwrap().kind, muzn_dm::model::DownloadKind::Torrent);
}

#[test]
fn next_queued_is_fifo_and_skips_excluded_ids() {
    let (a, b, c) = (DownloadId("a".into()), DownloadId("b".into()), DownloadId("c".into()));
    let queued = vec![a.clone(), c.clone()];
    assert_eq!(next_queued_of(&queued, &vec![]), Some(a.clone()));
    assert_eq!(next_queued_of(&queued, &vec![a.clone()]), Some(c.clone()));
    assert_eq!(next_queued_of(&queued, &vec![a.clone(), c.clone()]), None);
    assert_eq!(next_queued_of(&vec![], &vec![b]), None);
}

#[test]
fn store_rules() {
    assert_eq!(migration(0).unwrap(), true);
    assert_eq!(migration(1).unwrap(), false);
    assert_eq!(migration(2).unwrap_err().code(), "INVALID_STATE");
    assert_eq!(found(0, &DownloadId("x".into())).unwrap_err().code(), "NOT_FOUND");
    assert!(found(1, &DownloadId("x".into())).is_ok());
    assert_eq!(completed_at(DownloadStatus::Completed, 30), Some(30));
    assert_eq!(completed_at(DownloadStatus::Failed, 30), None);
}

#[test]
fn a_newer_schema_is_refused_with_its_number() {
    let e = migration(7).unwrap_err();
    assert_eq!(e.message(), "invalid state: database schema 7 is newer than this build (1)");
}
