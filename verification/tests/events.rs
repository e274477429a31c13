use muzn_dm::events::{completed_name, event_name, ManagerEvent, SegmentView, PROGRESS, STATUS};
use muzn_dm::model::{DownloadId, DownloadKind, DownloadRow, DownloadStatus};
use muzn_dm::plan::SegmentState;

fn row(status: DownloadStatus) -> DownloadRow {
    DownloadRow {
        id: DownloadId("a".into()),
        kind: DownloadKind::Http,
        url: "https://x/y.zip".into(),
        final_url: None,
        filename: Some("y.zip".into()),
        dir: "/dl".into(),
        size: Some(3),
        downloaded: 3,
        status,
        etag: None,
        last_modified: None,
        mime: None,
        referrer: None,
        headers: vec![],
        cookies: vec![],
        error_code: None,
        error_message: None,
        created_at: 0,
        updated_at: 0,
        completed_at: None,
    }
}

#[test]
fn progress_and_status_travel_on_their_own_events() {
    let p = ManagerEvent::Progress {
        id: DownloadId("a".into()),
        total: None,
        downloaded: 0,
        speed_bps: 0,
        eta_secs: None,
        segments: vec![],
    };
    assert_eq!(event_name(&p), PROGRESS);
    assert_eq!(
        event_name(&ManagerEvent::Removed {
            id: DownloadId("a".into())
        }),
        STATUS
    );
    assert_eq!(
        event_name(&ManagerEvent::Updated {
            download: row(DownloadStatus::Paused)
        }),
        STATUS
    );
}

#[test]
fn only_a_completion_is_announced() {
    let done = ManagerEvent::Updated {
        download: row(DownloadStatus::Completed),
    };
    assert_eq!(completed_name(&done), Some("y.zip"));
    let added = ManagerEvent::Added {
        download: row(DownloadStatus::Completed),
    };
    assert_eq!(completed_name(&added), None, "added, not completing");
    let paused = ManagerEvent::Updated {
        download: row(DownloadStatus::Paused),
    };
    assert_eq!(completed_name(&paused), None);
}

#[test]
fn a_completion_without_a_name_announces_its_url() {
    let mut r = row(DownloadStatus::Completed);
    r.filename = None;
    assert_eq!(completed_name(&ManagerEvent::Updated { download: r }), Some("https://x/y.zip"));
}

#[test]
fn segment_views_copy_the_ranges() {
    let s = vec![SegmentState { idx: 4, start: 10, end: 19, downloaded: 3 }];
    assert_eq!(SegmentView::of_all(&s), vec![SegmentView { start: 10, end: 19, downloaded: 3 }]);
}
