use muzn_dm::api::{clipboard_link, completed_path, ApiError};
use muzn_dm::core_error::CoreError;
use muzn_dm::model::{DownloadId, DownloadKind, DownloadRow, DownloadStatus};
use muzn_dm::paths::AppPaths;

fn row(status: DownloadStatus, filename: Option<&str>) -> DownloadRow {
    DownloadRow {
        id: DownloadId("a".into()),
        kind: DownloadKind::Http,
        url: "https://x/y.zip".into(),
        final_url: None,
        filename: filename.map(str::to_owned),
        dir: "/dl".into(),
        size: None,
        downloaded: 0,
        status,
        etag: None,
        last_modified: None,
        mime: None,
        referrer: None,
        headers: vec![],
        cookies: vec![],
        error_code: None,
        error_message: None,
        created_at: 0,
        updated_at: 0,
        completed_at: None,
    }
}

#[test]
fn only_a_completed_download_has_a_file_to_open() {
    assert_eq!(
        completed_path(&row(DownloadStatus::Completed, Some("y.zip"))).unwrap(),
        "/dl/y.zip"
    );
    for s in [
        DownloadStatus::Downloading,
        DownloadStatus::Paused,
        DownloadStatus::Failed,
    ] {
        assert_eq!(
            completed_path(&row(s, Some("y.zip"))).unwrap_err().code,
            "INVALID_STATE"
        );
    }
    assert!(completed_path(&row(DownloadStatus::Completed, None)).is_err());
}

#[test]
fn the_clipboard_fills_the_add_dialog_only_with_one_web_link() {
    assert_eq!(
        clipboard_link("  https://x.com/a.zip \n").as_deref(),
        Some("https://x.com/a.zip")
    );
    assert_eq!(clipboard_link("http://x/a").as_deref(), Some("http://x/a"));
    assert_eq!(clipboard_link("ftp://x/a"), None);
    assert_eq!(clipboard_link("hello world"), None);
    assert_eq!(clipboard_link("https://x/a https://x/b"), None);
    assert_eq!(clipboard_link(""), None);
}

#[test]
fn a_core_error_keeps_its_code() {
    let e = ApiError::from_core(&CoreError::NotFound("abc".into()));
    assert_eq!(e.code, "NOT_FOUND");
    assert!(e.message.contains("abc"));
    assert_eq!(ApiError::internal("x".into()).code, "INTERNAL");
    assert_eq!(ApiError::invalid_state("y".into()).code, "INVALID_STATE");
    let engine = ApiError::from_core(&CoreError::Engine(muzn_dm::error::EngineError::HttpStatus { status: 404 }));
    assert_eq!((engine.code.as_str(), engine.message.as_str()), ("HTTP_STATUS", "HTTP 404"));
}

#[test]
fn data_lives_in_muzn_dm_under_the_os_data_dir() {
    let p = AppPaths::from_roots("/data".into(), Some("/dl".into()), "/home/u".into());
    assert_eq!(p.data_dir, "/data/muzn-dm");
    assert_eq!(p.db, "/data/muzn-dm/mdm.db");
    assert_eq!(p.download_dir, "/dl");
}

#[test]
fn downloads_fall_back_to_home() {
    let p = AppPaths::from_roots("/data".into(), None, "/home/u".into());
    assert_eq!(p.download_dir, "/home/u");
}
