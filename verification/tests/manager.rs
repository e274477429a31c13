use muzn_dm::core_error::CoreError;
use muzn_dm::download::Status;
use muzn_dm::error::EngineError;
use muzn_dm::manager::{
    after_run, after_start_error, can_start, cancel_idle, completion_steps, control_action, extras_of,
    finished_file, saves_progress, to_start, PERSIST_INTERVAL_MS,
    late_action, needs_fresh_start, part_path_of, pause_idle, paused_by_pause_all, prepare_add,
    raise, rank, reserved_parts, restart_check, resume_idle, resume_of, resumed_by_resume_all,
    settle_action, sweep_goes_on, AfterRun, ControlAction, LateAction, SettleAction, StartFailure,
    INTENT_CANCEL, INTENT_NONE, INTENT_PAUSE, INTENT_REMOVE, INTENT_SHUTDOWN,
};
use muzn_dm::model::{DownloadId, DownloadKind, DownloadRow, DownloadStatus, Header, NewDownload, SavedCookie};
use muzn_dm::plan::SegmentState;

fn row(id: &str, dir: &str, status: DownloadStatus, filename: Option<&str>) -> DownloadRow {
    DownloadRow {
        id: DownloadId(id.into()),
        kind: DownloadKind::Http,
        url: "https://x/a".into(),
        final_url: None,
        filename: filename.map(str::to_owned),
        dir: dir.into(),
        size: Some(10),
        downloaded: 0,
        status,
        etag: Some("\"e\"".into()),
        last_modified: None,
        mime: None,
        referrer: Some("https://example.com/page".into()),
        headers: vec![Header { name: "X-A".into(), value: "1".into() }],
        cookies: vec![SavedCookie { name: "s".into(), value: "v".into() }],
        error_code: None,
        error_message: None,
        created_at: 0,
        updated_at: 0,
        completed_at: None,
    }
}

#[test]
fn a_stronger_signal_wins_and_a_weaker_one_is_ignored() {
    assert_eq!(raise(INTENT_NONE, INTENT_PAUSE), Some(INTENT_PAUSE));
    assert_eq!(raise(INTENT_PAUSE, INTENT_CANCEL), Some(INTENT_CANCEL));
    assert_eq!(raise(INTENT_REMOVE, INTENT_PAUSE), None, "an earlier REMOVE is not undone");
    assert_eq!(raise(INTENT_CANCEL, INTENT_SHUTDOWN), None);
    assert_eq!(raise(INTENT_SHUTDOWN, INTENT_SHUTDOWN), None);
    assert_eq!(rank(INTENT_REMOVE), 4);
    assert_eq!(rank(INTENT_NONE), 0);
    assert_eq!(control_action(INTENT_SHUTDOWN), ControlAction::Pause);
    assert_eq!(control_action(INTENT_REMOVE), ControlAction::Cancel);
}

#[test]
fn settling_and_late_signals() {
    assert_eq!(settle_action(INTENT_CANCEL), SettleAction::Cancel);
    assert_eq!(settle_action(INTENT_REMOVE), SettleAction::Remove);
    assert_eq!(settle_action(INTENT_SHUTDOWN), SettleAction::Requeue);
    assert_eq!(settle_action(INTENT_PAUSE), SettleAction::Pause);
    assert_eq!(settle_action(INTENT_NONE), SettleAction::Pause);
    assert_eq!(late_action(INTENT_REMOVE, INTENT_PAUSE, DownloadStatus::Paused), LateAction::Remove);
    assert_eq!(late_action(INTENT_CANCEL, INTENT_NONE, DownloadStatus::Completed), LateAction::Nothing);
    assert_eq!(late_action(INTENT_CANCEL, INTENT_PAUSE, DownloadStatus::Paused), LateAction::Cancel);
    assert_eq!(late_action(INTENT_SHUTDOWN, INTENT_PAUSE, DownloadStatus::Paused), LateAction::Requeue);
    assert_eq!(late_action(INTENT_SHUTDOWN, INTENT_NONE, DownloadStatus::Completed), LateAction::Nothing);
    assert_eq!(late_action(INTENT_PAUSE, INTENT_PAUSE, DownloadStatus::Paused), LateAction::Nothing);
}

#[test]
fn idle_rows_follow_their_status() {
    assert_eq!(pause_idle(DownloadStatus::Queued), Some(DownloadStatus::Paused));
    assert_eq!(pause_idle(DownloadStatus::Failed), None);
    assert_eq!(resume_idle(DownloadStatus::Failed).unwrap(), true);
    assert_eq!(resume_idle(DownloadStatus::Queued).unwrap(), false);
    match resume_idle(DownloadStatus::Completed) {
        Err(CoreError::InvalidState(m)) => assert_eq!(m, "cannot resume a COMPLETED download"),
        other => panic!("{other:?}"),
    }
    assert_eq!(cancel_idle(DownloadStatus::Completed).unwrap_err().code(), "INVALID_STATE");
    assert_eq!(cancel_idle(DownloadStatus::Cancelled).unwrap(), false);
    assert_eq!(cancel_idle(DownloadStatus::Paused).unwrap(), true);
    assert_eq!(restart_check(true, DownloadStatus::Paused).unwrap_err().code(), "INVALID_STATE");
    assert_eq!(restart_check(false, DownloadStatus::Completed).unwrap_err().code(), "INVALID_STATE");
    assert!(restart_check(false, DownloadStatus::Failed).is_ok());
    assert!(paused_by_pause_all(DownloadStatus::Probing));
    assert!(!paused_by_pause_all(DownloadStatus::Paused));
    assert!(resumed_by_resume_all(DownloadStatus::Paused));
    assert!(sweep_goes_on(&CoreError::NotFound("x".into())));
    assert!(!sweep_goes_on(&CoreError::Settings("x".into())));
    assert!(can_start(false, 0, 1));
    assert!(!can_start(false, 1, 1));
    assert!(!can_start(true, 0, 3));
}

#[test]
fn only_http_urls_are_accepted() {
    let e = prepare_add(NewDownload { url: "ftp://example.com/x".into(), ..NewDownload::default() }, "/d").unwrap_err();
    assert_eq!(e.code(), "INVALID_URL");
    let e = prepare_add(NewDownload { url: "not a url".into(), ..NewDownload::default() }, "/d").unwrap_err();
    assert_eq!(e.code(), "INVALID_URL");
    let (n, dir, st) = prepare_add(NewDownload { url: "  https://x/a b".into(), ..NewDownload::default() }, "/d").unwrap();
    assert_eq!((n.url.as_str(), dir.as_str(), st), ("https://x/a%20b", "/d", DownloadStatus::Queued));
    let (_, dir, st) = prepare_add(
        NewDownload { url: "http://x/".into(), dir: Some("/mine".into()), start_paused: true, ..NewDownload::default() },
        "/d",
    )
    .unwrap();
    assert_eq!((dir.as_str(), st), ("/mine", DownloadStatus::Paused));
}

#[test]
fn a_fresh_start_leaves_other_resumable_parts_alone() {
    let me = row("me", "/d", DownloadStatus::Queued, Some("file"));
    let rows = vec![
        me.clone(),
        row("p", "/d", DownloadStatus::Paused, Some("file")),
        row("c", "/d", DownloadStatus::Completed, Some("done")),
        row("x", "/d", DownloadStatus::Cancelled, Some("gone")),
        row("o", "/other", DownloadStatus::Paused, Some("file")),
        row("n", "/d", DownloadStatus::Queued, None),
        row("f", "/d", DownloadStatus::Failed, Some("broken.bin")),
    ];
    assert_eq!(reserved_parts(&rows, &me), vec!["/d/file.mdm.part".to_string(), "/d/broken.bin.mdm.part".to_string()]);
    assert_eq!(part_path_of(&me).as_deref(), Some("/d/file.mdm.part"));
    assert_eq!(finished_file(&rows[2], true).as_deref(), Some("/d/done"));
    assert_eq!(finished_file(&rows[2], false), None);
    assert_eq!(finished_file(&rows[1], true), None);
}

#[test]
fn a_rows_extras_carry_its_headers_referrer_and_cookies() {
    let x = extras_of(&row("a", "/d", DownloadStatus::Queued, None));
    assert_eq!(
        x.headers,
        vec![("X-A".to_string(), "1".to_string()), ("Referer".to_string(), "https://example.com/page".to_string())]
    );
    assert_eq!((x.cookies[0].name.as_str(), x.cookies[0].value.as_str()), ("s", "v"));
}

#[test]
fn when_to_start_over() {
    assert!(needs_fresh_start(&EngineError::RangeNotSupported));
    assert!(needs_fresh_start(&EngineError::InvalidResume("x".into())));
    assert!(needs_fresh_start(&EngineError::Io(std::io::Error::new(std::io::ErrorKind::NotFound, "gone"))));
    assert!(!needs_fresh_start(&EngineError::Io(std::io::Error::new(std::io::ErrorKind::Other, "x"))));
    assert!(!needs_fresh_start(&EngineError::SourceChanged));
    assert_eq!(after_start_error(true, true, false, true), StartFailure::Settle);
    assert_eq!(after_start_error(false, true, false, true), StartFailure::StartOver);
    assert_eq!(after_start_error(false, true, true, true), StartFailure::Fail, "only once");
    assert_eq!(after_run(Status::Completed, INTENT_PAUSE, false, false), AfterRun::Complete);
    assert_eq!(after_run(Status::Paused, INTENT_PAUSE, false, false), AfterRun::Settle);
    assert_eq!(after_run(Status::Failed, INTENT_NONE, true, false), AfterRun::StartOver);
    assert_eq!(after_run(Status::Failed, INTENT_NONE, true, true), AfterRun::Fail);
    assert_eq!(after_run(Status::Failed, INTENT_CANCEL, false, false), AfterRun::Settle);
}

#[test]
fn a_row_resumes_with_its_saved_state() {
    let r = row("a", "/d", DownloadStatus::Paused, Some("f"));
    assert!(resume_of(&r, vec![]).is_none());
    let res = resume_of(&r, vec![SegmentState { idx: 0, start: 0, end: 9, downloaded: 4 }]).unwrap();
    assert_eq!((res.size, res.etag.as_deref()), (10, Some("\"e\"")));
    let mut no_size = r.clone();
    no_size.size = None;
    assert!(resume_of(&no_size, vec![SegmentState { idx: 0, start: 0, end: 9, downloaded: 4 }]).is_none());
}

#[test]
fn completing_and_saving_progress() {
    assert_eq!(completion_steps(true, INTENT_NONE), (false, false));
    assert_eq!(completion_steps(false, INTENT_PAUSE), (true, false), "an unknown size is read from the file");
    assert_eq!(completion_steps(true, INTENT_REMOVE), (false, true), "a REMOVE during the last bytes still removes");
    assert!(saves_progress(Status::Downloading, PERSIST_INTERVAL_MS));
    assert!(!saves_progress(Status::Downloading, PERSIST_INTERVAL_MS - 1));
    assert!(!saves_progress(Status::Paused, 10 * PERSIST_INTERVAL_MS), "the outcome saves a stopped run");
}

#[test]
fn a_pass_starts_the_oldest_queued_rows_up_to_the_limit() {
    let id = |s: &str| DownloadId(s.to_string());
    let queued = vec![id("a"), id("b"), id("c"), id("d")];
    let started = to_start(false, &vec![id("b")], 3, &queued);
    assert_eq!(started, vec![id("a"), id("c")], "b runs already; two slots left");
    assert!(to_start(true, &vec![], 3, &queued).is_empty(), "nothing starts while closing");
    assert!(to_start(false, &vec![id("x"), id("y"), id("z")], 3, &queued).is_empty(), "no free slot");
    assert_eq!(to_start(false, &vec![], 10, &queued), queued, "fewer only when none is left");
    assert_eq!(to_start(false, &vec![], 1, &vec![id("a"), id("a")]), vec![id("a")]);
}
