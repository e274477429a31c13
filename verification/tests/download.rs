use muzn_dm::download::{
    all_done, claim_part, eta, extras_for, final_eta, final_progress, initial_segments, needs_final_sync,
    on_worker_end, outcome_of, run_end, sort_by_start, status_of, steal, stop_on_drop,
    total_downloaded, validate_resume, validate_resume_segments, Outcome, Resume, RunEnd, RunTally,
    PartRegistry, SpeedMeter, Status, WorkerAction, WorkerEnd, STOP_CANCEL, STOP_NONE, STOP_PAUSE,
};
use muzn_dm::error::EngineError;
use muzn_dm::request::{Cookie, RequestExtras};
use muzn_dm::file::{candidate_name, numbered_filename, part_path, split_ext};
use muzn_dm::plan::{plan_segments, SegmentState};
use muzn_dm::segment::{SegmentRuntime, UNKNOWN_END};

const MIB: u64 = 1024 * 1024;

fn seg(idx: u32, start: u64, end: u64, downloaded: u64) -> SegmentState {
    SegmentState { idx, start, end, downloaded }
}

fn resume(segments: Vec<SegmentState>, size: u64) -> Resume {
    Resume { segments, size, etag: None, last_modified: None }
}

#[test]
fn resume_state_must_cover_the_file() {
    let ok = resume(vec![seg(1, 50, 99, 10), seg(0, 0, 49, 50)], 100);
    assert!(validate_resume(&ok, 100).is_ok());
    assert_eq!(validate_resume(&ok, 99).unwrap_err().code(), "INVALID_RESUME");
    let hole = resume(vec![seg(0, 0, 49, 0), seg(1, 51, 99, 0)], 100);
    assert_eq!(validate_resume_segments(&hole).unwrap_err().code(), "INVALID_RESUME");
    let short = resume(vec![seg(0, 0, 49, 0)], 100);
    assert_eq!(validate_resume_segments(&short).unwrap_err().code(), "INVALID_RESUME");
    let corrupted = resume(vec![seg(0, 0, u64::MAX, 0)], 100);
    assert_eq!(validate_resume_segments(&corrupted).unwrap_err().code(), "INVALID_RESUME");
    let greedy = resume(vec![seg(0, 0, 9, 11)], 10);
    assert_eq!(validate_resume_segments(&greedy).unwrap_err().code(), "INVALID_RESUME");
    assert!(validate_resume(&resume(vec![], 0), 0).is_ok());
    assert!(validate_resume_segments(&resume(vec![seg(0, 0, 0, 0)], 0)).is_err());
    assert!(validate_resume_segments(&resume(vec![], 5)).is_err());
}

#[test]
fn segments_sort_stably_by_start() {
    let v = vec![seg(2, 20, 29, 0), seg(0, 0, 9, 0), seg(1, 10, 19, 0), seg(3, 10, 12, 0)];
    let s = sort_by_start(&v);
    let idx: Vec<u32> = s.iter().map(|x| x.idx).collect();
    assert_eq!(idx, vec![0, 1, 3, 2]);
}

#[test]
fn a_fresh_start_takes_the_first_free_name() {
    let p0 = part_path("/d", "file");
    let p1 = part_path("/d", "file (1)");
    assert_eq!(p0, "/d/file.mdm.part");
    let (f, p) = claim_part("/d", "file", false, &vec![], &vec![]).unwrap();
    assert_eq!((f.as_str(), p.as_str()), ("file", "/d/file.mdm.part"));
    let (f, _) = claim_part("/d", "file", false, &vec![p0.clone()], &vec![]).unwrap();
    assert_eq!(f, "file (1)");
    let (f, _) = claim_part("/d", "file", false, &vec![p0.clone()], &vec![p1.clone()]).unwrap();
    assert_eq!(f, "file (2)");
    assert_eq!(claim_part("/d", "file", true, &vec![p0.clone()], &vec![]).unwrap_err().code(), "INVALID_RESUME");
    let (f, p) = claim_part("/d", "file", true, &vec![], &vec![p0.clone()]).unwrap();
    assert_eq!((f.as_str(), p.as_str()), ("file", "/d/file.mdm.part"), "a resume may use its own reserved part");
}

#[test]
fn a_reserved_part_is_skipped_for_the_next_name() {
    let reserved = vec![part_path("/dl", "movie.mkv")];
    let (f, p) = claim_part("/dl", "movie.mkv", false, &vec![], &reserved).unwrap();
    assert_eq!((f.as_str(), p.as_str()), ("movie (1).mkv", "/dl/movie (1).mkv.mdm.part"));
    assert_ne!(p, reserved[0]);
}

#[test]
fn names_split_on_the_last_dot() {
    assert_eq!(split_ext("a.tar.gz"), ("a.tar".to_string(), ".gz".to_string()));
    assert_eq!(split_ext(".bashrc"), (".bashrc".to_string(), String::new()));
    assert_eq!(split_ext("README"), ("README".to_string(), String::new()));
    assert_eq!(numbered_filename("a.tar.gz", 1), "a.tar (1).gz");
    assert_eq!(numbered_filename("README", 2), "README (2)");
    assert_eq!(candidate_name("x.bin", 0), "x.bin");
    assert_eq!(candidate_name("x.bin", 12), "x (12).bin");
}

#[test]
fn the_first_layout_follows_the_probe() {
    let (s, ranged) = initial_segments(Some(3 * MIB), true, None, 8);
    assert!(ranged);
    assert_eq!(s.len(), 3);
    let (s, ranged) = initial_segments(Some(0), false, None, 8);
    assert!(!ranged && s.is_empty());
    let (s, ranged) = initial_segments(Some(10), false, None, 8);
    assert!(!ranged);
    assert_eq!(s, vec![SegmentRuntime::new(0, 0, Some(9), 0)]);
    let (s, ranged) = initial_segments(None, true, None, 8);
    assert!(!ranged);
    assert_eq!(s[0].end, UNKNOWN_END);
    let r = resume(vec![seg(0, 0, 9, 5)], 10);
    let (s, ranged) = initial_segments(Some(10), true, Some(&r), 8);
    assert!(ranged);
    assert_eq!(s, vec![SegmentRuntime::new(0, 0, Some(9), 5)]);
}

#[test]
fn a_finished_worker_takes_half_of_the_largest_remaining_range() {
    // 1 MiB + 11 MiB, the small one done
    let mut segs = vec![
        SegmentRuntime::new(0, 0, Some(MIB - 1), MIB),
        SegmentRuntime::new(1, MIB, Some(12 * MIB - 1), 0),
    ];
    let fresh = steal(&mut segs, true).unwrap();
    let mid = MIB + 11 * MIB / 2;
    assert_eq!(fresh, SegmentRuntime::new(2, mid, Some(12 * MIB - 1), 0));
    assert_eq!(segs[1].end + 1, fresh.start);
    assert_eq!(segs.len(), 3);
    assert!(steal(&mut segs.clone(), false).is_none());
}

#[test]
fn nothing_is_stolen_when_at_most_two_mib_remain() {
    let mut segs: Vec<SegmentRuntime> = plan_segments(3 * MIB, 2).iter().map(SegmentRuntime::from_state).collect();
    let before = segs.clone();
    assert!(steal(&mut segs, true).is_none(), "1.5 MiB halves never qualify");
    assert_eq!(segs, before);
}

#[test]
fn the_last_of_equal_victims_is_split() {
    let mut segs = vec![
        SegmentRuntime::new(0, 0, Some(4 * MIB - 1), 0),
        SegmentRuntime::new(7, 4 * MIB, Some(8 * MIB - 1), 0),
    ];
    let fresh = steal(&mut segs, true).unwrap();
    assert_eq!(fresh.idx, 8);
    assert_eq!(segs[0].end, 4 * MIB - 1, "the first is untouched");
    assert_eq!(segs[1].end, 6 * MIB - 1);
}

#[test]
fn progress_numbers() {
    assert_eq!(total_downloaded(&vec![seg(0, 0, 9, 3), seg(1, 10, 19, 4)]), 7);
    assert_eq!(eta(Some(100), 100, 0), Some(0));
    assert_eq!(eta(Some(100), 40, 30), Some(2));
    assert_eq!(eta(Some(100), 40, 0), None);
    assert_eq!(eta(None, 40, 10), None);
    assert_eq!(final_eta(Some(10), 10), Some(0));
    assert_eq!(final_eta(Some(10), 9), None);
}

#[test]
fn the_speed_is_measured_over_the_window() {
    let mut m = SpeedMeter::new();
    assert_eq!(m.push(0, 0), 0);
    assert_eq!(m.push(10_000_000, 100), 0, "too short a window");
    assert_eq!(m.push(1_000_000_000, 1_000), 1_000);
    assert_eq!(m.push(2_000_000_000, 3_000), 1_500);
    // samples older than two seconds leave the window
    assert_eq!(m.push(4_000_000_000, 5_000), 1_000);
}

#[test]
fn speed_is_measured_over_the_window_only() {
    let mut m = SpeedMeter::new();
    m.push(0, 0);
    m.push(1_000_000_000, 0);
    m.push(2_000_000_000, 0);
    // the two oldest samples are stale: 3000 bytes over the last 1.5 s
    assert_eq!(m.push(3_500_000_000, 3_000), 2_000);
    // two samples always stay, however old
    let mut n = SpeedMeter::new();
    n.push(0, 0);
    assert_eq!(n.push(10_000_000_000, 5_000), 500);
}

#[test]
fn how_a_run_ends() {
    assert_eq!(run_end(true, STOP_CANCEL, true), RunEnd::Failed);
    assert_eq!(run_end(false, STOP_CANCEL, true), RunEnd::Cancelled);
    assert_eq!(run_end(false, STOP_PAUSE, true), RunEnd::Complete, "a pause after the last byte still completes");
    assert_eq!(run_end(false, STOP_PAUSE, false), RunEnd::Paused);
    assert_eq!(run_end(false, STOP_NONE, false), RunEnd::Incomplete);
    assert!(!needs_final_sync(false, STOP_NONE, true));
    assert!(needs_final_sync(false, STOP_PAUSE, true));
    assert!(all_done(false, None, false, true, &vec![]));
    assert!(!all_done(false, None, true, true, &vec![]));
    assert!(all_done(true, Some(10), false, false, &vec![seg(0, 0, 9, 10)]));
    assert!(!all_done(true, Some(10), false, true, &vec![seg(0, 0, 9, 9)]));
    assert_eq!(status_of(&Outcome::Cancelled), Status::Cancelled);
    assert_eq!(status_of(&Outcome::Paused(vec![])), Status::Paused);
    assert_eq!(status_of(&Outcome::Failed { error: EngineError::Cancelled, segments: vec![] }), Status::Failed);
    assert_eq!(stop_on_drop(STOP_NONE), STOP_PAUSE);
    assert_eq!(stop_on_drop(STOP_CANCEL), STOP_CANCEL, "cancel then drop still reports cancelled");
}

#[test]
fn a_fresh_plan_is_accepted_as_resume_state() {
    for (size, conns) in [(1u64, 8u8), (10 * MIB + 7, 4), (3 * MIB, 32), (100 * MIB, 0)] {
        let plan = plan_segments(size, conns);
        assert!(validate_resume(&resume(plan, size), size).is_ok(), "size {size}");
    }
    assert!(validate_resume(&resume(plan_segments(0, 8), 0), 0).is_ok());
}

#[test]
fn the_first_failure_stops_the_run_and_a_finished_worker_steals() {
    let mut t = RunTally::new();
    assert_eq!(on_worker_end(&mut t, WorkerEnd::Done, false), WorkerAction::Steal);
    assert!(t.worker_ok);
    assert_eq!(on_worker_end(&mut t, WorkerEnd::Done, true), WorkerAction::Nothing, "stopping");
    assert_eq!(on_worker_end(&mut t, WorkerEnd::Cancelled, false), WorkerAction::Nothing);
    assert!(t.failure.is_none());
    assert_eq!(
        on_worker_end(&mut t, WorkerEnd::Failed(EngineError::HttpStatus { status: 404 }), false),
        WorkerAction::StopAll
    );
    assert_eq!(
        on_worker_end(&mut t, WorkerEnd::Failed(EngineError::DiskFull), false),
        WorkerAction::Nothing,
        "a later failure changes nothing"
    );
    assert_eq!(t.failure.as_ref().unwrap().code(), "HTTP_STATUS");
    assert_eq!(on_worker_end(&mut t, WorkerEnd::Done, false), WorkerAction::Nothing, "no stealing after a failure");

    let mut p = RunTally::new();
    assert_eq!(on_worker_end(&mut p, WorkerEnd::Panicked, false), WorkerAction::StopAll);
    assert_eq!(p.failure.as_ref().unwrap().code(), "INTERNAL");
    assert!(!p.worker_ok);
}

#[test]
fn every_end_but_completion_reports_the_durable_segments() {
    let durable = vec![seg(0, 0, 9, 4)];
    match outcome_of(RunEnd::Failed, Some(EngineError::DiskFull), None, durable.clone()) {
        Outcome::Failed { error, segments } => {
            assert_eq!(error.code(), "DISK_FULL");
            assert_eq!(segments, durable);
        }
        _ => panic!("failed"),
    }
    assert!(matches!(outcome_of(RunEnd::Cancelled, None, None, durable.clone()), Outcome::Cancelled));
    match outcome_of(RunEnd::Complete, None, Some(Ok("/dl/f.bin".to_string())), durable.clone()) {
        Outcome::Completed(p) => assert_eq!(p, "/dl/f.bin"),
        _ => panic!("completed"),
    }
    match outcome_of(RunEnd::Complete, None, Some(Err(EngineError::DiskFull)), durable.clone()) {
        Outcome::Failed { error, segments } => {
            assert_eq!(error.code(), "DISK_FULL");
            assert_eq!(segments, durable);
        }
        _ => panic!("finishing failed"),
    }
    match outcome_of(RunEnd::Paused, None, None, durable.clone()) {
        Outcome::Paused(s) => assert_eq!(s, durable),
        _ => panic!("paused"),
    }
    match outcome_of(RunEnd::Incomplete, None, None, durable.clone()) {
        Outcome::Failed { error, segments } => {
            assert_eq!(error.code(), "INTERNAL");
            assert_eq!(error.message(), "internal error: workers ended with bytes missing");
            assert_eq!(segments, durable);
        }
        _ => panic!("incomplete"),
    }
}

#[test]
fn the_last_progress_of_a_run() {
    let live = vec![seg(0, 0, 9, 10)];
    let durable = vec![seg(0, 0, 9, 6)];
    let done = final_progress(&Outcome::Completed("/dl/f".into()), Some(10), 10, live.clone(), durable.clone());
    assert_eq!((done.speed_bps, done.eta_secs, done.status), (0, Some(0), Status::Completed));
    assert_eq!(done.durable_segments, live, "a completed file is durable whole");
    let paused = final_progress(&Outcome::Paused(durable.clone()), Some(10), 6, durable.clone(), durable.clone());
    assert_eq!((paused.eta_secs, paused.status), (None, Status::Paused));
    let failed = final_progress(
        &Outcome::Failed { error: EngineError::DiskFull, segments: durable.clone() },
        None,
        10,
        live.clone(),
        durable.clone(),
    );
    assert_eq!(failed.durable_segments, durable);
    assert_eq!(failed.segments, live);
    assert_eq!(failed.eta_secs, None);
}

#[test]
fn writes_and_steals_keep_the_snapshots_resumable() {
    let size = 12 * MIB;
    let (mut segs, ranged) = initial_segments(Some(size), true, None, 2);
    assert!(ranged);
    let snaps = |segs: &Vec<SegmentRuntime>| segs.iter().map(|s| s.snapshot()).collect::<Vec<_>>();
    assert!(validate_resume(&resume(snaps(&segs), size), size).is_ok());
    segs[0].written_to(MIB);
    segs[1].written_to(6 * MIB + 5);
    assert!(validate_resume(&resume(snaps(&segs), size), size).is_ok());
    let fresh = steal(&mut segs, true).unwrap();
    assert_eq!(segs.len(), 3);
    assert_eq!(fresh, segs[2]);
    assert!(validate_resume(&resume(snaps(&segs), size), size).is_ok());
    let fresh = steal(&mut segs, true).unwrap();
    assert_eq!(fresh.idx, 3);
    segs[3].written_to(fresh.start + 10);
    assert!(validate_resume(&resume(snaps(&segs), size), size).is_ok());
}

#[test]
fn cookies_and_authorization_stay_on_the_same_origin() {
    let extras = RequestExtras {
        headers: vec![
            ("Authorization".to_string(), "Bearer t".to_string()),
            ("X-A".to_string(), "1".to_string()),
        ],
        cookies: vec![Cookie { name: "s".into(), value: "1".into() }],
    };
    let same = extras_for("https://a.example/x", "https://a.example/y?z=1", &extras);
    assert_eq!((same.headers.len(), same.cookies.len()), (2, 1));
    let other = extras_for("https://a.example/x", "https://cdn.example/y", &extras);
    assert!(other.cookies.is_empty());
    assert_eq!(other.headers, vec![("X-A".to_string(), "1".to_string())]);
    let port = extras_for("https://a.example/x", "https://a.example:8443/y", &extras);
    assert!(port.cookies.is_empty(), "another port is another origin");
}

#[test]
fn a_refused_resume_says_which_segment_and_where() {
    let hole = resume(vec![seg(0, 0, 49, 0), seg(1, 51, 99, 0)], 100);
    assert_eq!(
        validate_resume_segments(&hole).unwrap_err().message(),
        "invalid resume state: segment 1 starts at 51, expected 50"
    );
    let greedy = resume(vec![seg(0, 0, 9, 11)], 10);
    assert!(validate_resume_segments(&greedy).unwrap_err().message().ends_with("segment 0 claims 11 bytes of a 10-byte range"));
    let short = resume(vec![seg(0, 0, 49, 0)], 100);
    assert!(validate_resume_segments(&short).unwrap_err().message().ends_with("segments end at byte 49, the file has 100 bytes"));
}

fn claimed(segs: &Vec<SegmentRuntime>) -> u64 {
    let snaps: Vec<SegmentState> = segs.iter().map(|s| s.snapshot()).collect();
    total_downloaded(&snaps)
}

#[test]
fn a_durable_snapshot_never_gets_ahead_of_the_run() {
    let mut segs = vec![
        SegmentRuntime::new(0, 0, Some(8 * MIB - 1), MIB),
        SegmentRuntime::new(1, 8 * MIB, Some(16 * MIB - 1), 0),
    ];
    let durable = claimed(&segs);
    assert_eq!(durable, MIB);
    segs[1].written_to(8 * MIB + 100);
    let after_write = claimed(&segs);
    assert_eq!(after_write, MIB + 100);
    assert!(steal(&mut segs, true).is_some());
    assert_eq!(segs.len(), 3);
    assert_eq!(claimed(&segs), after_write, "a steal moves no byte");
    assert!(durable <= claimed(&segs));
}

#[test]
fn running_downloads_never_share_a_part_file() {
    let mut reg = PartRegistry::new();
    let (a, pa) = reg.claim("/d", "f.bin", false, &vec![]).unwrap();
    let (b, pb) = reg.claim("/d", "f.bin", false, &vec![]).unwrap();
    assert_eq!((a.as_str(), b.as_str()), ("f.bin", "f (1).bin"));
    assert_ne!(pa, pb);
    assert_eq!(reg.claim("/d", "f.bin", true, &vec![]).unwrap_err().code(), "INVALID_RESUME");
    reg.release(&pa);
    let (c, pc) = reg.claim("/d", "f.bin", true, &vec![]).unwrap();
    assert_eq!((c.as_str(), pc.as_str()), ("f.bin", pa.as_str()));
    reg.release("/d/not-held.mdm.part");
    let (d, _) = reg.claim("/d", "f.bin", false, &vec![]).unwrap();
    assert_eq!(d, "f (2).bin");
}
