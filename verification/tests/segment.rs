use muzn_dm::segment::{
    check_response, parse_content_range_start, range_header, retry_after, RetryBudget, SegmentRuntime,
    UNKNOWN_END,
};
use muzn_dm::error::EngineError;
use muzn_dm::plan::SegmentState;

#[test]
fn ten_failures_without_progress_spend_the_budget() {
    let mut b = RetryBudget::default();
    let base = 1000; // 1 s
    for i in 1..10 {
        assert!(b.on_failure(0, base).is_some(), "failure {i} still retries");
    }
    assert_eq!(b.on_failure(0, base), None, "the 10th failure gives up");
}

#[test]
fn progress_resets_the_count_and_the_backoff() {
    let mut b = RetryBudget::default();
    let base = 1000;
    for _ in 0..9 {
        b.on_failure(0, base).unwrap();
    }
    assert_eq!(
        b.on_failure(1, base),
        Some(base),
        "progress: base delay again"
    );
    for i in 1..10 {
        assert!(
            b.on_failure(0, base).is_some(),
            "failure {i} after progress still retries"
        );
    }
    assert_eq!(
        b.on_failure(0, base),
        None,
        "the 10th in a row after progress gives up"
    );
}

#[test]
fn backoff_doubles_and_caps() {
    let mut b = RetryBudget::default();
    let base = 1000;
    let delays: Vec<u64> = (0..9)
        .map(|_| b.on_failure(0, base).unwrap() / 1000)
        .collect();
    assert_eq!(delays, vec![1, 2, 4, 8, 16, 32, 60, 60, 60]);
}

#[test]
fn a_huge_base_is_capped_at_once() {
    let mut b = RetryBudget::new();
    assert_eq!(b.on_failure(0, u64::MAX), Some(60_000));
    assert_eq!(b.on_failure(5, 120_000), Some(60_000));
}

#[test]
fn permanent_errors_are_not_retried() {
    let mut b = RetryBudget::new();
    assert_eq!(retry_after(&mut b, &EngineError::HttpStatus { status: 404 }, 0, 1000), None);
    assert_eq!(retry_after(&mut b, &EngineError::HttpStatus { status: 503 }, 0, 1000), Some(1000));
    assert_eq!(retry_after(&mut b, &EngineError::Network("x".into()), 0, 1000), Some(2000));
}

#[test]
fn runtime_counters_and_snapshots() {
    let s = SegmentRuntime::new(3, 100, Some(199), 40);
    assert_eq!(s.next_offset(), 140);
    assert_eq!(s.remaining(), Some(60));
    assert!(!s.is_done());
    let single = SegmentRuntime::new(0, 0, None, 500);
    assert_eq!(single.end, UNKNOWN_END);
    assert_eq!(single.remaining(), None);
    assert_eq!(single.snapshot(), SegmentState { idx: 0, start: 0, end: 499, downloaded: 500 });
    // a shrunk range: downloaded is clamped to it
    let shrunk = SegmentRuntime::new(1, 100, Some(149), 80);
    assert_eq!(shrunk.snapshot(), SegmentState { idx: 1, start: 100, end: 149, downloaded: 50 });
    assert_eq!(SegmentRuntime::from_state(&SegmentState { idx: 2, start: 5, end: 9, downloaded: 1 }),
        SegmentRuntime::new(2, 5, Some(9), 1));
}

#[test]
fn attempts_start_where_they_should() {
    let mut s = SegmentRuntime::new(0, 1000, Some(4999), 100);
    assert_eq!(s.begin_attempt(true), Some((1100, 4999)));
    let mut plain = SegmentRuntime::new(0, 0, None, 777);
    assert_eq!(plain.begin_attempt(false), Some((0, UNKNOWN_END)));
    assert_eq!(plain.downloaded, 0, "a single stream restarts from the beginning");
    let mut done = SegmentRuntime::new(0, 0, Some(9), 10);
    assert_eq!(done.begin_attempt(true), None);
    assert_eq!(range_header(1100, 4999), "bytes=1100-4999");
}

#[test]
fn chunks_are_cut_at_the_end_and_streams_learn_it() {
    let s = SegmentRuntime::new(0, 0, Some(99), 0);
    assert_eq!(s.usable_len(90, 50), 10);
    assert_eq!(s.usable_len(100, 50), 0);
    assert_eq!(s.usable_len(0, 50), 50);
    let mut plain = SegmentRuntime::new(0, 0, None, 0);
    assert_eq!(plain.usable_len(0, 4096), 4096);
    plain.written_to(12345);
    assert!(plain.end_attempt(12345).is_ok());
    assert_eq!(plain.end, 12344);
    let mut short = SegmentRuntime::new(0, 0, Some(99), 0);
    assert_eq!(short.end_attempt(50).unwrap_err().code(), "NETWORK");
    assert!(short.end_attempt(100).is_ok());
}

#[test]
fn responses_are_checked() {
    assert!(check_response(true, 206, Some("bytes 100-199/10000"), 100).is_ok());
    assert_eq!(check_response(true, 200, None, 100).unwrap_err().code(), "RANGE_NOT_SUPPORTED");
    assert_eq!(check_response(true, 404, None, 100).unwrap_err().code(), "HTTP_STATUS");
    assert_eq!(check_response(true, 206, Some("bytes 0-99/10000"), 100).unwrap_err().code(), "NETWORK");
    assert_eq!(check_response(true, 206, None, 100).unwrap_err().code(), "NETWORK");
    assert!(check_response(false, 200, None, 0).is_ok());
    assert_eq!(check_response(false, 503, None, 0).unwrap_err().code(), "HTTP_STATUS");
    assert_eq!(parse_content_range_start("bytes 100-199/10000"), Some(100));
    assert_eq!(parse_content_range_start("bytes */10000"), None);
    assert_eq!(parse_content_range_start("items 1-2/3"), None);
}

#[test]
fn a_saved_state_reads_back_up_to_the_last_byte() {
    let s = SegmentState { idx: 3, start: 10, end: u64::MAX - 1, downloaded: u64::MAX - 10 };
    let r = SegmentRuntime::from_state(&s);
    assert_eq!(r.snapshot(), s);
    assert_eq!(r.remaining(), Some(0));
    assert_eq!(r.next_offset(), u64::MAX);
}

#[test]
fn a_wrong_content_range_names_what_came() {
    let e = check_response(true, 206, Some("bytes 5-9/10"), 0).unwrap_err();
    assert_eq!(e.message(), "network error: Content-Range starts at Some(5), wanted 0");
    let e = check_response(true, 206, None, 3).unwrap_err();
    assert_eq!(e.message(), "network error: Content-Range starts at None, wanted 3");
}
