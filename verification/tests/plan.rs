use muzn_dm::plan::{plan_segments, SegmentState, MAX_CONNECTIONS, MIN_SEGMENT_BYTES};

#[test]
fn small_file_is_one_segment() {
    let s = plan_segments(500_000, 8);
    assert_eq!(s.len(), 1);
    assert_eq!((s[0].start, s[0].end), (0, 499_999));
}

#[test]
fn segment_count_is_bounded_by_size_and_connections() {
    assert_eq!(plan_segments(3 * MIN_SEGMENT_BYTES, 8).len(), 3);
    assert_eq!(plan_segments(100 * MIN_SEGMENT_BYTES, 8).len(), 8);
    assert_eq!(
        plan_segments(100 * MIN_SEGMENT_BYTES, 0).len(),
        1,
        "0 connections means 1"
    );
    assert_eq!(
        plan_segments(100 * MIN_SEGMENT_BYTES, 64).len(),
        32,
        "capped at 32"
    );
}

#[test]
fn zero_size_plans_nothing() {
    assert!(plan_segments(0, 8).is_empty());
}

#[test]
fn remaining_and_done() {
    let mut s = SegmentState {
        idx: 0,
        start: 10,
        end: 19,
        downloaded: 0,
    };
    assert_eq!(s.remaining(), 10);
    assert!(!s.is_done());
    s.downloaded = 10;
    assert_eq!(s.remaining(), 0);
    assert!(s.is_done());
    assert_eq!(s.next_offset(), 20);
}

fn check_cover(size: u64, conns: u8) {
    let s = plan_segments(size, conns);
    assert_eq!(s[0].start, 0);
    assert_eq!(s.last().unwrap().end, size - 1);
    for (i, w) in s.windows(2).enumerate() {
        assert_eq!(w[0].idx as usize, i);
        assert_eq!(w[0].end + 1, w[1].start, "contiguous");
    }
    let total: u64 = s.iter().map(|x| x.end - x.start + 1).sum();
    assert_eq!(total, size);
    let (min, max) = s.iter().fold((u64::MAX, 0), |(lo, hi), x| {
        let n = x.end - x.start + 1;
        (lo.min(n), hi.max(n))
    });
    assert!(max - min <= 1, "near-equal sizes: {} vs {}", min, max);
    assert!(s.len() <= MAX_CONNECTIONS as usize);
}

#[test]
fn segments_cover_the_file_exactly_once() {
    for size in [1u64, 2, 7, 1_000_000, MIN_SEGMENT_BYTES, MIN_SEGMENT_BYTES + 1, 37 * MIN_SEGMENT_BYTES + 5, 200 * MIN_SEGMENT_BYTES - 1] {
        for conns in [1u8, 2, 3, 8, 31, 32] {
            check_cover(size, conns);
        }
    }
}

#[test]
fn the_first_segments_take_the_extra_bytes() {
    // 3 MiB + 2 bytes in 3 parts: the first two get one byte more
    let s = plan_segments(3 * MIN_SEGMENT_BYTES + 2, 3);
    assert_eq!(s.len(), 3);
    assert_eq!(s[0].end - s[0].start + 1, MIN_SEGMENT_BYTES + 1);
    assert_eq!(s[1].end - s[1].start + 1, MIN_SEGMENT_BYTES + 1);
    assert_eq!(s[2].end - s[2].start + 1, MIN_SEGMENT_BYTES);
    assert!(s.iter().all(|x| x.downloaded == 0));
}
