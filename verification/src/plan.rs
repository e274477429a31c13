//! Deciding how a file is split before any connection exists. Pure arithmetic.
use vstd::prelude::*;

verus! {

/// A segment is never planned smaller than this (1 MiB).
pub const MIN_SEGMENT_BYTES: u64 = 1048576;

/// Hard ceiling on connections per download, whatever the setting says.
pub const MAX_CONNECTIONS: u8 = 32;

/// One byte range of a download and how much of it has been written.
///
/// `end` is inclusive, like an HTTP `Range`. The next byte to fetch is
/// `start + downloaded`; the segment is done when that passes `end`.
#[derive(Clone, Copy, Debug, PartialEq, Eq, Structural)]
pub struct SegmentState {
    /// Position in the plan; stable for the life of the download.
    pub idx: u32,
    /// First byte (absolute offset).
    pub start: u64,
    /// Last byte (absolute offset, inclusive).
    pub end: u64,
    /// Bytes already written, counted from `start`.
    pub downloaded: u64,
}

/// Bytes still to fetch of a segment: what lies between the next offset and
/// `end`, never negative.
pub open spec fn spec_remaining(s: SegmentState) -> int {
    let r = (s.end + 1) - (s.start + s.downloaded);
    if r > 0 { r } else { 0 }
}

/// Number of bytes a segment's range spans.
pub open spec fn range_len(s: SegmentState) -> int {
    s.end - s.start + 1
}

impl SegmentState {
    /// Bytes still to fetch.
    pub fn remaining(&self) -> (r: u64)
        requires
            self.end < u64::MAX,
            self.start + self.downloaded <= u64::MAX,
        ensures
            r == spec_remaining(*self),
    {
        let top = self.end + 1;
        let next = self.start + self.downloaded;
        if top > next {
            top - next
        } else {
            0
        }
    }

    /// True once every byte up to `end` is written.
    pub fn is_done(&self) -> (b: bool)
        requires
            self.end < u64::MAX,
            self.start + self.downloaded <= u64::MAX,
        ensures
            b == (spec_remaining(*self) == 0),
    {
        self.remaining() == 0
    }

    /// Absolute offset of the next byte to fetch.
    pub fn next_offset(&self) -> (r: u64)
        requires
            self.start + self.downloaded <= u64::MAX,
        ensures
            r == self.start + self.downloaded,
    {
        self.start + self.downloaded
    }
}

/// `max_connections` brought into `1..=MAX_CONNECTIONS`.
pub open spec fn wanted_connections(max_connections: u8) -> int {
    if max_connections < 1 {
        1
    } else if max_connections > MAX_CONNECTIONS {
        MAX_CONNECTIONS as int
    } else {
        max_connections as int
    }
}

/// `ceil(size / MIN_SEGMENT_BYTES)`.
pub open spec fn segments_by_size(size: u64) -> int {
    (size + MIN_SEGMENT_BYTES - 1) / (MIN_SEGMENT_BYTES as int)
}

/// How many segments `plan_segments` makes:
/// `min(max_connections, ceil(size / MIN_SEGMENT_BYTES))`, at least 1 and never
/// above `MAX_CONNECTIONS`; none for an empty file.
pub open spec fn segment_count(size: u64, max_connections: u8) -> int {
    if size == 0 {
        0
    } else {
        let by_size = segments_by_size(size);
        let wanted = wanted_connections(max_connections);
        if by_size < wanted { by_size } else { wanted }
    }
}

/// Length of segment `i` when `size` bytes are cut into `count` parts: the
/// first `size % count` parts get one byte more.
pub open spec fn planned_len(size: int, count: int, i: int) -> int {
    size / count + if i < size % count { 1int } else { 0int }
}

/// First byte of segment `i` when `size` bytes are cut into `count` parts.
pub open spec fn planned_start(size: int, count: int, i: int) -> int {
    i * (size / count) + if i < size % count { i } else { size % count }
}

/// Segment `i` of the plan for `size` bytes in `count` parts.
pub open spec fn planned_segment(size: int, count: int, i: int) -> SegmentState {
    SegmentState {
        idx: i as u32,
        start: planned_start(size, count, i) as u64,
        end: (planned_start(size, count, i) + planned_len(size, count, i) - 1) as u64,
        downloaded: 0,
    }
}

/// The segments tile `0..size` exactly once, in order: the first starts at 0,
/// each ends one byte before the next starts, the last ends at `size - 1`,
/// and each is numbered by its position.
pub open spec fn tiles_file(segs: Seq<SegmentState>, size: int) -> bool {
    &&& size == 0 <==> segs.len() == 0
    &&& segs.len() > 0 ==> segs[0].start == 0 && segs.last().end == size - 1
    &&& forall|i: int| 0 <= i < segs.len() ==> (#[trigger] segs[i]).idx == i && segs[i].start <= segs[i].end
    &&& forall|i: int| 0 <= i < segs.len() - 1 ==> #[trigger] segs[i].end + 1 == segs[i + 1].start
}

/// No segment of the plan is more than one byte longer than another.
pub open spec fn near_equal(segs: Seq<SegmentState>) -> bool {
    forall|i: int, j: int|
        0 <= i < segs.len() && 0 <= j < segs.len() ==> range_len(#[trigger] segs[i]) <= range_len(
            #[trigger] segs[j],
        ) + 1
}

proof fn lemma_planned_step(size: int, count: int, i: int)
    requires
        size > 0,
        count > 0,
        0 <= i,
    ensures
        planned_start(size, count, i + 1) == planned_start(size, count, i) + planned_len(size, count, i),
{
    assert((i + 1) * (size / count) == i * (size / count) + size / count) by (nonlinear_arith);
}

proof fn lemma_planned_bounds(size: int, count: int, i: int)
    requires
        size > 0,
        count > 0,
        0 <= i < count,
        count <= size,
    ensures
        planned_len(size, count, i) >= 1,
        0 <= planned_start(size, count, i),
        planned_start(size, count, i) + planned_len(size, count, i) <= size,
        planned_start(size, count, count) == size,
{
    let base = size / count;
    let extra = size % count;
    assert(size == count * base + extra && 0 <= extra < count) by (nonlinear_arith)
        requires count > 0, base == size / count, extra == size % count;
    assert(base >= 1) by (nonlinear_arith)
        requires count <= size, size == count * base + extra, 0 <= extra < count;
    assert(0 <= i * base) by (nonlinear_arith) requires 0 <= i, base >= 1;
    assert((i + 1) * base <= count * base) by (nonlinear_arith) requires i + 1 <= count, base >= 1;
    assert((i + 1) * base == i * base + base) by (nonlinear_arith);
    assert(planned_start(size, count, count) == count * base + extra);
}

/// Split `size` bytes into contiguous, near-equal segments.
///
/// Count = `min(max_connections, ceil(size / MIN_SEGMENT_BYTES))`, at least 1
/// and never above [`MAX_CONNECTIONS`]. A zero-size file plans nothing.
pub fn plan_segments(size: u64, max_connections: u8) -> (out: Vec<SegmentState>)
    ensures
        out.len() == segment_count(size, max_connections),
        forall|i: int|
            0 <= i < out.len() ==> #[trigger] out[i] == planned_segment(
                size as int,
                out.len() as int,
                i,
            ),
        tiles_file(out@, size as int),
        near_equal(out@),
        forall|i: int| 0 <= i < out.len() ==> (#[trigger] out[i]).downloaded == 0,
{
    if size == 0 {
        return Vec::new();
    }
    let by_size: u64 = (size - 1) / MIN_SEGMENT_BYTES + 1;
    let wanted: u64 = if max_connections < 1 {
        1
    } else if max_connections > MAX_CONNECTIONS {
        MAX_CONNECTIONS as u64
    } else {
        max_connections as u64
    };
    let count: u64 = if by_size < wanted { by_size } else { wanted };
    assert(by_size == segments_by_size(size)) by {
        assert((size - 1) / (MIN_SEGMENT_BYTES as int) + 1 == (size + MIN_SEGMENT_BYTES - 1) / (MIN_SEGMENT_BYTES as int));
    }
    assert(count <= size) by {
        assert((size - 1) / (MIN_SEGMENT_BYTES as int) <= size - 1);
    }
    let base: u64 = size / count;
    let extra: u64 = size % count;
    let ghost sz = size as int;
    let ghost cnt = count as int;
    let mut out: Vec<SegmentState> = Vec::new();
    let mut start: u64 = 0;
    let mut idx: u64 = 0;
    while idx < count
        invariant
            0 < count <= 32,
            count <= size,
            cnt == count,
            sz == size,
            base == size / count,
            extra == size % count,
            idx <= count,
            out.len() == idx,
            start as int == planned_start(sz, cnt, idx as int),
            forall|i: int| 0 <= i < idx ==> #[trigger] out[i] == planned_segment(sz, cnt, i),
        decreases count - idx,
    {
        proof {
            lemma_planned_bounds(sz, cnt, idx as int);
            lemma_planned_step(sz, cnt, idx as int);
        }
        let len: u64 = if idx < extra { base + 1 } else { base };
        assert(len == planned_len(sz, cnt, idx as int));
        let seg = SegmentState { idx: idx as u32, start, end: start + len - 1, downloaded: 0 };
        out.push(seg);
        start = start + len;
        idx = idx + 1;
    }
    proof {
        assert forall|i: int| 0 <= i < cnt implies range_len(#[trigger] out@[i]) == planned_len(sz, cnt, i)
            && (out@[i]).start <= (out@[i]).end by {
            lemma_planned_bounds(sz, cnt, i);
        }
        assert forall|i: int| 0 <= i < cnt - 1 implies #[trigger] out@[i].end + 1 == out@[i + 1].start by {
            lemma_planned_bounds(sz, cnt, i);
            lemma_planned_bounds(sz, cnt, i + 1);
            lemma_planned_step(sz, cnt, i);
        }
        lemma_planned_bounds(sz, cnt, cnt - 1);
        lemma_planned_step(sz, cnt, cnt - 1);
        assert(planned_start(sz, cnt, 0) == 0);
    }
    out
}

/// The plan has at least one segment for a non-empty file, never more than
/// [`MAX_CONNECTIONS`] or the connections asked for (at least 1), and never
/// more than one per started [`MIN_SEGMENT_BYTES`].
pub proof fn segment_count_bounds(size: u64, max_connections: u8)
    ensures
        size == 0 ==> segment_count(size, max_connections) == 0,
        size > 0 ==> 1 <= segment_count(size, max_connections) <= MAX_CONNECTIONS,
        size > 0 ==> segment_count(size, max_connections) <= wanted_connections(max_connections),
        size > 0 ==> segment_count(size, max_connections) <= segments_by_size(size),
        size > 0 ==> segment_count(size, max_connections) * MIN_SEGMENT_BYTES < size + MIN_SEGMENT_BYTES,
{
    if size > 0 {
        let b = segments_by_size(size);
        assert(b >= 1);
        assert(b * MIN_SEGMENT_BYTES <= size + MIN_SEGMENT_BYTES - 1) by (nonlinear_arith)
            requires b == (size + MIN_SEGMENT_BYTES - 1) / (MIN_SEGMENT_BYTES as int);
        let c = segment_count(size, max_connections);
        assert(c * MIN_SEGMENT_BYTES <= b * MIN_SEGMENT_BYTES) by (nonlinear_arith)
            requires c <= b, c >= 0;
    }
}

} // verus!
