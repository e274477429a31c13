//! Why a ranged run's segments stay valid resume state while it downloads:
//! its first layout, every write and every steal leave segments whose
//! snapshots `validate_resume_segments` accepts.
use vstd::prelude::*;

use crate::download::{
    chain_from, downloaded_sum, insert_by_start, is_victim, lemma_insert_at, max_idx, rem0,
    segments_describe, sorted_by_start, steal_ready, stolen,
};
use crate::plan::SegmentState;
use crate::segment::{snapshot_of, SegmentRuntime, UNKNOWN_END};

verus! {

/// The snapshots of a run's segments, in the same order.
pub open spec fn snapshots(segs: Seq<SegmentRuntime>) -> Seq<SegmentState> {
    segs.map_values(|s: SegmentRuntime| snapshot_of(s))
}

/// A ranged run's segments: every end is known, and their snapshots would
/// be accepted as the resume state of a `size`-byte file.
pub open spec fn run_resumable(segs: Seq<SegmentRuntime>, size: u64) -> bool {
    &&& forall|i: int| 0 <= i < segs.len() ==> (#[trigger] segs[i]).end != UNKNOWN_END
    &&& segments_describe(snapshots(segs), size)
}

/// `chain_from`, element by element: the first range starts at `e`, each is
/// a real range claiming no more bytes than it spans, each ends just before
/// the next starts, and the last ends at `size - 1`.
pub open spec fn linked(s: Seq<SegmentState>, e: int, size: int) -> bool {
    &&& s.len() == 0 ==> e == size
    &&& s.len() > 0 ==> s[0].start == e && s.last().end + 1 == size
    &&& forall|k: int|
        0 <= k < s.len() ==> (#[trigger] s[k]).start <= s[k].end && s[k].end < u64::MAX
            && s[k].downloaded <= s[k].end - s[k].start + 1
    &&& forall|k: int| 0 <= k < s.len() - 1 ==> #[trigger] s[k].end + 1 == s[k + 1].start
}

proof fn lemma_chain_is_linked(s: Seq<SegmentState>, e: int, size: int)
    ensures
        chain_from(s, e, size) <==> linked(s, e, size),
    decreases s.len(),
{
    if s.len() > 0 {
        let t = s.drop_first();
        lemma_chain_is_linked(t, s[0].end + 1, size);
        if linked(s, e, size) {
            assert forall|k: int| 0 <= k < t.len() implies (#[trigger] t[k]).start <= t[k].end
                && t[k].end < u64::MAX && t[k].downloaded <= t[k].end - t[k].start + 1 by {
                assert(t[k] == s[k + 1]);
            }
            assert forall|k: int| 0 <= k < t.len() - 1 implies #[trigger] t[k].end + 1 == t[k + 1].start by {
                assert(t[k] == s[k + 1] && t[k + 1] == s[k + 2]);
            }
            if t.len() > 0 {
                assert(t[0] == s[1] && t.last() == s.last());
            } else {
                assert(s.last() == s[0]);
            }
            assert(linked(t, s[0].end + 1, size));
        }
        if chain_from(s, e, size) {
            assert(linked(t, s[0].end + 1, size));
            assert forall|k: int| 0 <= k < s.len() implies (#[trigger] s[k]).start <= s[k].end
                && s[k].end < u64::MAX && s[k].downloaded <= s[k].end - s[k].start + 1 by {
                if k > 0 {
                    assert(s[k] == t[k - 1]);
                }
            }
            assert forall|k: int| 0 <= k < s.len() - 1 implies #[trigger] s[k].end + 1 == s[k + 1].start by {
                if k > 0 {
                    assert(s[k] == t[k - 1] && s[k + 1] == t[k]);
                } else if t.len() > 0 {
                    assert(s[1] == t[0]);
                }
            }
            if t.len() > 0 {
                assert(t.last() == s.last());
            } else {
                assert(s.last() == s[0]);
            }
        }
    }
}

proof fn lemma_insert_len(t: Seq<SegmentState>, x: SegmentState)
    ensures
        insert_by_start(t, x).len() == t.len() + 1,
    decreases t.len(),
{
    if t.len() > 0 && t.last().start > x.start {
        lemma_insert_len(t.drop_last(), x);
    }
}

proof fn lemma_sorted_len(s: Seq<SegmentState>)
    ensures
        sorted_by_start(s).len() == s.len(),
    decreases s.len(),
{
    if s.len() > 0 {
        lemma_sorted_len(s.drop_last());
        lemma_insert_len(sorted_by_start(s.drop_last()), s.last());
    }
}

/// Inserting `y` in place of `x`, which starts at the same byte, lands at the same position.
proof fn lemma_insert_same_start(t: Seq<SegmentState>, x: SegmentState, y: SegmentState) -> (q: int)
    requires
        x.start == y.start,
    ensures
        0 <= q <= t.len(),
        insert_by_start(t, x).len() == t.len() + 1,
        insert_by_start(t, x)[q] == x,
        insert_by_start(t, y) == insert_by_start(t, x).update(q, y),
    decreases t.len(),
{
    lemma_insert_len(t, x);
    if t.len() == 0 {
        assert(seq![x].update(0, y) =~= seq![y]);
        0
    } else if t.last().start <= x.start {
        assert(t.push(x).update(t.len() as int, y) =~= t.push(y));
        t.len() as int
    } else {
        let d = t.drop_last();
        let q = lemma_insert_same_start(d, x, y);
        assert(insert_by_start(d, x).update(q, y).push(t.last()) =~= insert_by_start(d, x).push(
            t.last(),
        ).update(q, y));
        q
    }
}

/// Replacing an element of `t` by one with the same start, then inserting
/// `z`, is inserting `z`, then replacing that element where it went.
proof fn lemma_insert_into_updated(t: Seq<SegmentState>, p: int, y: SegmentState, z: SegmentState) -> (q: int)
    requires
        0 <= p < t.len(),
        y.start == t[p].start,
    ensures
        0 <= q <= t.len(),
        insert_by_start(t, z).len() == t.len() + 1,
        insert_by_start(t, z)[q] == t[p],
        insert_by_start(t.update(p, y), z) == insert_by_start(t, z).update(q, y),
    decreases t.len(),
{
    lemma_insert_len(t, z);
    let u = t.update(p, y);
    assert(u.last().start == t.last().start);
    if t.last().start <= z.start {
        assert(u.push(z) =~= t.push(z).update(p, y));
        p
    } else {
        let d = t.drop_last();
        lemma_insert_len(d, z);
        if p == t.len() - 1 {
            assert(u.drop_last() =~= d);
            assert(insert_by_start(d, z).push(y) =~= insert_by_start(d, z).push(t.last()).update(
                t.len() as int,
                y,
            ));
            t.len() as int
        } else {
            assert(u.drop_last() =~= d.update(p, y));
            assert(u.last() == t.last());
            let q = lemma_insert_into_updated(d, p, y, z);
            assert(insert_by_start(d, z).update(q, y).push(t.last()) =~= insert_by_start(d, z).push(
                t.last(),
            ).update(q, y));
            q
        }
    }
}

/// Sorting by start after replacing an element by one with the same start
/// is sorting, then replacing that element where it went.
proof fn lemma_sorted_update(s: Seq<SegmentState>, v: int, y: SegmentState) -> (p: int)
    requires
        0 <= v < s.len(),
        y.start == s[v].start,
    ensures
        0 <= p < s.len(),
        sorted_by_start(s).len() == s.len(),
        sorted_by_start(s)[p] == s[v],
        sorted_by_start(s.update(v, y)) == sorted_by_start(s).update(p, y),
    decreases s.len(),
{
    lemma_sorted_len(s);
    let d = s.drop_last();
    lemma_sorted_len(d);
    let u = s.update(v, y);
    if v == s.len() - 1 {
        assert(u.drop_last() =~= d);
        assert(u.last() == y);
        lemma_insert_same_start(sorted_by_start(d), s.last(), y)
    } else {
        assert(u.drop_last() =~= d.update(v, y));
        assert(u.last() == s.last());
        let p1 = lemma_sorted_update(d, v, y);
        assert(d[v] == s[v]);
        lemma_insert_into_updated(sorted_by_start(d), p1, y, s.last())
    }
}

proof fn lemma_linked_increasing(t: Seq<SegmentState>, e: int, size: int, i: int, j: int)
    requires
        linked(t, e, size),
        0 <= i < j < t.len(),
    ensures
        t[i].end < t[j].start,
    decreases j - i,
{
    assert(t[j - 1].end + 1 == t[j].start);
    if i < j - 1 {
        lemma_linked_increasing(t, e, size, i, j - 1);
        assert(t[j - 1].start <= t[j - 1].end);
    }
}

proof fn lemma_snapshots_update(segs: Seq<SegmentRuntime>, i: int, w: SegmentRuntime)
    requires
        0 <= i < segs.len(),
    ensures
        snapshots(segs.update(i, w)) == snapshots(segs).update(i, snapshot_of(w)),
{
    assert(snapshots(segs.update(i, w)) =~= snapshots(segs).update(i, snapshot_of(w)));
}

proof fn lemma_snapshots_push(segs: Seq<SegmentRuntime>, x: SegmentRuntime)
    ensures
        snapshots(segs.push(x)) == snapshots(segs).push(snapshot_of(x)),
{
    assert(snapshots(segs.push(x)) =~= snapshots(segs).push(snapshot_of(x)));
}

proof fn lemma_sorted_push(s: Seq<SegmentState>, x: SegmentState)
    ensures
        sorted_by_start(s.push(x)) == insert_by_start(sorted_by_start(s), x),
{
    assert(s.push(x).drop_last() =~= s);
    assert(s.push(x).last() == x);
}

/// Writing bytes into a segment keeps a run resumable: a write changes no
/// range, and a snapshot never claims more bytes than its range spans.
pub proof fn a_write_keeps_the_run_resumable(segs: Seq<SegmentRuntime>, size: u64, i: int, pos: u64)
    requires
        run_resumable(segs, size),
        0 <= i < segs.len(),
        segs[i].start <= pos,
    ensures
        run_resumable(
            segs.update(i, SegmentRuntime { downloaded: (pos - segs[i].start) as u64, ..segs[i] }),
            size,
        ),
{
    let w = SegmentRuntime { downloaded: (pos - segs[i].start) as u64, ..segs[i] };
    let n = segs.update(i, w);
    let s0 = snapshots(segs);
    lemma_snapshots_update(segs, i, w);
    assert(segs[i].end != UNKNOWN_END);
    assert forall|k: int| 0 <= k < n.len() implies (#[trigger] n[k]).end != UNKNOWN_END by {
        if k != i {
            assert(n[k] == segs[k]);
        }
    }
    if size > 0 {
        let sw = snapshot_of(w);
        assert(s0[i] == snapshot_of(segs[i]));
        let p = lemma_sorted_update(s0, i, sw);
        let t = sorted_by_start(s0);
        lemma_chain_is_linked(t, 0, size as int);
        let t1 = t.update(p, sw);
        assert(t[p].end == sw.end);
        assert forall|k: int|
            0 <= k < t1.len() implies (#[trigger] t1[k]).start <= t1[k].end && t1[k].end < u64::MAX
                && t1[k].downloaded <= t1[k].end - t1[k].start + 1 by {
            if k != p {
                assert(t1[k] == t[k]);
            }
        }
        assert forall|k: int| 0 <= k < t1.len() - 1 implies #[trigger] t1[k].end + 1 == t1[k + 1].start by {
            assert(t[k].end + 1 == t[k + 1].start);
        }
        if p == t1.len() - 1 {
            assert(t1.last() == sw);
        } else {
            assert(t1.last() == t.last());
        }
        if p == 0 {
            assert(t1[0] == sw);
        }
        assert(linked(t1, 0, size as int));
        lemma_chain_is_linked(t1, 0, size as int);
    } else {
        assert(s0.len() == 0);
        assert(snapshots(n).len() == 0);
    }
}

/// Stealing keeps a run resumable: the victim's range `start..=end` becomes
/// `start..=mid-1` and `mid..=end`, so the ranges still cover the file once
/// each, in order, and the snapshots stay valid resume state.
pub proof fn a_steal_keeps_the_run_resumable(segs: Seq<SegmentRuntime>, size: u64, v: int)
    requires
        run_resumable(segs, size),
        steal_ready(segs),
        is_victim(segs, v),
    ensures
        run_resumable(stolen(segs, v), size),
{
    let old_v = segs[v];
    let next = old_v.start + old_v.downloaded;
    let r = rem0(old_v);
    let mid = next + r / 2;
    assert(old_v.end != UNKNOWN_END);
    assert(r == old_v.end + 1 - next);
    assert(old_v.start <= next < mid <= old_v.end);
    let vp = SegmentRuntime { end: (mid - 1) as u64, ..old_v };
    let x = SegmentRuntime {
        idx: (max_idx(segs) + 1) as u32,
        start: mid as u64,
        end: old_v.end,
        downloaded: 0,
    };
    let u = segs.update(v, vp);
    let n = u.push(x);
    assert(n == stolen(segs, v));
    assert forall|k: int| 0 <= k < n.len() implies (#[trigger] n[k]).end != UNKNOWN_END by {
        if k < segs.len() && k != v {
            assert(n[k] == segs[k]);
        } else if k == v {
            assert(n[k] == vp);
        } else {
            assert(n[k] == x);
        }
    }
    let s0 = snapshots(segs);
    let svp = snapshot_of(vp);
    let sx = snapshot_of(x);
    lemma_snapshots_update(segs, v, vp);
    lemma_snapshots_push(u, x);
    assert(snapshots(n) == s0.update(v, svp).push(sx));
    lemma_sorted_push(s0.update(v, svp), sx);
    assert(s0[v] == snapshot_of(old_v));
    let p = lemma_sorted_update(s0, v, svp);
    let t = sorted_by_start(s0);
    let t1 = t.update(p, svp);
    assert(sorted_by_start(snapshots(n)) == insert_by_start(t1, sx));
    assert(size > 0) by {
        assert(s0.len() > 0);
    }
    lemma_chain_is_linked(t, 0, size as int);
    assert(t[p] == snapshot_of(old_v));
    assert(t[p].end == old_v.end && t[p].start == old_v.start);
    assert(svp.start == old_v.start && svp.end == mid - 1);
    assert(sx.start == mid && sx.end == old_v.end && sx.downloaded == 0);
    assert forall|i: int| p + 1 <= i < t1.len() implies t1[i].start > sx.start by {
        assert(t1[i] == t[i]);
        lemma_linked_increasing(t, 0, size as int, p, i);
    }
    lemma_insert_at(t1, sx, p + 1);
    let rr = t1.take(p + 1).push(sx) + t1.skip(p + 1);
    assert(rr.len() == t.len() + 1);
    assert forall|k: int| 0 <= k < rr.len() implies #[trigger] rr[k] == (if k < p {
        t[k]
    } else if k == p {
        svp
    } else if k == p + 1 {
        sx
    } else {
        t[k - 1]
    }) by {
        if k < p + 1 {
            assert(rr[k] == t1[k]);
        } else if k > p + 1 {
            assert(rr[k] == t1.skip(p + 1)[k - p - 2]);
            assert(t1[k - 1] == t[k - 1]);
        }
    }
    assert forall|k: int|
        0 <= k < rr.len() implies (#[trigger] rr[k]).start <= rr[k].end && rr[k].end < u64::MAX
            && rr[k].downloaded <= rr[k].end - rr[k].start + 1 by {
        if k < p {
            assert(rr[k] == t[k]);
        } else if k > p + 1 {
            assert(rr[k] == t[k - 1]);
        }
    }
    assert forall|k: int| 0 <= k < rr.len() - 1 implies #[trigger] rr[k].end + 1 == rr[k + 1].start by {
        if k < p {
            assert(rr[k] == t[k]);
            assert(t[k].end + 1 == t[k + 1].start);
            if k + 1 < p {
                assert(rr[k + 1] == t[k + 1]);
            } else {
                assert(rr[k + 1] == svp);
            }
        } else if k == p {
            assert(rr[k] == svp && rr[k + 1] == sx);
        } else if k == p + 1 {
            assert(rr[k] == sx && rr[k + 1] == t[p + 1]);
            assert(t[p].end + 1 == t[p + 1].start);
        } else {
            assert(rr[k] == t[k - 1] && rr[k + 1] == t[k]);
            assert(t[k - 1].end + 1 == t[k].start);
        }
    }
    if p == 0 {
        assert(rr[0] == svp);
    } else {
        assert(rr[0] == t[0]);
    }
    if p == t.len() - 1 {
        assert(rr.last() == sx);
        assert(t.last() == t[p]);
    } else {
        assert(rr.last() == rr[rr.len() - 1]);
        assert(rr[rr.len() - 1] == t[t.len() - 1]);
    }
    assert(linked(rr, 0, size as int));
    lemma_chain_is_linked(rr, 0, size as int);
}

proof fn lemma_insert_keeps(t: Seq<SegmentState>, x: SegmentState)
    ensures
        insert_by_start(t, x).contains(x),
        forall|i: int| 0 <= i < t.len() ==> insert_by_start(t, x).contains(#[trigger] t[i]),
    decreases t.len(),
{
    let r = insert_by_start(t, x);
    if t.len() == 0 {
        assert(r[0] == x);
    } else if t.last().start <= x.start {
        assert(r[t.len() as int] == x);
        assert forall|i: int| 0 <= i < t.len() implies r.contains(#[trigger] t[i]) by {
            assert(r[i] == t[i]);
        }
    } else {
        let d = t.drop_last();
        lemma_insert_keeps(d, x);
        let rd = insert_by_start(d, x);
        assert(r == rd.push(t.last()));
        let j = choose|j: int| 0 <= j < rd.len() && rd[j] == x;
        assert(r[j] == x);
        assert forall|i: int| 0 <= i < t.len() implies r.contains(#[trigger] t[i]) by {
            if i == t.len() - 1 {
                assert(r[rd.len() as int] == t[i]);
            } else {
                assert(d[i] == t[i]);
                assert(rd.contains(d[i]));
                let k = choose|k: int| 0 <= k < rd.len() && rd[k] == d[i];
                assert(r[k] == t[i]);
            }
        }
    }
}

proof fn lemma_sorted_keeps(s: Seq<SegmentState>)
    ensures
        forall|i: int| 0 <= i < s.len() ==> sorted_by_start(s).contains(#[trigger] s[i]),
    decreases s.len(),
{
    if s.len() > 0 {
        let d = s.drop_last();
        lemma_sorted_keeps(d);
        let sd = sorted_by_start(d);
        lemma_insert_keeps(sd, s.last());
        let r = sorted_by_start(s);
        assert(r == insert_by_start(sd, s.last()));
        assert forall|i: int| 0 <= i < s.len() implies r.contains(#[trigger] s[i]) by {
            if i < s.len() - 1 {
                assert(d[i] == s[i]);
                assert(sd.contains(d[i]));
                let k = choose|k: int| 0 <= k < sd.len() && sd[k] == d[i];
                assert(r.contains(sd[k]));
            }
        }
    }
}

/// Segments made from states that describe the file (saved resume state,
/// or a fresh plan) start a run that is resumable.
pub proof fn a_described_file_starts_resumable(
    states: Seq<SegmentState>,
    size: u64,
    segs: Seq<SegmentRuntime>,
)
    requires
        segments_describe(states, size),
        segs.len() == states.len(),
        forall|i: int|
            0 <= i < states.len() ==> #[trigger] segs[i] == (SegmentRuntime {
                idx: states[i].idx,
                start: states[i].start,
                end: states[i].end,
                downloaded: states[i].downloaded,
            }),
    ensures
        run_resumable(segs, size),
{
    if size > 0 {
        let t = sorted_by_start(states);
        lemma_chain_is_linked(t, 0, size as int);
        lemma_sorted_keeps(states);
        assert forall|i: int| 0 <= i < states.len() implies (#[trigger] states[i]).start <= states[i].end
            && states[i].end < u64::MAX && states[i].downloaded <= states[i].end - states[i].start + 1 by {
            assert(t.contains(states[i]));
            let k = choose|k: int| 0 <= k < t.len() && t[k] == states[i];
            assert(t[k].start <= t[k].end);
        }
        assert forall|i: int| 0 <= i < segs.len() implies (#[trigger] segs[i]).end != UNKNOWN_END by {
            assert(states[i].end < u64::MAX);
        }
        assert(snapshots(segs) =~= states) by {
            assert forall|i: int| 0 <= i < states.len() implies #[trigger] snapshots(segs)[i] == states[i] by {
                assert(states[i].end < u64::MAX);
                assert(segs[i].end != UNKNOWN_END);
            }
        }
    } else {
        assert(states.len() == 0);
        assert(snapshots(segs) =~= states);
    }
}

// ------------------------------------------------------------------ progress

/// Bytes the snapshots of a run's segments claim, segment by segment.
pub open spec fn progress(segs: Seq<SegmentRuntime>) -> int {
    downloaded_sum(snapshots(segs))
}

proof fn lemma_sum_update(s: Seq<SegmentState>, i: int, x: SegmentState)
    requires
        0 <= i < s.len(),
    ensures
        downloaded_sum(s.update(i, x)) == downloaded_sum(s) - s[i].downloaded + x.downloaded,
    decreases s.len(),
{
    let t = s.update(i, x);
    if i == s.len() - 1 {
        assert(t.drop_last() =~= s.drop_last());
    } else {
        assert(t.drop_last() =~= s.drop_last().update(i, x));
        lemma_sum_update(s.drop_last(), i, x);
    }
}

proof fn lemma_sum_push(s: Seq<SegmentState>, x: SegmentState)
    ensures
        downloaded_sum(s.push(x)) == downloaded_sum(s) + x.downloaded,
{
    assert(s.push(x).drop_last() =~= s);
}

/// The run after segment `i` has written up to (not including) byte `pos`.
pub open spec fn written(segs: Seq<SegmentRuntime>, i: int, pos: u64) -> Seq<SegmentRuntime> {
    segs.update(i, SegmentRuntime { downloaded: (pos - segs[i].start) as u64, ..segs[i] })
}

/// A write that moves a segment forward never lowers the bytes the run's
/// snapshots claim: a snapshot counts a segment's bytes up to what its
/// range holds, and the write only raises the count.
pub proof fn a_forward_write_never_lowers_progress(segs: Seq<SegmentRuntime>, i: int, pos: u64)
    requires
        0 <= i < segs.len(),
        segs[i].start + segs[i].downloaded <= pos,
    ensures
        progress(segs) <= progress(written(segs, i, pos)),
{
    let w = SegmentRuntime { downloaded: (pos - segs[i].start) as u64, ..segs[i] };
    lemma_snapshots_update(segs, i, w);
    assert(snapshots(segs)[i] == snapshot_of(segs[i]));
    lemma_sum_update(snapshots(segs), i, snapshot_of(w));
}

/// A steal moves no byte: the victim keeps every byte it wrote, and the new
/// segment starts with none.
pub proof fn a_steal_keeps_progress(segs: Seq<SegmentRuntime>, v: int)
    requires
        steal_ready(segs),
        is_victim(segs, v),
    ensures
        progress(stolen(segs, v)) == progress(segs),
{
    let old_v = segs[v];
    let next = old_v.start + old_v.downloaded;
    let mid = next + rem0(old_v) / 2;
    assert(old_v.end != UNKNOWN_END);
    assert(rem0(old_v) == old_v.end + 1 - next);
    let vp = SegmentRuntime { end: (mid - 1) as u64, ..old_v };
    let fresh = SegmentRuntime {
        idx: (max_idx(segs) + 1) as u32,
        start: mid as u64,
        end: old_v.end,
        downloaded: 0,
    };
    let u = segs.update(v, vp);
    assert(stolen(segs, v) == u.push(fresh));
    lemma_snapshots_update(segs, v, vp);
    lemma_snapshots_push(u, fresh);
    assert(snapshots(segs)[v] == snapshot_of(old_v));
    assert(snapshot_of(vp).downloaded == snapshot_of(old_v).downloaded);
    assert(snapshot_of(fresh).downloaded == 0);
    lemma_sum_update(snapshots(segs), v, snapshot_of(vp));
    lemma_sum_push(snapshots(u), snapshot_of(fresh));
}

/// One step of a run: a forward write into one segment, or a steal.
pub open spec fn run_step(a: Seq<SegmentRuntime>, b: Seq<SegmentRuntime>) -> bool {
    ||| exists|i: int, pos: u64|
        0 <= i < a.len() && a[i].start + a[i].downloaded <= pos && b == #[trigger] written(a, i, pos)
    ||| exists|v: int| steal_ready(a) && #[trigger] is_victim(a, v) && b == stolen(a, v)
}

/// A durable snapshot never claims more than the run holds later: along
/// any run of forward writes and steals, the bytes claimed at an earlier
/// point are at most those claimed at a later one.
pub proof fn durable_progress_never_ahead(run: Seq<Seq<SegmentRuntime>>, i: int, j: int)
    requires
        forall|k: int| 0 <= k < run.len() - 1 ==> run_step(#[trigger] run[k], run[k + 1]),
        0 <= i <= j < run.len(),
    ensures
        progress(run[i]) <= progress(run[j]),
    decreases j - i,
{
    if i < j {
        durable_progress_never_ahead(run, i, j - 1);
        let a = run[j - 1];
        let b = run[j];
        assert(run_step(a, b));
        if exists|k: int, pos: u64|
            0 <= k < a.len() && a[k].start + a[k].downloaded <= pos && b == #[trigger] written(a, k, pos) {
            let (k, pos) = choose|k: int, pos: u64|
                0 <= k < a.len() && a[k].start + a[k].downloaded <= pos && b == #[trigger] written(a, k, pos);
            a_forward_write_never_lowers_progress(a, k, pos);
        } else {
            let v = choose|v: int| steal_ready(a) && #[trigger] is_victim(a, v) && b == stolen(a, v);
            a_steal_keeps_progress(a, v);
        }
    }
}

} // verus!
