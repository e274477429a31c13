//! The orchestrator's decisions: which part file a download claims, whether
//! saved resume state still describes the file, how the first segments are
//! laid out, how a finished worker steals half of the largest remaining
//! range, what progress reports, and how a run ends. The tasks, timers and
//! files that carry them out are the caller's.
use std::collections::VecDeque;
use vstd::prelude::*;

use crate::error::EngineError;
use crate::file::{
    candidate_name, candidate_spec, lemma_candidate_plain, lemma_candidates_differ, part_path,
    part_path_pinned, part_path_spec, plain_name,
};
use crate::plan::{plan_segments, range_len, spec_remaining, tiles_file, SegmentState};
use crate::probe::{opt_view, Probe};
use crate::request::{RequestExtras, headers_without, is_credential_header};
use crate::segment::{runtime_remaining, snapshot_of, SegmentRuntime, UNKNOWN_END};
use crate::text::{concat, decimal_string};
use crate::urls::{same_origin, url_same_origin};

verus! {

/// A finished worker steals from a segment only if more than this is left (2 MiB).
pub const STEAL_MIN_REMAINING: u64 = 2097152;

/// Nothing asked the run to stop.
pub const STOP_NONE: u8 = 0;
/// `pause()`: the run stops with its segments safe to resume.
pub const STOP_PAUSE: u8 = 1;
/// `cancel()`: the run stops and leaves the part file to the caller.
pub const STOP_CANCEL: u8 = 2;

/// Where a download is.
#[derive(Clone, Copy, Debug, PartialEq, Eq, Structural)]
pub enum Status {
    /// Workers are running.
    Downloading,
    /// Stopped by `pause()`; segments are safe to persist and resume.
    Paused,
    /// Renamed to its final name.
    Completed,
    /// A permanent error; see the [`Outcome`].
    Failed,
    /// Stopped by `cancel()`.
    Cancelled,
}

/// A snapshot for the UI.
#[derive(Debug)]
pub struct Progress {
    /// Total size when known.
    pub total: Option<u64>,
    /// Bytes written so far, all segments.
    pub downloaded: u64,
    /// Bytes per second over the last two seconds.
    pub speed_bps: u64,
    /// Seconds left at the current speed; `None` when unknown.
    pub eta_secs: Option<u64>,
    /// Every segment, including stolen ones.
    pub segments: Vec<SegmentState>,
    /// The segments as of the last completed fsync of the part file: only
    /// these bytes are known to survive a power cut. Callers persist this.
    pub durable_segments: Vec<SegmentState>,
    /// Current status.
    pub status: Status,
}

/// How a download ended.
#[derive(Debug)]
pub enum Outcome {
    /// The final path.
    Completed(String),
    /// The durable segments — safe to persist; pass them back as [`Resume::segments`].
    Paused(Vec<SegmentState>),
    /// A permanent error; the part file is kept for a later resume.
    Failed {
        /// Why.
        error: EngineError,
        /// The durable segments — safe to persist.
        segments: Vec<SegmentState>,
    },
    /// Cancelled; the part file is left for the caller to delete.
    Cancelled,
}

/// What a resume needs to check the source is unchanged.
#[derive(Debug)]
pub struct Resume {
    /// From the previous `Outcome::Paused` / `Failed` or the last flushed progress.
    pub segments: Vec<SegmentState>,
    /// Size at the first probe.
    pub size: u64,
    /// ETag at the first probe.
    pub etag: Option<String>,
    /// Last-Modified at the first probe.
    pub last_modified: Option<String>,
}

/// One download request.
#[derive(Debug)]
pub struct DownloadSpec {
    /// Where from.
    pub url: String,
    /// Directory for the file.
    pub dir: String,
    /// Override the probed name.
    pub filename: Option<String>,
    /// Headers and cookies.
    pub extras: RequestExtras,
    /// Continue a previous attempt.
    pub resume_from: Option<Resume>,
    /// Part-file paths the caller owns for downloads that are not running
    /// (paused, queued); treated exactly like live parts — a fresh start
    /// picks another name and never deletes them.
    pub reserved: Vec<String>,
}

// ---------------------------------------------------------------- resume

/// `x` placed into `s` (sorted by start) after every element that starts at or before it.
pub open spec fn insert_by_start(s: Seq<SegmentState>, x: SegmentState) -> Seq<SegmentState>
    decreases s.len(),
{
    if s.len() == 0 {
        seq![x]
    } else if s.last().start <= x.start {
        s.push(x)
    } else {
        insert_by_start(s.drop_last(), x).push(s.last())
    }
}

/// `s` sorted by `start`, equal starts keeping their order (a stable sort).
pub open spec fn sorted_by_start(s: Seq<SegmentState>) -> Seq<SegmentState>
    decreases s.len(),
{
    if s.len() == 0 {
        Seq::empty()
    } else {
        insert_by_start(sorted_by_start(s.drop_last()), s.last())
    }
}

/// The segments, in order, run contiguously from `expect` to `size - 1`;
/// each is a real range (`start <= end < u64::MAX`) and claims no more bytes
/// than it spans.
pub open spec fn chain_from(s: Seq<SegmentState>, expect: int, size: int) -> bool
    decreases s.len(),
{
    if s.len() == 0 {
        expect == size
    } else {
        let x = s[0];
        &&& x.start == expect
        &&& x.start <= x.end
        &&& x.end < u64::MAX
        &&& x.downloaded <= x.end - x.start + 1
        &&& chain_from(s.drop_first(), x.end + 1, size)
    }
}

/// Saved segments describe a `size`-byte file: none for an empty file,
/// otherwise, sorted by start, they cover `0..size` exactly once.
pub open spec fn segments_describe(segs: Seq<SegmentState>, size: u64) -> bool {
    if size == 0 {
        segs.len() == 0
    } else {
        segs.len() > 0 && chain_from(sorted_by_start(segs), 0, size as int)
    }
}

pub(crate) proof fn lemma_insert_at(s: Seq<SegmentState>, x: SegmentState, j: int)
    requires
        0 <= j <= s.len(),
        forall|i: int| j <= i < s.len() ==> s[i].start > x.start,
        j > 0 ==> s[j - 1].start <= x.start,
    ensures
        insert_by_start(s, x) == s.take(j).push(x) + s.skip(j),
    decreases s.len(),
{
    if s.len() == 0 {
        assert(s.take(j).push(x) + s.skip(j) =~= seq![x]);
    } else if s.last().start <= x.start {
        assert(j == s.len());
        assert(s.take(j).push(x) + s.skip(j) =~= s.push(x));
    } else {
        lemma_insert_at(s.drop_last(), x, j);
        assert(s.drop_last().take(j) =~= s.take(j));
        assert(s.drop_last().skip(j).push(s.last()) =~= s.skip(j));
        assert((s.take(j).push(x) + s.drop_last().skip(j)).push(s.last()) =~= s.take(j).push(x)
            + s.skip(j));
    }
}

/// Sorting by start leaves segments that already run in order of their starts as they are.
proof fn lemma_sorted_is_identity(s: Seq<SegmentState>)
    requires
        forall|i: int| 0 <= i < s.len() - 1 ==> #[trigger] s[i].start <= s[i + 1].start,
    ensures
        sorted_by_start(s) == s,
    decreases s.len(),
{
    if s.len() > 0 {
        let d = s.drop_last();
        assert forall|i: int| 0 <= i < d.len() - 1 implies #[trigger] d[i].start <= d[i + 1].start by {
            assert(d[i] == s[i] && d[i + 1] == s[i + 1]);
        }
        lemma_sorted_is_identity(d);
        if d.len() > 0 {
            assert(d.last() == s[s.len() - 2]);
        }
        assert(d.push(s.last()) =~= s);
    }
}

/// Consecutive real ranges that end at `size - 1` chain from their first start.
proof fn lemma_tiled_chain(s: Seq<SegmentState>, size: int)
    requires
        s.len() > 0,
        size <= u64::MAX,
        s.last().end == size - 1,
        forall|i: int| 0 <= i < s.len() ==> (#[trigger] s[i]).start <= s[i].end && s[i].downloaded <= range_len(s[i]),
        forall|i: int| 0 <= i < s.len() - 1 ==> #[trigger] s[i].end + 1 == s[i + 1].start,
    ensures
        chain_from(s, s[0].start as int, size),
        s[0].end <= size - 1,
    decreases s.len(),
{
    let t = s.drop_first();
    if t.len() > 0 {
        assert forall|i: int| 0 <= i < t.len() implies (#[trigger] t[i]).start <= t[i].end && t[i].downloaded <= range_len(t[i]) by {
            assert(t[i] == s[i + 1]);
        }
        assert forall|i: int| 0 <= i < t.len() - 1 implies #[trigger] t[i].end + 1 == t[i + 1].start by {
            assert(t[i] == s[i + 1] && t[i + 1] == s[i + 2]);
        }
        assert(t.last() == s.last());
        lemma_tiled_chain(t, size);
        assert(t[0] == s[1]);
        assert(s[0].end + 1 == s[1].start);
    } else {
        assert(s.last() == s[0]);
    }
    assert(chain_from(t, s[0].end + 1, size));
}

/// A fresh plan, saved as it is, describes its file: segments that tile
/// `0..size` in order and claim no more bytes than they span are accepted
/// as resume state (`validate_resume_segments` answers `Ok`). Every plan of
/// `plan_segments` is such a sequence.
pub proof fn planned_segments_describe_the_file(segs: Seq<SegmentState>, size: u64)
    requires
        tiles_file(segs, size as int),
        forall|i: int| 0 <= i < segs.len() ==> (#[trigger] segs[i]).downloaded <= range_len(segs[i]),
    ensures
        segments_describe(segs, size),
{
    if size > 0 {
        assert forall|i: int| 0 <= i < segs.len() - 1 implies #[trigger] segs[i].start <= segs[i + 1].start by {
            assert(segs[i].start <= segs[i].end);
            assert(segs[i].end + 1 == segs[i + 1].start);
        }
        lemma_sorted_is_identity(segs);
        lemma_tiled_chain(segs, size as int);
    }
}

/// `segs` sorted by start (stable).
pub fn sort_by_start(segs: &Vec<SegmentState>) -> (r: Vec<SegmentState>)
    ensures
        r@ == sorted_by_start(segs@),
{
    let mut out: Vec<SegmentState> = Vec::new();
    let mut i: usize = 0;
    while i < segs.len()
        invariant
            i <= segs.len(),
            out@ == sorted_by_start(segs@.take(i as int)),
        decreases segs.len() - i,
    {
        let x = segs[i];
        let mut j: usize = out.len();
        while j > 0 && out[j - 1].start > x.start
            invariant
                j <= out.len(),
                forall|k: int| j <= k < out.len() ==> out@[k].start > x.start,
            decreases j,
        {
            j = j - 1;
        }
        proof {
            lemma_insert_at(out@, x, j as int);
            assert(segs@.take(i + 1).drop_last() =~= segs@.take(i as int));
            assert(segs@.take(i + 1).last() == x);
        }
        let ghost before = out@;
        out.insert(j, x);
        assert(out@ =~= before.take(j as int).push(x) + before.skip(j as int));
        i = i + 1;
    }
    assert(segs@.take(segs.len() as int) =~= segs@);
    out
}

/// `segment <idx><rest>`, the start of a refusal.
fn segment_text(idx: u32, rest: &str) -> String {
    let m = concat("segment ", decimal_string(idx as u64).as_str());
    concat(m.as_str(), rest)
}

fn bad_resume(why: &str) -> (r: Result<(), EngineError>)
    ensures
        r is Err && r->Err_0 is InvalidResume,
{
    Err(EngineError::InvalidResume(String::from_str(why)))
}

/// Check that saved resume segments describe a `r.size`-byte file: segments
/// that run contiguously from byte 0 to `size - 1` (none for an empty file)
/// and no segment claiming more bytes than its range. Anything else would
/// "complete" a file with holes.
pub fn validate_resume_segments(r: &Resume) -> (res: Result<(), EngineError>)
    ensures
        res is Ok <==> segments_describe(r.segments@, r.size),
        res is Err ==> res->Err_0 is InvalidResume,
{
    let segs = sort_by_start(&r.segments);
    if r.size == 0 {
        if segs.len() > 0 {
            return bad_resume("segments given for an empty file");
        }
        return Ok(());
    }
    if segs.len() == 0 {
        return bad_resume("no segments");
    }
    let mut expect: u64 = 0;
    let mut i: usize = 0;
    assert(segs@.skip(0) =~= segs@);
    while i < segs.len()
        invariant
            r.size > 0,
            segs@ == sorted_by_start(r.segments@),
            i <= segs.len(),
            chain_from(segs@, 0, r.size as int) == chain_from(segs@.skip(i as int), expect as int, r.size as int),
        decreases segs.len() - i,
    {
        let s = segs[i];
        proof {
            assert(segs@.skip(i as int)[0] == s);
            assert(segs@.skip(i as int).drop_first() =~= segs@.skip(i + 1));
        }
        if s.start != expect {
            let m = segment_text(s.idx, " starts at ");
            let m = concat(m.as_str(), decimal_string(s.start).as_str());
            let m = concat(m.as_str(), ", expected ");
            let m = concat(m.as_str(), decimal_string(expect).as_str());
            return Err(EngineError::InvalidResume(m));
        }
        if s.end < s.start {
            return Err(EngineError::InvalidResume(segment_text(s.idx, " ends before it starts")));
        }
        if s.start == 0 && s.end == u64::MAX {
            return Err(EngineError::InvalidResume(segment_text(s.idx, " has an invalid range")));
        }
        let len = s.end - s.start + 1;
        if s.downloaded > len {
            let m = segment_text(s.idx, " claims ");
            let m = concat(m.as_str(), decimal_string(s.downloaded).as_str());
            let m = concat(m.as_str(), " bytes of a ");
            let m = concat(m.as_str(), decimal_string(len).as_str());
            let m = concat(m.as_str(), "-byte range");
            return Err(EngineError::InvalidResume(m));
        }
        if s.end == u64::MAX {
            return Err(EngineError::InvalidResume(segment_text(s.idx, " end overflows")));
        }
        expect = s.end + 1;
        i = i + 1;
    }
    assert(segs@.skip(segs.len() as int) =~= Seq::<SegmentState>::empty());
    if expect != r.size {
        let last = if expect > 0 { expect - 1 } else { 0 };
        let m = concat("segments end at byte ", decimal_string(last).as_str());
        let m = concat(m.as_str(), ", the file has ");
        let m = concat(m.as_str(), decimal_string(r.size).as_str());
        let m = concat(m.as_str(), " bytes");
        return Err(EngineError::InvalidResume(m));
    }
    Ok(())
}

/// The whole resume check: the segments describe the file and the part file
/// is exactly `size` bytes long.
pub fn validate_resume(r: &Resume, part_len: u64) -> (res: Result<(), EngineError>)
    ensures
        res is Ok <==> segments_describe(r.segments@, r.size) && part_len == r.size,
        res is Err ==> res->Err_0 is InvalidResume,
{
    validate_resume_segments(r)?;
    if part_len != r.size {
        let a = decimal_string(part_len);
        let b = decimal_string(r.size);
        let m1 = concat("part file is ", a.as_str());
        let m2 = concat(m1.as_str(), " bytes, the file has ");
        let m3 = concat(m2.as_str(), b.as_str());
        return Err(EngineError::InvalidResume(m3));
    }
    Ok(())
}

/// An ETag / Last-Modified / size that differs from the first probe.
pub open spec fn source_changed(p: Probe, r: Resume) -> bool {
    ||| p.size != Some(r.size)
    ||| match (opt_view(p.etag), opt_view(r.etag)) {
        (Some(a), Some(b)) => a != b,
        (None, None) => opt_view(p.last_modified) != opt_view(r.last_modified),
        _ => true,
    }
}

fn opt_eq(a: &Option<String>, b: &Option<String>) -> (r: bool)
    ensures
        r == (opt_view(*a) == opt_view(*b)),
{
    match a {
        Some(x) => match b {
            Some(y) => {
                let e = *x == *y;
                e
            },
            None => false,
        },
        None => b.is_none(),
    }
}

/// A resume needs ranges and an unchanged source.
pub fn check_resume_source(p: &Probe, r: &Resume) -> (res: Result<(), EngineError>)
    ensures
        !p.ranges ==> res == Err::<(), EngineError>(EngineError::RangeNotSupported),
        p.ranges && source_changed(*p, *r) ==> res == Err::<(), EngineError>(EngineError::SourceChanged),
        p.ranges && !source_changed(*p, *r) ==> res is Ok,
        p.ranges && (p.size != Some(r.size) || (p.etag is Some && r.etag is Some && p.etag->0@ != r.etag->0@))
            ==> res == Err::<(), EngineError>(EngineError::SourceChanged),
{
    if !p.ranges {
        return Err(EngineError::RangeNotSupported);
    }
    let size_changed = match p.size {
        Some(s) => s != r.size,
        None => true,
    };
    let etag_changed = if p.etag.is_some() && r.etag.is_some() {
        !opt_eq(&p.etag, &r.etag)
    } else if p.etag.is_none() && r.etag.is_none() {
        !opt_eq(&p.last_modified, &r.last_modified)
    } else {
        true
    };
    let changed = size_changed || etag_changed;
    if changed {
        return Err(EngineError::SourceChanged);
    }
    Ok(())
}

/// A resume only goes on with the very file it started on: with ranges
/// honoured, it is refused as a changed source exactly when the probed size
/// is not the saved size, or the ETags differ (one missing counts), or,
/// with no ETag on either side, the Last-Modified values differ.
pub proof fn a_resume_is_refused_when_the_file_changed(p: Probe, r: Resume)
    ensures
        source_changed(p, r) <==> {
            ||| p.size != Some(r.size)
            ||| (p.etag is Some) != (r.etag is Some)
            ||| (p.etag is Some && r.etag is Some && p.etag->0@ != r.etag->0@)
            ||| (p.etag is None && r.etag is None && (p.last_modified is Some) != (r.last_modified is Some))
            ||| (p.etag is None && r.etag is None && p.last_modified is Some && r.last_modified is Some
                && p.last_modified->0@ != r.last_modified->0@)
        },
        p.size != Some(r.size) ==> source_changed(p, r),
        p.etag is Some && r.etag is Some && p.etag->0@ != r.etag->0@ ==> source_changed(p, r),
        p.size == Some(r.size) && p.etag is Some && r.etag is Some && p.etag->0@ == r.etag->0@ ==> !source_changed(
            p,
            r,
        ),
{
}

// ---------------------------------------------------------------- part claims

/// `p` is one of `paths`.
pub open spec fn listed(p: Seq<char>, paths: Seq<String>) -> bool {
    exists|i: int| 0 <= i < paths.len() && #[trigger] paths[i]@ == p
}

fn is_listed(p: &String, paths: &Vec<String>) -> (r: bool)
    ensures
        r == listed(p@, paths@),
{
    let mut i: usize = 0;
    while i < paths.len()
        invariant
            i <= paths.len(),
            forall|k: int| 0 <= k < i ==> (#[trigger] paths@[k])@ != p@,
        decreases paths.len() - i,
    {
        if paths[i] == *p {
            return true;
        }
        i = i + 1;
    }
    false
}

/// The part path of the `k`-th candidate name of `base` in `dir`.
pub open spec fn candidate_part(dir: Seq<char>, base: Seq<char>, k: nat) -> Seq<char> {
    part_path_spec(dir, candidate_spec(base, k))
}

/// What [`claim_part`] answers, for the part paths `live` of running
/// downloads and the caller's `reserved` ones: a resume keeps its name and
/// is refused exactly when its part file is live; a fresh start takes the
/// first candidate name whose part path is neither live nor reserved (and,
/// for a plain name, the part paths tried all differ); it fails only when
/// every candidate up to `u32::MAX` is taken.
pub open spec fn claim_outcome(
    dir: Seq<char>,
    base: Seq<char>,
    resuming: bool,
    live: Seq<String>,
    reserved: Seq<String>,
    r: Result<(String, String), EngineError>,
) -> bool {
    &&& resuming ==> (listed(part_path_spec(dir, base), live) <==> r is Err)
    &&& resuming && r is Err ==> r->Err_0 is InvalidResume
    &&& resuming && r is Ok ==> r->Ok_0.0@ == base && r->Ok_0.1@ == part_path_spec(dir, base)
    &&& !resuming && r is Ok ==> exists|k: nat|
        #![trigger candidate_spec(base, k)]
        k <= u32::MAX && r->Ok_0.0@ == candidate_spec(base, k) && r->Ok_0.1@ == candidate_part(dir, base, k)
            && !listed(r->Ok_0.1@, live) && !listed(r->Ok_0.1@, reserved) && (forall|j: nat|
            j < k ==> listed(#[trigger] candidate_part(dir, base, j), live) || listed(
                candidate_part(dir, base, j),
                reserved,
            )) && (plain_name(base) ==> forall|i: nat, j: nat|
            #![trigger candidate_part(dir, base, i), candidate_part(dir, base, j)]
            i < j <= k ==> candidate_part(dir, base, i) != candidate_part(dir, base, j))
    &&& !resuming && r is Err ==> r->Err_0 is Internal && forall|j: nat|
        j <= u32::MAX ==> listed(#[trigger] candidate_part(dir, base, j), live) || listed(
            candidate_part(dir, base, j),
            reserved,
        )
}

/// Claim a part file for a download named `base` in `dir`, given the part
/// paths of live downloads and the caller's reserved ones. A fresh start
/// takes the first of `base`, `name (1).ext`, `name (2).ext` … whose part
/// path is neither live nor reserved; a resume keeps its name and is refused
/// when that part file is live. For a name with no path separator the
/// names tried lead to part paths that all differ, so a reserved or live
/// part file never hides a later name.
pub fn claim_part(dir: &str, base: &str, resuming: bool, live: &Vec<String>, reserved: &Vec<String>)
    -> (r: Result<(String, String), EngineError>)
    ensures
        claim_outcome(dir@, base@, resuming, live@, reserved@, r),
{
    if resuming {
        let p = part_path(dir, base);
        if is_listed(&p, live) {
            return Err(EngineError::InvalidResume(String::from_str("the part file is in use by another download")));
        }
        return Ok((String::from_str(base), p));
    }
    let mut k: u32 = 0;
    loop
        invariant
            !resuming,
            forall|j: nat|
                j < k ==> listed(#[trigger] candidate_part(dir@, base@, j), live@) || listed(
                    candidate_part(dir@, base@, j),
                    reserved@,
                ),
            plain_name(base@) ==> forall|j: nat|
                j < k ==> part_path_pinned(dir@, #[trigger] candidate_spec(base@, j)),
        decreases u32::MAX - k,
    {
        let f = candidate_name(base, k);
        proof {
            if plain_name(base@) {
                lemma_candidate_plain(base@, k as nat);
            }
        }
        let p = part_path(dir, f.as_str());
        proof {
            if plain_name(base@) {
                assert forall|i: nat, j: nat| i < j <= k implies candidate_part(dir@, base@, i)
                    != candidate_part(dir@, base@, j) by {
                    lemma_candidates_differ(base@, i, j);
                    lemma_candidate_plain(base@, i);
                    assert(part_path_pinned(dir@, candidate_spec(base@, j)));
                }
            }
        }
        if !is_listed(&p, live) && !is_listed(&p, reserved) {
            return Ok((f, p));
        }
        if k == u32::MAX {
            return Err(EngineError::Internal(String::from_str("no free name for the part file")));
        }
        k = k + 1;
    }
}

/// The part paths held by running downloads, shared by every engine that
/// claims part files in the same places.
pub struct PartRegistry {
    live: Vec<String>,
}

impl PartRegistry {
    /// The part paths held now, in the order they were claimed.
    pub closed spec fn paths(&self) -> Seq<String> {
        self.live@
    }

    /// No part path is held twice.
    pub open spec fn distinct(&self) -> bool {
        forall|i: int, j: int|
            0 <= i < j < self.paths().len() ==> (#[trigger] self.paths()[i])@ != (#[trigger] self.paths()[j])@
    }

    /// No part path is held.
    pub fn new() -> (r: PartRegistry)
        ensures
            r.paths().len() == 0,
            r.distinct(),
    {
        PartRegistry { live: Vec::new() }
    }

    /// Claim a part file for a download named `base` in `dir` ([`claim_part`]
    /// against the paths held now); the claimed path is held from then on,
    /// so the paths of running downloads stay pairwise distinct.
    pub fn claim(&mut self, dir: &str, base: &str, resuming: bool, reserved: &Vec<String>) -> (r: Result<
        (String, String),
        EngineError,
    >)
        requires
            old(self).distinct(),
        ensures
            final(self).distinct(),
            claim_outcome(dir@, base@, resuming, old(self).paths(), reserved@, r),
            r is Ok ==> final(self).paths() == old(self).paths().push(r->Ok_0.1),
            r is Err ==> final(self).paths() == old(self).paths(),
    {
        let r = claim_part(dir, base, resuming, &self.live, reserved);
        if let Ok((_, p)) = &r {
            let ghost before = self.live@;
            assert(before == old(self).paths());
            assert(!listed(p@, before));
            self.live.push(p.clone());
            assert(self.live@ == before.push(*p));
            assert forall|i: int, j: int| 0 <= i < j < self.paths().len() implies (#[trigger] self.paths()[i])@
                != (#[trigger] self.paths()[j])@ by {
                assert(self.paths()[i] == old(self).paths()[i]);
                if j == before.len() {
                    assert(self.paths()[j] == *p);
                } else {
                    assert(self.paths()[j] == old(self).paths()[j]);
                }
            }
        }
        r
    }

    /// Stop holding `path`, if it is held.
    pub fn release(&mut self, path: &str)
        requires
            old(self).distinct(),
        ensures
            final(self).distinct(),
            forall|p: Seq<char>| listed(p, final(self).paths()) <==> (listed(p, old(self).paths()) && p != path@),
    {
        let target = String::from_str(path);
        let mut i: usize = 0;
        while i < self.live.len()
            invariant
                target@ == path@,
                i <= self.live.len(),
                self.live@ == old(self).paths(),
                old(self).distinct(),
                forall|k: int| 0 <= k < i ==> (#[trigger] self.live@[k])@ != path@,
            decreases self.live.len() - i,
        {
            if self.live[i] == target {
                let ghost before = self.live@;
                self.live.remove(i);
                assert(self.live@ =~= before.remove(i as int));
                assert forall|a: int, b: int| 0 <= a < b < self.paths().len() implies (#[trigger] self.paths()[a])@
                    != (#[trigger] self.paths()[b])@ by {
                    let a0 = if a < i { a } else { a + 1 };
                    let b0 = if b < i { b } else { b + 1 };
                    assert(self.paths()[a] == old(self).paths()[a0]);
                    assert(self.paths()[b] == old(self).paths()[b0]);
                }
                assert forall|p: Seq<char>| listed(p, self.paths()) <==> (listed(p, before) && p != path@) by {
                    if listed(p, self.paths()) {
                        let w = choose|w: int| 0 <= w < self.paths().len() && #[trigger] self.paths()[w]@ == p;
                        let w0 = if w < i { w } else { w + 1 };
                        assert(self.paths()[w] == before[w0]);
                        assert(w0 != i);
                    }
                    if listed(p, before) && p != path@ {
                        let w = choose|w: int| 0 <= w < before.len() && #[trigger] before[w]@ == p;
                        assert(w != i);
                        if w < i {
                            assert(self.paths()[w] == before[w]);
                        } else {
                            assert(self.paths()[w - 1] == before[w]);
                        }
                    }
                }
                return;
            }
            i = i + 1;
        }
        assert forall|p: Seq<char>| listed(p, self.paths()) <==> (listed(p, old(self).paths()) && p != path@) by {
            if listed(p, self.paths()) {
                let w = choose|w: int| 0 <= w < self.paths().len() && #[trigger] self.paths()[w]@ == p;
                assert(self.live@[w]@ != path@);
            }
        }
    }
}

// ---------------------------------------------------------------- first layout

/// The segments a run starts with and whether it sends ranges: a resume's
/// saved segments (ranged); a fresh plan when the size is known and ranges
/// work; nothing for an empty plain file; one plain segment otherwise.
pub open spec fn initial_layout(
    size: Option<u64>,
    ranges: bool,
    resume: Option<Seq<SegmentState>>,
    max_connections: u8,
    segs: Seq<SegmentRuntime>,
    ranged: bool,
) -> bool {
    match resume {
        Some(saved) => ranged && segs.len() == saved.len() && forall|i: int|
            0 <= i < saved.len() ==> #[trigger] segs[i] == (SegmentRuntime {
                idx: saved[i].idx,
                start: saved[i].start,
                end: saved[i].end,
                downloaded: saved[i].downloaded,
            }),
        None => match size {
            Some(n) => if ranges {
                ranged && segs.len() == crate::plan::segment_count(n, max_connections) && forall|i: int|
                    0 <= i < segs.len() ==> #[trigger] segs[i] == (SegmentRuntime {
                        idx: crate::plan::planned_segment(n as int, segs.len() as int, i).idx,
                        start: crate::plan::planned_segment(n as int, segs.len() as int, i).start,
                        end: crate::plan::planned_segment(n as int, segs.len() as int, i).end,
                        downloaded: 0,
                    })
            } else if n == 0 {
                !ranged && segs.len() == 0
            } else {
                !ranged && segs == seq![SegmentRuntime { idx: 0, start: 0, end: (n - 1) as u64, downloaded: 0 }]
            },
            None => !ranged && segs == seq![SegmentRuntime { idx: 0, start: 0, end: UNKNOWN_END, downloaded: 0 }],
        },
    }
}

fn runtimes_of(states: &Vec<SegmentState>) -> (r: Vec<SegmentRuntime>)
    ensures
        r.len() == states.len(),
        forall|i: int|
            0 <= i < states.len() ==> #[trigger] r@[i] == (SegmentRuntime {
                idx: states@[i].idx,
                start: states@[i].start,
                end: states@[i].end,
                downloaded: states@[i].downloaded,
            }),
{
    let mut r: Vec<SegmentRuntime> = Vec::new();
    let mut i: usize = 0;
    while i < states.len()
        invariant
            i <= states.len(),
            r.len() == i,
            forall|k: int|
                0 <= k < i ==> #[trigger] r@[k] == (SegmentRuntime {
                    idx: states@[k].idx,
                    start: states@[k].start,
                    end: states@[k].end,
                    downloaded: states@[k].downloaded,
                }),
        decreases states.len() - i,
    {
        r.push(SegmentRuntime::from_state(&states[i]));
        i = i + 1;
    }
    r
}

/// Lay out the first segments of a run.
pub fn initial_segments(size: Option<u64>, ranges: bool, resume: Option<&Resume>, max_connections: u8)
    -> (r: (Vec<SegmentRuntime>, bool))
    ensures
        initial_layout(
            size,
            ranges,
            match resume {
                Some(x) => Some(x.segments@),
                None => None,
            },
            max_connections,
            r.0@,
            r.1,
        ),
{
    match resume {
        Some(x) => (runtimes_of(&x.segments), true),
        None => match size {
            Some(n) => {
                if ranges {
                    let plan = plan_segments(n, max_connections);
                    (runtimes_of(&plan), true)
                } else if n == 0 {
                    (Vec::new(), false)
                } else {
                    let mut v = Vec::new();
                    v.push(SegmentRuntime::new(0, 0, Some(n - 1), 0));
                    assert(v@ =~= seq![SegmentRuntime { idx: 0, start: 0, end: (n - 1) as u64, downloaded: 0 }]);
                    (v, false)
                }
            },
            None => {
                let mut v = Vec::new();
                v.push(SegmentRuntime::new(0, 0, None, 0));
                assert(v@ =~= seq![SegmentRuntime { idx: 0, start: 0, end: UNKNOWN_END, downloaded: 0 }]);
                (v, false)
            },
        },
    }
}

/// A redirect that left the caller's origin gets none of its cookies or
/// Authorization: workers fetch the final URL directly.
pub fn extras_for(url: &str, final_url: &str, extras: &RequestExtras) -> (r: RequestExtras)
    ensures
        url_same_origin(url@, final_url@) ==> r.headers@ == extras.headers@ && r.cookies@ == extras.cookies@,
        !url_same_origin(url@, final_url@) ==> r.headers@ == headers_without(
            extras.headers@,
            |n: Seq<char>| is_credential_header(n),
        ) && r.cookies@.len() == 0,
{
    if same_origin(url, final_url) {
        extras.clone()
    } else {
        extras.without_credentials()
    }
}

// ---------------------------------------------------------------- stealing

/// Bytes left of a segment, 0 when its end is unknown.
pub open spec fn rem0(s: SegmentRuntime) -> int {
    match runtime_remaining(s) {
        Some(r) => r as int,
        None => 0,
    }
}

/// The segment a finished worker steals from: the last of those with the
/// most bytes left, among those with more than [`STEAL_MIN_REMAINING`] left.
pub open spec fn is_victim(segs: Seq<SegmentRuntime>, v: int) -> bool {
    &&& 0 <= v < segs.len()
    &&& rem0(segs[v]) > STEAL_MIN_REMAINING
    &&& forall|j: int| 0 <= j < segs.len() ==> rem0(#[trigger] segs[j]) <= rem0(segs[v])
    &&& forall|j: int| v < j < segs.len() ==> rem0(#[trigger] segs[j]) < rem0(segs[v])
}

/// The victim is a segment with more than [`STEAL_MIN_REMAINING`] left and
/// the most bytes left of all the segments; no later segment has as many.
pub proof fn the_victim_has_the_most_left(segs: Seq<SegmentRuntime>, v: int)
    requires
        is_victim(segs, v),
    ensures
        0 <= v < segs.len(),
        rem0(segs[v]) > STEAL_MIN_REMAINING,
        forall|j: int| 0 <= j < segs.len() ==> rem0(#[trigger] segs[j]) <= rem0(segs[v]),
        forall|j: int| v < j < segs.len() ==> rem0(#[trigger] segs[j]) != rem0(segs[v]),
{
}

/// There is at most one victim.
pub proof fn the_victim_is_unique(segs: Seq<SegmentRuntime>, v: int, w: int)
    requires
        is_victim(segs, v),
        is_victim(segs, w),
    ensures
        v == w,
{
    if v < w {
        assert(rem0(segs[w]) < rem0(segs[v]));
        assert(rem0(segs[v]) <= rem0(segs[w]));
    } else if w < v {
        assert(rem0(segs[v]) < rem0(segs[w]));
        assert(rem0(segs[w]) <= rem0(segs[v]));
    }
}

proof fn lemma_last_max(segs: Seq<SegmentRuntime>) -> (v: int)
    requires
        segs.len() > 0,
    ensures
        0 <= v < segs.len(),
        forall|j: int| 0 <= j < segs.len() ==> rem0(#[trigger] segs[j]) <= rem0(segs[v]),
        forall|j: int| v < j < segs.len() ==> rem0(#[trigger] segs[j]) < rem0(segs[v]),
    decreases segs.len(),
{
    let n = segs.len() - 1;
    if n == 0 {
        0
    } else {
        let init = segs.drop_last();
        let u = lemma_last_max(init);
        assert(forall|j: int| 0 <= j < n ==> #[trigger] init[j] == segs[j]);
        if rem0(segs[n]) >= rem0(segs[u]) {
            assert forall|j: int| 0 <= j < segs.len() implies rem0(#[trigger] segs[j]) <= rem0(segs[n]) by {
                if j < n {
                    assert(init[j] == segs[j]);
                }
            }
            n
        } else {
            assert forall|j: int| 0 <= j < segs.len() implies rem0(#[trigger] segs[j]) <= rem0(segs[u]) by {
                if j < n {
                    assert(init[j] == segs[j]);
                }
            }
            assert forall|j: int| u < j < segs.len() implies rem0(#[trigger] segs[j]) < rem0(segs[u]) by {
                if j < n {
                    assert(init[j] == segs[j]);
                }
            }
            u
        }
    }
}

/// Whenever some segment has more than [`STEAL_MIN_REMAINING`] left, there
/// is a victim.
pub proof fn a_large_range_has_a_victim(segs: Seq<SegmentRuntime>, j: int)
    requires
        0 <= j < segs.len(),
        rem0(segs[j]) > STEAL_MIN_REMAINING,
    ensures
        exists|v: int| is_victim(segs, v),
{
    let v = lemma_last_max(segs);
    assert(rem0(segs[j]) <= rem0(segs[v]));
    assert(is_victim(segs, v));
}

/// Segments whose counters stay within `u64` and whose numbers leave room for one more.
pub open spec fn steal_ready(segs: Seq<SegmentRuntime>) -> bool {
    forall|i: int| 0 <= i < segs.len() ==> (#[trigger] segs[i]).start + segs[i].downloaded <= u64::MAX
        && segs[i].idx < u32::MAX
}

/// The largest segment number in use.
pub open spec fn max_idx(segs: Seq<SegmentRuntime>) -> int
    decreases segs.len(),
{
    if segs.len() == 0 {
        -1
    } else {
        let m = max_idx(segs.drop_last());
        if segs.last().idx as int > m { segs.last().idx as int } else { m }
    }
}

proof fn lemma_max_idx_bounds(segs: Seq<SegmentRuntime>)
    requires
        steal_ready(segs),
    ensures
        -1 <= max_idx(segs) < u32::MAX,
        segs.len() > 0 ==> max_idx(segs) >= 0,
    decreases segs.len(),
{
    if segs.len() > 0 {
        assert(steal_ready(segs.drop_last())) by {
            assert forall|i: int| 0 <= i < segs.drop_last().len() implies (#[trigger] segs.drop_last()[i]).start
                + segs.drop_last()[i].downloaded <= u64::MAX && segs.drop_last()[i].idx < u32::MAX by {
                assert(segs.drop_last()[i] == segs[i]);
            }
        }
        lemma_max_idx_bounds(segs.drop_last());
        assert(segs.last() == segs[segs.len() - 1]);
    }
}

proof fn lemma_max_idx_is_max(segs: Seq<SegmentRuntime>)
    ensures
        forall|j: int| 0 <= j < segs.len() ==> (#[trigger] segs[j]).idx <= max_idx(segs),
    decreases segs.len(),
{
    if segs.len() > 0 {
        lemma_max_idx_is_max(segs.drop_last());
        assert forall|j: int| 0 <= j < segs.len() implies (#[trigger] segs[j]).idx <= max_idx(segs) by {
            if j < segs.len() - 1 {
                assert(segs.drop_last()[j] == segs[j]);
            }
        }
    }
}

/// What stealing from segment `v` leaves: the victim keeps `next..mid-1`
/// and a new segment, numbered after every other, takes `mid..=end`, where
/// `mid = next + remaining / 2`.
pub open spec fn stolen(segs: Seq<SegmentRuntime>, v: int) -> Seq<SegmentRuntime> {
    let old_v = segs[v];
    let next = old_v.start + old_v.downloaded;
    let mid = next + rem0(old_v) / 2;
    segs.update(v, SegmentRuntime { end: (mid - 1) as u64, ..old_v }).push(
        SegmentRuntime {
            idx: (max_idx(segs) + 1) as u32,
            start: mid as u64,
            end: old_v.end,
            downloaded: 0,
        },
    )
}

/// A steal splits the victim's remaining bytes in two: the victim keeps
/// the first half (rounded down) from where it stands, a new segment,
/// numbered after every other and with nothing written yet, takes the rest
/// up to the victim's old end; every other segment is left as it was.
pub proof fn a_steal_splits_the_rest_in_half(segs: Seq<SegmentRuntime>, v: int)
    requires
        steal_ready(segs),
        is_victim(segs, v),
    ensures
        ({
            let after = stolen(segs, v);
            let old_v = segs[v];
            let kept = after[v];
            let fresh = after.last();
            &&& after.len() == segs.len() + 1
            &&& forall|j: int| 0 <= j < segs.len() && j != v ==> #[trigger] after[j] == segs[j]
            &&& kept.idx == old_v.idx && kept.start == old_v.start && kept.downloaded == old_v.downloaded
            &&& rem0(kept) == rem0(old_v) / 2
            &&& fresh.start == kept.end + 1
            &&& fresh.end == old_v.end
            &&& fresh.downloaded == 0
            &&& rem0(fresh) == rem0(old_v) - rem0(old_v) / 2
            &&& forall|j: int| 0 <= j < segs.len() ==> (#[trigger] segs[j]).idx < fresh.idx
        }),
{
    let old_v = segs[v];
    let next = old_v.start + old_v.downloaded;
    assert(old_v.end != UNKNOWN_END);
    assert(rem0(old_v) == old_v.end + 1 - next);
    lemma_max_idx_bounds(segs);
    lemma_max_idx_is_max(segs);
    let after = stolen(segs, v);
    assert(after.last() == after[segs.len() as int]);
}

/// Split the largest remaining range and return the segment for its second
/// half (also added to `segs`): the victim keeps `next..mid-1`, the new
/// segment takes `mid..=end`, where `mid = next + remaining / 2`. A plain
/// stream, or segments with no more than [`STEAL_MIN_REMAINING`] left, give
/// nothing to steal.
pub fn steal(segs: &mut Vec<SegmentRuntime>, ranged: bool) -> (r: Option<SegmentRuntime>)
    requires
        steal_ready(old(segs)@),
    ensures
        !ranged ==> r is None && final(segs)@ == old(segs)@,
        ranged && (forall|j: int| 0 <= j < old(segs)@.len() ==> rem0(#[trigger] old(segs)@[j]) <= STEAL_MIN_REMAINING)
            ==> r is None && final(segs)@ == old(segs)@,
        r is Some ==> ranged && exists|v: int|
            #![trigger is_victim(old(segs)@, v)]
            is_victim(old(segs)@, v) && final(segs)@ == stolen(old(segs)@, v)
                && r->0 == final(segs)@.last(),
        ranged && (exists|j: int| 0 <= j < old(segs)@.len() && rem0(#[trigger] old(segs)@[j]) > STEAL_MIN_REMAINING) ==> r is Some,
{
    if !ranged {
        return None;
    }
    let ghost s0 = segs@;
    // the victim: the last segment with the most remaining, if above the threshold
    let mut best: Option<usize> = None;
    let mut best_rem: u64 = 0;
    let mut i: usize = 0;
    while i < segs.len()
        invariant
            segs@ == s0,
            steal_ready(s0),
            i <= segs.len(),
            match best {
                Some(b) => b < i && best_rem == rem0(s0[b as int]) && best_rem > STEAL_MIN_REMAINING
                    && (forall|j: int| 0 <= j < i ==> rem0(#[trigger] s0[j]) <= best_rem)
                    && (forall|j: int| b < j < i ==> rem0(#[trigger] s0[j]) < best_rem),
                None => forall|j: int| 0 <= j < i ==> rem0(#[trigger] s0[j]) <= STEAL_MIN_REMAINING,
            },
        decreases segs.len() - i,
    {
        let s = segs[i];
        assert(s == s0[i as int]);
        let rem = match s.remaining() {
            Some(x) => x,
            None => 0,
        };
        if rem > STEAL_MIN_REMAINING && (best.is_none() || rem >= best_rem) {
            best = Some(i);
            best_rem = rem;
        }
        i = i + 1;
    }
    let v = match best {
        Some(b) => b,
        None => return None,
    };
    assert(is_victim(s0, v as int));
    let victim = segs[v];
    let next = victim.next_offset();
    let end = victim.end;
    let remaining = best_rem;
    assert(end != UNKNOWN_END);
    let mid = next + remaining / 2;
    // the largest segment number
    let mut m: u32 = 0;
    let mut any = false;
    let mut k: usize = 0;
    while k < segs.len()
        invariant
            segs@ == s0,
            k <= segs.len(),
            any == (k > 0),
            any ==> m == max_idx(s0.take(k as int)),
        decreases segs.len() - k,
    {
        proof {
            assert(s0.take(k + 1).drop_last() =~= s0.take(k as int));
            assert(s0.take(k + 1).last() == s0[k as int]);
        }
        if !any || segs[k].idx > m {
            m = segs[k].idx;
        }
        any = true;
        k = k + 1;
        proof {
            if k == 1 {
                assert(max_idx(s0.take(0)) == -1) by {
                    assert(s0.take(0) =~= Seq::<SegmentRuntime>::empty());
                }
            }
        }
    }
    assert(s0.take(s0.len() as int) =~= s0);
    proof {
        lemma_max_idx_bounds(s0);
    }
    let fresh = SegmentRuntime::new(m + 1, mid, Some(end), 0);
    let shrunk = SegmentRuntime { end: mid - 1, ..victim };
    segs.set(v, shrunk);
    segs.push(fresh);
    Some(fresh)
}

// ---------------------------------------------------------------- progress

/// Sum of the bytes every segment reports.
pub open spec fn downloaded_sum(segs: Seq<SegmentState>) -> int
    decreases segs.len(),
{
    if segs.len() == 0 {
        0
    } else {
        downloaded_sum(segs.drop_last()) + segs.last().downloaded
    }
}

/// Bytes written, all segments.
pub fn total_downloaded(segs: &Vec<SegmentState>) -> (r: u64)
    requires
        downloaded_sum(segs@) <= u64::MAX,
    ensures
        r == downloaded_sum(segs@),
{
    let mut sum: u64 = 0;
    let mut i: usize = 0;
    while i < segs.len()
        invariant
            i <= segs.len(),
            downloaded_sum(segs@) <= u64::MAX,
            sum == downloaded_sum(segs@.take(i as int)),
        decreases segs.len() - i,
    {
        proof {
            assert(segs@.take(i + 1).drop_last() =~= segs@.take(i as int));
            lemma_downloaded_sum_prefix(segs@, i + 1);
        }
        sum = sum + segs[i].downloaded;
        i = i + 1;
    }
    assert(segs@.take(segs.len() as int) =~= segs@);
    sum
}

proof fn lemma_downloaded_sum_prefix(s: Seq<SegmentState>, n: int)
    requires
        0 <= n <= s.len(),
    ensures
        downloaded_sum(s.take(n)) <= downloaded_sum(s),
    decreases s.len() - n,
{
    if n < s.len() {
        lemma_downloaded_sum_prefix(s, n + 1);
        assert(s.take(n + 1).drop_last() =~= s.take(n));
    } else {
        assert(s.take(n) =~= s);
    }
}

/// Seconds left while downloading: 0 once every byte is in, the bytes left
/// over the speed rounded up, unknown without a total or a speed.
pub open spec fn eta_spec(total: Option<u64>, downloaded: u64, speed: u64) -> Option<u64> {
    match total {
        Some(t) => if t <= downloaded {
            Some(0)
        } else if speed > 0 {
            Some(((t - downloaded + speed - 1) / (speed as int)) as u64)
        } else {
            None
        },
        None => None,
    }
}

pub fn eta(total: Option<u64>, downloaded: u64, speed: u64) -> (r: Option<u64>)
    ensures
        r == eta_spec(total, downloaded, speed),
{
    match total {
        Some(t) => {
            if t <= downloaded {
                Some(0)
            } else if speed > 0 {
                let left = t - downloaded;
                let q = left / speed;
                let rem = left % speed;
                assert(rem > 0 ==> q < u64::MAX) by (nonlinear_arith)
                    requires
                        speed > 0,
                        q == left / speed,
                        rem == left % speed,
                        left <= u64::MAX;
                let v = if rem > 0 { q + 1 } else { q };
                assert(v == (left + speed - 1) / (speed as int)) by (nonlinear_arith)
                    requires
                        speed > 0,
                        q == left / speed,
                        rem == left % speed,
                        rem > 0 ==> v == q + 1,
                        rem == 0 ==> v == q,
                ;
                Some(v)
            } else {
                None
            }
        },
        None => None,
    }
}

/// Seconds left once the run has ended: 0 only when every byte is in.
pub fn final_eta(total: Option<u64>, downloaded: u64) -> (r: Option<u64>)
    ensures
        r == match total {
            Some(t) => if downloaded >= t { Some(0u64) } else { None },
            None => None,
        },
{
    match total {
        Some(t) => if downloaded >= t { Some(0) } else { None },
        None => None,
    }
}

// ---------------------------------------------------------------- the end of a run

/// Every byte is in: a plain stream of unknown length is complete when its
/// worker ended normally (and nothing failed); any other run when every
/// segment is done.
pub open spec fn all_done_spec(ranged: bool, total: Option<u64>, failed: bool, worker_ok: bool, snap: Seq<SegmentState>) -> bool {
    if !ranged && total is None {
        !failed && worker_ok
    } else {
        forall|i: int| 0 <= i < snap.len() ==> spec_remaining(#[trigger] snap[i]) == 0
    }
}

pub fn all_done(ranged: bool, total: Option<u64>, failed: bool, worker_ok: bool, snap: &Vec<SegmentState>) -> (r: bool)
    requires
        forall|i: int| 0 <= i < snap@.len() ==> (#[trigger] snap@[i]).end < u64::MAX && snap@[i].start + snap@[i].downloaded <= u64::MAX,
    ensures
        r == all_done_spec(ranged, total, failed, worker_ok, snap@),
{
    if !ranged && total.is_none() {
        return !failed && worker_ok;
    }
    let mut i: usize = 0;
    while i < snap.len()
        invariant
            !(!ranged && total is None),
            i <= snap.len(),
            forall|k: int| 0 <= k < snap@.len() ==> (#[trigger] snap@[k]).end < u64::MAX && snap@[k].start + snap@[k].downloaded <= u64::MAX,
            forall|k: int| 0 <= k < i ==> spec_remaining(#[trigger] snap@[k]) == 0,
        decreases snap.len() - i,
    {
        if !snap[i].is_done() {
            return false;
        }
        i = i + 1;
    }
    true
}

/// How a run ends once its workers have stopped.
#[derive(Clone, Copy, Debug, PartialEq, Eq, Structural)]
pub enum RunEnd {
    /// A worker failed: `Outcome::Failed` with that error.
    Failed,
    /// `cancel()` was asked for.
    Cancelled,
    /// Every byte is in: finish the file.
    Complete,
    /// `pause()` was asked for.
    Paused,
    /// The workers stopped with bytes missing.
    Incomplete,
}

/// A failure wins, then a cancel, then completion, then a pause.
pub open spec fn run_end_spec(failed: bool, stop: u8, all_done: bool) -> RunEnd {
    if failed {
        RunEnd::Failed
    } else if stop == STOP_CANCEL {
        RunEnd::Cancelled
    } else if all_done {
        RunEnd::Complete
    } else if stop == STOP_PAUSE {
        RunEnd::Paused
    } else {
        RunEnd::Incomplete
    }
}

pub fn run_end(failed: bool, stop: u8, all_done: bool) -> (r: RunEnd)
    ensures
        !failed && stop != STOP_CANCEL && all_done ==> r == RunEnd::Complete,
        r == run_end_spec(failed, stop, all_done),
{
    if failed {
        RunEnd::Failed
    } else if stop == STOP_CANCEL {
        RunEnd::Cancelled
    } else if all_done {
        RunEnd::Complete
    } else if stop == STOP_PAUSE {
        RunEnd::Paused
    } else {
        RunEnd::Incomplete
    }
}

/// How a run ends, from what happened: any failure makes it failed; else a
/// cancel makes it cancelled; else a run with every byte in completes,
/// whether or not a pause came too; else a pause makes it paused; and a run
/// that was neither stopped nor finished ended with bytes missing.
pub proof fn how_a_run_ends_follows_what_happened(failed: bool, stop: u8, all_done: bool)
    ensures
        failed ==> run_end_spec(failed, stop, all_done) == RunEnd::Failed,
        !failed && stop == STOP_CANCEL ==> run_end_spec(failed, stop, all_done) == RunEnd::Cancelled,
        !failed && stop != STOP_CANCEL && all_done ==> run_end_spec(failed, stop, all_done) == RunEnd::Complete,
        !failed && stop == STOP_PAUSE && !all_done ==> run_end_spec(failed, stop, all_done) == RunEnd::Paused,
        !failed && stop != STOP_CANCEL && stop != STOP_PAUSE && !all_done ==> run_end_spec(failed, stop, all_done)
            == RunEnd::Incomplete,
        run_end_spec(failed, stop, all_done) == RunEnd::Complete ==> !failed && stop != STOP_CANCEL && all_done,
{
}

/// A run that is not heading for completion fsyncs once more before it
/// reports, so a Paused / Failed outcome is durable.
pub fn needs_final_sync(failed: bool, stop: u8, all_done: bool) -> (r: bool)
    ensures
        r == (failed || stop != STOP_NONE || !all_done),
{
    failed || stop != STOP_NONE || !all_done
}

/// The status a finished run reports.
pub open spec fn status_of_spec(o: &Outcome) -> Status {
    match o {
        Outcome::Completed(_) => Status::Completed,
        Outcome::Paused(_) => Status::Paused,
        Outcome::Failed { .. } => Status::Failed,
        Outcome::Cancelled => Status::Cancelled,
    }
}

pub fn status_of(o: &Outcome) -> (r: Status)
    ensures
        r == status_of_spec(o),
{
    match o {
        Outcome::Completed(_) => Status::Completed,
        Outcome::Paused(_) => Status::Paused,
        Outcome::Failed { .. } => Status::Failed,
        Outcome::Cancelled => Status::Cancelled,
    }
}

/// Dropping a handle pauses its download, unless a stop was already asked
/// for (a `cancel()` just before the drop still reports Cancelled).
pub fn stop_on_drop(current: u8) -> (r: u8)
    ensures
        current == STOP_NONE ==> r == STOP_PAUSE,
        current != STOP_NONE ==> r == current,
{
    if current == STOP_NONE { STOP_PAUSE } else { current }
}

// ---------------------------------------------------------------- worker events

/// How one segment worker of a run ended.
#[derive(Debug)]
pub enum WorkerEnd {
    /// Its range is written (or its stream ended normally).
    Done,
    /// It stopped because the run is stopping.
    Cancelled,
    /// It failed for good.
    Failed(EngineError),
    /// Its task panicked.
    Panicked,
}

/// What a run does after one of its workers ended.
#[derive(Clone, Copy, Debug, PartialEq, Eq, Structural)]
pub enum WorkerAction {
    /// Start a worker on the second half of the largest remaining range.
    Steal,
    /// Stop every other worker: the run has failed.
    StopAll,
    /// Nothing.
    Nothing,
}

/// What a run has learnt from its ended workers: its first failure, and
/// whether any worker finished.
#[derive(Debug)]
pub struct RunTally {
    /// The first permanent failure, which decides the outcome.
    pub failure: Option<EngineError>,
    /// Some worker returned normally (for a stream of unknown length, the
    /// only sign that the body is complete).
    pub worker_ok: bool,
}

impl RunTally {
    /// Nothing learnt yet.
    pub fn new() -> (t: RunTally)
        ensures
            t.failure is None,
            !t.worker_ok,
    {
        RunTally { failure: None, worker_ok: false }
    }
}

/// Record how a worker ended. The first failure (a panic counts as an
/// internal one) is kept and stops the run; later failures change nothing.
/// A worker that finished steals more work, unless the run has failed or is
/// stopping. A cancelled worker changes nothing.
pub fn on_worker_end(tally: &mut RunTally, end: WorkerEnd, stopping: bool) -> (a: WorkerAction)
    ensures
        end is Done ==> final(tally).worker_ok && final(tally).failure == old(tally).failure && a == (
        if old(tally).failure is None && !stopping {
            WorkerAction::Steal
        } else {
            WorkerAction::Nothing
        }),
        end is Cancelled ==> *final(tally) == *old(tally) && a == WorkerAction::Nothing,
        (end is Failed || end is Panicked) && old(tally).failure is Some ==> *final(tally)
            == *old(tally) && a == WorkerAction::Nothing,
        end is Failed && old(tally).failure is None ==> final(tally).failure == Some(end->Failed_0)
            && final(tally).worker_ok == old(tally).worker_ok && a == WorkerAction::StopAll,
        end is Panicked && old(tally).failure is None ==> final(tally).failure is Some
            && final(tally).failure->0 is Internal
            && final(tally).failure->0->Internal_0@ == "worker panicked"@
            && final(tally).worker_ok == old(tally).worker_ok && a == WorkerAction::StopAll,
{
    match end {
        WorkerEnd::Done => {
            tally.worker_ok = true;
            if tally.failure.is_none() && !stopping {
                WorkerAction::Steal
            } else {
                WorkerAction::Nothing
            }
        },
        WorkerEnd::Cancelled => WorkerAction::Nothing,
        WorkerEnd::Failed(e) => {
            if tally.failure.is_none() {
                tally.failure = Some(e);
                WorkerAction::StopAll
            } else {
                WorkerAction::Nothing
            }
        },
        WorkerEnd::Panicked => {
            if tally.failure.is_none() {
                tally.failure = Some(EngineError::Internal(String::from_str("worker panicked")));
                proof {
                    reveal_strlit("worker panicked");
                }
                WorkerAction::StopAll
            } else {
                WorkerAction::Nothing
            }
        },
    }
}

/// What a run reports, given how it ended: the failure with the durable
/// segments; cancelled; the final path, or the failure to finish the file
/// with the durable segments; paused with the durable segments; or, when
/// the workers stopped with bytes missing, an internal failure.
pub fn outcome_of(
    end: RunEnd,
    failure: Option<EngineError>,
    finished: Option<Result<String, EngineError>>,
    durable: Vec<SegmentState>,
) -> (o: Outcome)
    requires
        end == RunEnd::Failed ==> failure is Some,
        end == RunEnd::Complete ==> finished is Some,
    ensures
        end == RunEnd::Failed ==> o == (Outcome::Failed { error: failure->0, segments: durable }),
        end == RunEnd::Cancelled ==> o == Outcome::Cancelled,
        end == RunEnd::Complete ==> match finished->0 {
            Ok(path) => o == Outcome::Completed(path),
            Err(e) => o == (Outcome::Failed { error: e, segments: durable }),
        },
        end == RunEnd::Paused ==> o == Outcome::Paused(durable),
        end == RunEnd::Incomplete ==> o is Failed && o->error is Internal && o->error->Internal_0@
            == "workers ended with bytes missing"@ && o->segments == durable,
{
    match end {
        RunEnd::Failed => match failure {
            Some(error) => Outcome::Failed { error, segments: durable },
            None => Outcome::Cancelled,
        },
        RunEnd::Cancelled => Outcome::Cancelled,
        RunEnd::Complete => match finished {
            Some(Ok(path)) => Outcome::Completed(path),
            Some(Err(error)) => Outcome::Failed { error, segments: durable },
            None => Outcome::Cancelled,
        },
        RunEnd::Paused => Outcome::Paused(durable),
        RunEnd::Incomplete => {
            proof {
                reveal_strlit("workers ended with bytes missing");
            }
            Outcome::Failed {
                error: EngineError::Internal(String::from_str("workers ended with bytes missing")),
                segments: durable,
            }
        },
    }
}

/// The last progress a run publishes: nothing is fetched any more, so the
/// speed is 0 and the only estimate is "no time left" once every byte is
/// in; a completed file is durable whole, any other end only as far as the
/// last fsync.
pub fn final_progress(
    o: &Outcome,
    total: Option<u64>,
    downloaded: u64,
    segments: Vec<SegmentState>,
    durable: Vec<SegmentState>,
) -> (p: Progress)
    ensures
        p.total == total,
        p.downloaded == downloaded,
        p.speed_bps == 0,
        p.eta_secs == (match total {
            Some(t) => if downloaded >= t { Some(0u64) } else { None },
            None => None,
        }),
        p.segments@ == segments@,
        p.durable_segments@ == (if o is Completed { segments@ } else { durable@ }),
        p.status == status_of_spec(o),
{
    let durable_segments = match o {
        Outcome::Completed(_) => copy_segments(&segments),
        _ => durable,
    };
    Progress {
        total,
        downloaded,
        speed_bps: 0,
        eta_secs: final_eta(total, downloaded),
        segments,
        durable_segments,
        status: status_of(o),
    }
}

fn copy_segments(segs: &Vec<SegmentState>) -> (r: Vec<SegmentState>)
    ensures
        r@ == segs@,
{
    let mut r: Vec<SegmentState> = Vec::new();
    let mut i: usize = 0;
    while i < segs.len()
        invariant
            i <= segs.len(),
            r@ == segs@.take(i as int),
        decreases segs.len() - i,
    {
        r.push(segs[i]);
        proof {
            assert(segs@.take(i + 1) =~= segs@.take(i as int).push(segs@[i as int]));
        }
        i = i + 1;
    }
    assert(segs@.take(segs.len() as int) =~= segs@);
    r
}

// ---------------------------------------------------------------- speed

/// Samples older than this (2 s, in nanoseconds) leave the speed window.
pub const SPEED_WINDOW_NS: u64 = 2_000_000_000;
/// A window shorter than this (50 ms) reports no speed yet.
pub const SPEED_MIN_SPAN_NS: u64 = 50_000_000;

/// Bytes per second over the last two seconds, from (time, bytes) samples.
pub struct SpeedMeter {
    samples: VecDeque<(u64, u64)>,
}

/// A sample taken at `t` is outside the window that ends at `now`.
pub open spec fn stale(t: u64, now: u64) -> bool {
    now - t > SPEED_WINDOW_NS
}

/// The samples `push` keeps of `all` (the old ones and the new last one):
/// the oldest are dropped while more than two remain and the oldest is
/// older than the window. `kept` is what remains of `all` after the first
/// `all.len() - kept.len()`, every dropped one was stale, dropping never
/// went below two, and it stopped at a sample inside the window or at two.
pub open spec fn window_kept(all: Seq<(u64, u64)>, now: u64, kept: Seq<(u64, u64)>) -> bool {
    let d = all.len() - kept.len();
    &&& kept.len() <= all.len()
    &&& kept == all.skip(d)
    &&& forall|i: int| 0 <= i < d ==> stale((#[trigger] all[i]).0, now)
    &&& (d > 0 ==> kept.len() >= 2)
    &&& (kept.len() <= 2 || !stale(kept[0].0, now))
}

/// Bytes per second between the oldest kept sample `first` and `now`:
/// nothing under 50 ms, no negative progress, capped at `u64::MAX`.
pub open spec fn speed_since(first: (u64, u64), now: u64, downloaded: u64) -> u64 {
    let (t0, b0) = first;
    let dt = now - t0;
    if dt < SPEED_MIN_SPAN_NS {
        0
    } else {
        let delta: int = if downloaded > b0 { downloaded - b0 } else { 0 };
        let v = delta * 1_000_000_000 / dt;
        if v > u64::MAX { u64::MAX } else { v as u64 }
    }
}

impl SpeedMeter {
    /// The samples, oldest first.
    pub closed spec fn samples(&self) -> Seq<(u64, u64)> {
        self.samples@
    }

    /// Sample times never go backwards.
    pub open spec fn well_formed(&self) -> bool {
        forall|i: int, j: int| 0 <= i <= j < self.samples().len() ==> (#[trigger] self.samples()[i]).0 <= (#[trigger] self.samples()[j]).0
    }

    pub fn new() -> (m: SpeedMeter)
        ensures
            m.samples().len() == 0,
            m.well_formed(),
    {
        SpeedMeter { samples: VecDeque::new() }
    }

    /// Record `downloaded` at `now_ns`; return bytes per second over the
    /// window, measured from the oldest sample kept.
    pub fn push(&mut self, now_ns: u64, downloaded: u64) -> (r: u64)
        requires
            old(self).well_formed(),
            forall|i: int| 0 <= i < old(self).samples().len() ==> (#[trigger] old(self).samples()[i]).0 <= now_ns,
        ensures
            final(self).well_formed(),
            window_kept(old(self).samples().push((now_ns, downloaded)), now_ns, final(self).samples()),
            final(self).samples().len() >= 1,
            final(self).samples().last() == (now_ns, downloaded),
            r == speed_since(final(self).samples()[0], now_ns, downloaded),
    {
        broadcast use vstd::std_specs::vecdeque::group_vec_dequeue_axioms;
        let ghost all = old(self).samples().push((now_ns, downloaded));
        self.samples.push_back((now_ns, downloaded));
        assert(self.samples() =~= all);
        assert forall|i: int, j: int| 0 <= i <= j < self.samples().len() implies (#[trigger] self.samples()[i]).0 <= (#[trigger] self.samples()[j]).0 by {
            if j < all.len() - 1 {
                assert(self.samples()[i] == old(self).samples()[i]);
                assert(self.samples()[j] == old(self).samples()[j]);
            } else if i < all.len() - 1 {
                assert(self.samples()[i] == old(self).samples()[i]);
            }
        }
        assert forall|i: int| 0 <= i < self.samples().len() implies (#[trigger] self.samples()[i]).0 <= now_ns by {
            if i < all.len() - 1 {
                assert(self.samples()[i] == old(self).samples()[i]);
            }
        }
        assert(all.skip(0) =~= all);
        while self.samples.len() > 2 && now_ns - self.samples[0].0 > SPEED_WINDOW_NS
            invariant
                self.well_formed(),
                self.samples().len() >= 1,
                self.samples().len() <= all.len(),
                self.samples() == all.skip(all.len() - self.samples().len()),
                forall|i: int| 0 <= i < all.len() - self.samples().len() ==> stale((#[trigger] all[i]).0, now_ns),
                all.len() - self.samples().len() > 0 ==> self.samples().len() >= 2,
                self.samples().last() == (now_ns, downloaded),
                forall|i: int| 0 <= i < self.samples().len() ==> (#[trigger] self.samples()[i]).0 <= now_ns,
            decreases self.samples.len(),
        {
            let ghost before = self.samples@;
            let ghost d = all.len() - before.len();
            let _ = self.samples.pop_front();
            assert(self.samples@ =~= before.drop_first());
            assert(self.samples() =~= all.skip(d + 1));
            assert(all[d] == before[0]);
            assert forall|i: int, j: int| 0 <= i <= j < self.samples().len() implies (#[trigger] self.samples()[i]).0 <= (#[trigger] self.samples()[j]).0 by {
                assert(self.samples()[i] == before[i + 1]);
                assert(self.samples()[j] == before[j + 1]);
            }
        }
        let (t0, b0) = self.samples[0];
        let dt = now_ns - t0;
        if dt < SPEED_MIN_SPAN_NS {
            return 0;
        }
        let delta: u64 = if downloaded > b0 { downloaded - b0 } else { 0 };
        assert((delta as u128) * 1_000_000_000u128 <= u128::MAX) by (nonlinear_arith)
            requires delta <= u64::MAX;
        let speed: u128 = (delta as u128) * 1_000_000_000u128 / (dt as u128);
        if speed > u64::MAX as u128 { u64::MAX } else { speed as u64 }
    }
}

} // verus!
