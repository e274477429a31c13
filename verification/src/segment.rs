//! One connection fetching one byte range: the retry budget, the live
//! counters of a segment, and the checks an attempt makes on what the server
//! sends. The network and file I/O around them is the caller's.
use vstd::prelude::*;

use crate::error::{transient, EngineError};
use crate::plan::SegmentState;
use crate::text::{
    chars_of, concat, decimal, decimal_string, lead_count, lemma_lead_count_bounds,
    lemma_lead_count_unique, parse_u64_range, parse_u64_spec,
};

verus! {

/// Attempts in a row without progress before the segment fails.
pub const RETRY_MAX_ATTEMPTS: u32 = 10;

/// Longest backoff between attempts, in milliseconds (60 s).
pub const RETRY_CAP_MS: u64 = 60000;

/// `end` of a single-stream segment until the stream tells us.
pub const UNKNOWN_END: u64 = 0xffff_ffff_ffff_ffff;

/// `2^k`.
pub open spec fn pow2(k: nat) -> nat
    decreases k,
{
    if k == 0 {
        1
    } else {
        2 * pow2((k - 1) as nat)
    }
}

proof fn lemma_pow2_le(i: nat, j: nat)
    requires
        i <= j,
    ensures
        pow2(i) <= pow2(j),
    decreases j,
{
    if i < j {
        lemma_pow2_le(i, (j - 1) as nat);
    }
}

/// The wait before the next attempt after the `n`-th failure in a row
/// without progress: `base * 2^(n-1)` (the exponent capped at 20), never
/// more than [`RETRY_CAP_MS`].
pub open spec fn backoff(base: u64, n: nat) -> u64 {
    let k: nat = if n - 1 < 20 { (n - 1) as nat } else { 20 };
    let d = base * pow2(k);
    if d < RETRY_CAP_MS { d as u64 } else { RETRY_CAP_MS }
}

/// One more failure in a row, as the budget counts it (it stops at `u32::MAX`).
pub open spec fn counted(n: nat) -> nat {
    if n < u32::MAX { n + 1 } else { n }
}

/// The owner's retry rule: only attempts in a row that wrote nothing count;
/// a progressing attempt resets the count and the backoff.
#[derive(Debug, Default)]
pub struct RetryBudget {
    no_progress: u32,
}

impl RetryBudget {
    /// Failures in a row that wrote nothing (the count stops at `u32::MAX`,
    /// far past [`RETRY_MAX_ATTEMPTS`]).
    pub closed spec fn failures_in_a_row(&self) -> nat {
        self.no_progress as nat
    }

    /// A fresh budget.
    pub fn new() -> (b: RetryBudget)
        ensures
            b.failures_in_a_row() == 0,
    {
        RetryBudget { no_progress: 0 }
    }

    /// A transient failure happened after writing `wrote` bytes. Returns the
    /// delay in milliseconds before the next attempt, or `None` when the
    /// budget is spent.
    pub fn on_failure(&mut self, wrote: u64, base_ms: u64) -> (r: Option<u64>)
        ensures
            wrote > 0 ==> final(self).failures_in_a_row() == 0 && r == Some(
                if base_ms < RETRY_CAP_MS { base_ms } else { RETRY_CAP_MS },
            ),
            wrote == 0 ==> final(self).failures_in_a_row() == counted(old(self).failures_in_a_row()),
            wrote == 0 && final(self).failures_in_a_row() >= RETRY_MAX_ATTEMPTS ==> r is None,
            wrote == 0 && final(self).failures_in_a_row() < RETRY_MAX_ATTEMPTS ==> r == Some(
                backoff(base_ms, final(self).failures_in_a_row()),
            ),
    {
        if wrote > 0 {
            self.no_progress = 0;
            return Some(if base_ms < RETRY_CAP_MS { base_ms } else { RETRY_CAP_MS });
        }
        if self.no_progress < u32::MAX {
            self.no_progress = self.no_progress + 1;
        }
        if self.no_progress >= RETRY_MAX_ATTEMPTS {
            return None;
        }
        let shift: u32 = if self.no_progress - 1 < 20 { self.no_progress - 1 } else { 20 };
        let mut mult: u64 = 1;
        let mut i: u32 = 0;
        while i < shift
            invariant
                i <= shift <= 20,
                mult as nat == pow2(i as nat),
            decreases shift - i,
        {
            proof {
                lemma_pow2_le((i + 1) as nat, 20);
                assert(pow2(20) == 0x100000) by {
                    reveal_with_fuel(pow2, 21);
                }
            }
            mult = mult * 2;
            i = i + 1;
        }
        let d: u64 = match base_ms.checked_mul(mult) {
            Some(x) => x,
            None => u64::MAX,
        };
        Some(if d < RETRY_CAP_MS { d } else { RETRY_CAP_MS })
    }
}

/// Live counters for one segment. `end` is inclusive; [`UNKNOWN_END`] for a
/// single stream whose length is not known. A stealer may lower `end`, never
/// below `next_offset()`.
#[derive(Clone, Copy, Debug, PartialEq, Eq, Structural)]
pub struct SegmentRuntime {
    /// Position in the plan.
    pub idx: u32,
    /// First byte.
    pub start: u64,
    /// Last byte, inclusive, or [`UNKNOWN_END`].
    pub end: u64,
    /// Bytes written so far, from `start`.
    pub downloaded: u64,
}

/// What `SegmentRuntime::snapshot` reports for a runtime.
pub open spec fn snapshot_of(s: SegmentRuntime) -> SegmentState {
    let end: int = if s.end == UNKNOWN_END {
        let last = s.start + s.downloaded - 1;
        if last > s.start { last } else { s.start as int }
    } else {
        s.end as int
    };
    let room = end + 1 - s.start;
    let room = if room > 0 { room } else { 0 };
    SegmentState {
        idx: s.idx,
        start: s.start,
        end: end as u64,
        downloaded: if s.downloaded < room { s.downloaded } else { room as u64 },
    }
}

/// Bytes still to fetch, `None` when the end is unknown.
pub open spec fn runtime_remaining(s: SegmentRuntime) -> Option<u64> {
    if s.end == UNKNOWN_END {
        None
    } else {
        let r = s.end + 1 - (s.start + s.downloaded);
        Some(if r > 0 { r as u64 } else { 0 })
    }
}

impl SegmentRuntime {
    /// New runtime; `end = None` means single stream.
    pub fn new(idx: u32, start: u64, end: Option<u64>, downloaded: u64) -> (r: SegmentRuntime)
        ensures
            r == (SegmentRuntime {
                idx,
                start,
                end: match end {
                    Some(e) => e,
                    None => UNKNOWN_END,
                },
                downloaded,
            }),
    {
        SegmentRuntime {
            idx,
            start,
            end: match end {
                Some(e) => e,
                None => UNKNOWN_END,
            },
            downloaded,
        }
    }

    /// From a stored state.
    pub fn from_state(s: &SegmentState) -> (r: SegmentRuntime)
        ensures
            r == (SegmentRuntime { idx: s.idx, start: s.start, end: s.end, downloaded: s.downloaded }),
    {
        SegmentRuntime::new(s.idx, s.start, Some(s.end), s.downloaded)
    }

    /// A copy safe to persist. `downloaded` is clamped to the (possibly shrunk) range.
    pub fn snapshot(&self) -> (r: SegmentState)
        requires
            self.start + self.downloaded <= u64::MAX,
            self.end == UNKNOWN_END ==> self.start < u64::MAX,
        ensures
            r == snapshot_of(*self),
    {
        let end = if self.end == UNKNOWN_END {
            let next = self.start + self.downloaded;
            let last = if next > 0 { next - 1 } else { 0 };
            if last > self.start { last } else { self.start }
        } else {
            self.end
        };
        let room = if end + 1 > self.start { end + 1 - self.start } else { 0 };
        let downloaded = if self.downloaded < room { self.downloaded } else { room };
        SegmentState { idx: self.idx, start: self.start, end, downloaded }
    }

    /// Absolute offset of the next byte to fetch.
    pub fn next_offset(&self) -> (r: u64)
        requires
            self.start + self.downloaded <= u64::MAX,
        ensures
            r == self.start + self.downloaded,
    {
        self.start + self.downloaded
    }

    /// Bytes still to fetch; `None` when the end is unknown.
    pub fn remaining(&self) -> (r: Option<u64>)
        requires
            self.start + self.downloaded <= u64::MAX,
        ensures
            r == runtime_remaining(*self),
    {
        if self.end == UNKNOWN_END {
            None
        } else {
            let next = self.start + self.downloaded;
            Some(if self.end + 1 > next { self.end + 1 - next } else { 0 })
        }
    }

    /// True once the range is fully written.
    pub fn is_done(&self) -> (b: bool)
        requires
            self.start + self.downloaded <= u64::MAX,
        ensures
            b == (runtime_remaining(*self) == Some(0u64)),
    {
        self.remaining() == Some(0u64)
    }

    /// Where an attempt starts: `(offset of the first byte to ask for, end)`,
    /// or `None` when a ranged segment has nothing left. A single stream
    /// (`ranged == false`) always answers from byte 0, so it restarts from
    /// the beginning and its progress is reset.
    pub fn begin_attempt(&mut self, ranged: bool) -> (r: Option<(u64, u64)>)
        requires
            old(self).start + old(self).downloaded <= u64::MAX,
        ensures
            ranged ==> *final(self) == *old(self),
            !ranged ==> *final(self) == (SegmentRuntime { downloaded: 0, ..*old(self) }),
            ranged && old(self).end != UNKNOWN_END && old(self).start + old(self).downloaded
                > old(self).end ==> r is None,
            ranged && !(old(self).end != UNKNOWN_END && old(self).start + old(self).downloaded
                > old(self).end) ==> r == Some(
                ((old(self).start + old(self).downloaded) as u64, old(self).end),
            ),
            !ranged ==> r == Some((old(self).start, old(self).end)),
    {
        let next = if ranged {
            self.start + self.downloaded
        } else {
            self.downloaded = 0;
            self.start
        };
        let end = self.end;
        if ranged && end != UNKNOWN_END && next > end {
            return None;
        }
        Some((next, end))
    }

    /// How many bytes of a `len`-byte chunk arriving at `pos` still belong
    /// to this segment (a stealer may have lowered `end`).
    pub fn usable_len(&self, pos: u64, len: usize) -> (r: usize)
        ensures
            self.end == UNKNOWN_END ==> r == len,
            self.end != UNKNOWN_END ==> r == (if len as int <= self.end + 1 - pos { len as int } else if self.end + 1 - pos > 0 { self.end + 1 - pos } else { 0 }),
    {
        if self.end == UNKNOWN_END {
            return len;
        }
        let room: u128 = if self.end as u128 + 1 > pos as u128 { self.end as u128 + 1 - pos as u128 } else { 0 };
        if (len as u128) > room {
            room as usize
        } else {
            len
        }
    }

    /// Record that bytes up to (not including) `pos` are written.
    pub fn written_to(&mut self, pos: u64)
        requires
            old(self).start <= pos,
        ensures
            *final(self) == (SegmentRuntime { downloaded: (pos - old(self).start) as u64, ..*old(self) }),
    {
        self.downloaded = pos - self.start;
    }

    /// The body ended normally with the next byte at `pos`: a single stream
    /// learns its end; a ranged one that stopped short of `end` failed.
    pub fn end_attempt(&mut self, pos: u64) -> (r: Result<(), EngineError>)
        ensures
            old(self).end == UNKNOWN_END ==> r is Ok && *final(self) == (SegmentRuntime {
                end: (if pos - 1 > old(self).start { pos - 1 } else { old(self).start as int }) as u64,
                ..*old(self)
            }),
            old(self).end != UNKNOWN_END ==> *final(self) == *old(self),
            old(self).end != UNKNOWN_END && pos <= old(self).end ==> r is Err && r->Err_0 is Network,
            old(self).end != UNKNOWN_END && pos > old(self).end ==> r is Ok,
    {
        if self.end == UNKNOWN_END {
            let last = if pos > 0 { pos - 1 } else { 0 };
            self.end = if last > self.start { last } else { self.start };
            return Ok(());
        }
        if pos <= self.end {
            let a = decimal_string(pos);
            let b = decimal_string(self.end);
            let m1 = concat("connection closed at ", a.as_str());
            let m2 = concat(m1.as_str(), ", wanted ");
            let m3 = concat(m2.as_str(), b.as_str());
            return Err(EngineError::Network(m3));
        }
        Ok(())
    }
}

/// The `Range` header value asking for `next..=end`.
pub open spec fn range_value(next: u64, end: u64) -> Seq<char> {
    "bytes="@ + decimal(next as nat) + "-"@ + decimal(end as nat)
}

/// `bytes={next}-{end}`.
pub fn range_header(next: u64, end: u64) -> (r: String)
    ensures
        r@ == range_value(next, end),
{
    let a = decimal_string(next);
    let b = decimal_string(end);
    let s1 = concat("bytes=", a.as_str());
    let s2 = concat(s1.as_str(), "-");
    concat(s2.as_str(), b.as_str())
}

/// The first byte a `Content-Range: bytes <a>-<b>/<n>` value announces: the
/// text after `bytes ` up to the first `-`, as a `u64`.
pub open spec fn content_range_start(v: Seq<char>) -> Option<u64> {
    let prefix = "bytes "@;
    if v.len() >= prefix.len() && v.subrange(0, prefix.len() as int) == prefix {
        let rest = v.subrange(prefix.len() as int, v.len() as int);
        let n = lead_count(rest, |c: char| c != '-');
        parse_u64_spec(rest.subrange(0, n))
    } else {
        None
    }
}

/// Parse the start offset of a `Content-Range` value.
pub fn parse_content_range_start(v: &str) -> (r: Option<u64>)
    ensures
        r == content_range_start(v@),
{
    let cs = chars_of(v);
    let prefix = chars_of("bytes ");
    proof {
        reveal_strlit("bytes ");
        assert("bytes "@.len() == 6);
    }
    if cs.len() < 6 {
        return None;
    }
    let mut i: usize = 0;
    while i < 6
        invariant
            cs@ == v@,
            cs.len() >= 6,
            prefix@ == "bytes "@,
            prefix@.len() == 6,
            i <= 6,
            forall|k: int| 0 <= k < i ==> cs@[k] == prefix@[k],
        decreases 6 - i,
    {
        if cs[i] != prefix[i] {
            assert(cs@.subrange(0, 6)[i as int] != prefix@[i as int]);
            assert(cs@.subrange(0, 6) != "bytes "@);
            return None;
        }
        i = i + 1;
    }
    assert(cs@.subrange(0, 6) =~= prefix@);
    let ghost rest = cs@.subrange(6, cs@.len() as int);
    let ghost p = |c: char| c != '-';
    let mut j: usize = 6;
    while j < cs.len() && cs[j] != '-'
        invariant
            cs@ == v@,
            6 <= j <= cs.len(),
            rest == cs@.subrange(6, cs@.len() as int),
            forall|k: int| 6 <= k < j ==> cs@[k] != '-',
        decreases cs.len() - j,
    {
        j = j + 1;
    }
    proof {
        assert forall|k: int| 0 <= k < j - 6 implies p(#[trigger] rest[k]) by {
            assert(rest[k] == cs@[k + 6]);
        }
        if j < cs.len() {
            assert(rest[j - 6] == cs@[j as int]);
        }
        lemma_lead_count_unique(rest, p, j - 6);
        assert(rest.subrange(0, j - 6) =~= cs@.subrange(6, j as int));
    }
    parse_u64_range(&cs, 6, j)
}

/// What a ranged or plain answer must look like before its body is written:
/// a ranged request needs `206 Partial Content` starting exactly at `next`
/// (another success status means ranges stopped working); a plain one needs
/// any success.
pub open spec fn response_check(ranged: bool, status: u16, content_range: Option<Seq<char>>, next: u64, r: Result<(), EngineError>) -> bool {
    if ranged {
        if status != 206 {
            if 200 <= status <= 299 {
                r == Err::<(), EngineError>(EngineError::RangeNotSupported)
            } else {
                r == Err::<(), EngineError>(EngineError::HttpStatus { status })
            }
        } else {
            let starts_at = match content_range {
                Some(v) => content_range_start(v),
                None => None,
            };
            if starts_at == Some(next) {
                r is Ok
            } else {
                r is Err && r->Err_0 is Network
            }
        }
    } else if 200 <= status <= 299 {
        r is Ok
    } else {
        r == Err::<(), EngineError>(EngineError::HttpStatus { status })
    }
}

/// Check a response's status (and `Content-Range` for a ranged request).
pub fn check_response(ranged: bool, status: u16, content_range: Option<&str>, next: u64) -> (r:
    Result<(), EngineError>)
    ensures
        response_check(
            ranged,
            status,
            match content_range {
                Some(v) => Some(v@),
                None => None,
            },
            next,
            r,
        ),
{
    let success = 200 <= status && status <= 299;
    if ranged {
        if status != 206 {
            return Err(
                if success {
                    EngineError::RangeNotSupported
                } else {
                    EngineError::HttpStatus { status }
                },
            );
        }
        let starts_at = match content_range {
            Some(v) => parse_content_range_start(v),
            None => None,
        };
        if starts_at != Some(next) {
            let want = decimal_string(next);
            let got = match starts_at {
                Some(n) => {
                    let m = concat("Some(", decimal_string(n).as_str());
                    concat(m.as_str(), ")")
                },
                None => String::from_str("None"),
            };
            let m1 = concat("Content-Range starts at ", got.as_str());
            let m2 = concat(m1.as_str(), ", wanted ");
            let m3 = concat(m2.as_str(), want.as_str());
            return Err(EngineError::Network(m3));
        }
        Ok(())
    } else if !success {
        Err(EngineError::HttpStatus { status })
    } else {
        Ok(())
    }
}

/// After a failed attempt: how long to wait before the next one, or `None`
/// to give up. A permanent error gives up at once; a transient one spends
/// the budget.
pub fn retry_after(budget: &mut RetryBudget, e: &EngineError, wrote: u64, base_ms: u64) -> (r:
    Option<u64>)
    ensures
        !transient(e) ==> r is None && *final(budget) == *old(budget),
        transient(e) && wrote > 0 ==> final(budget).failures_in_a_row() == 0 && r == Some(
            if base_ms < RETRY_CAP_MS { base_ms } else { RETRY_CAP_MS },
        ),
        transient(e) && wrote == 0 ==> final(budget).failures_in_a_row() == counted(old(budget).failures_in_a_row()),
        transient(e) && wrote == 0 && final(budget).failures_in_a_row() >= RETRY_MAX_ATTEMPTS ==> r is None,
        transient(e) && wrote == 0 && final(budget).failures_in_a_row() < RETRY_MAX_ATTEMPTS ==> r
            == Some(backoff(base_ms, final(budget).failures_in_a_row())),
{
    if !e.is_transient() {
        return None;
    }
    budget.on_failure(wrote, base_ms)
}

/// The backoff starts at the base delay, doubles with every further failure
/// in a row, and never exceeds [`RETRY_CAP_MS`].
pub proof fn backoff_doubles_and_caps(base: u64, n: nat)
    requires
        1 <= n < 20,
    ensures
        backoff(base, 1) == if base < RETRY_CAP_MS { base } else { RETRY_CAP_MS },
        backoff(base, n + 1) == if 2 * (base * pow2((n - 1) as nat)) < RETRY_CAP_MS {
            2 * (base * pow2((n - 1) as nat))
        } else {
            RETRY_CAP_MS as int
        },
        backoff(base, n) <= backoff(base, n + 1),
        backoff(base, n) <= RETRY_CAP_MS,
{
    assert(pow2(0) == 1);
    assert(base * pow2(0) == base);
    assert(pow2(n) == 2 * pow2((n - 1) as nat));
    assert(base * pow2(n) == 2 * (base * pow2((n - 1) as nat))) by (nonlinear_arith)
        requires pow2(n) == 2 * pow2((n - 1) as nat);
    assert(base * pow2((n - 1) as nat) >= 0) by (nonlinear_arith);
}

/// A snapshot never claims more bytes than its (possibly shrunk) range, and
/// keeps the segment's number and first byte.
pub proof fn snapshot_stays_in_range(s: SegmentRuntime)
    requires
        s.start + s.downloaded <= u64::MAX,
    ensures
        snapshot_of(s).idx == s.idx,
        snapshot_of(s).start == s.start,
        snapshot_of(s).downloaded <= s.downloaded,
        snapshot_of(s).end >= s.start ==> snapshot_of(s).downloaded <= snapshot_of(s).end - s.start + 1,
        s.end == UNKNOWN_END ==> snapshot_of(s).end >= s.start,
{
}

} // verus!
