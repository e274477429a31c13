//! The download queue's rules: which signal wins over another, what each
//! action does to a row that is not running, what a running download does
//! when it stops, which part files a fresh start must leave alone. The
//! tasks, channels and locks that apply them are the caller's.
use vstd::prelude::*;

use crate::core_error::CoreError;
use crate::download::{Resume, Status};
use crate::error::{io_is_not_found, EngineError};
use crate::file::{join_path, part_path, part_path_spec, path_joined};
use crate::model::{status_text, DownloadId, DownloadRow, DownloadStatus, NewDownload};
use crate::plan::SegmentState;
use crate::request::{Cookie, RequestExtras};
use crate::store::{id_in, id_listed};
use crate::text::{chars_of, concat, slice_chars, string_of, trim_bounds, trim_ws};
use crate::urls::{is_web_scheme, parse_url, url_parsed, web_scheme};

verus! {

/// No signal.
pub const INTENT_NONE: u8 = 0;
/// Pause.
pub const INTENT_PAUSE: u8 = 1;
/// Cancel: stop and delete the partial data.
pub const INTENT_CANCEL: u8 = 2;
/// Remove from the list.
pub const INTENT_REMOVE: u8 = 3;
/// Paused because the app is closing: the row goes back to QUEUED so the
/// download continues at the next launch.
pub const INTENT_SHUTDOWN: u8 = 4;

/// How strongly an intent wins: REMOVE beats CANCEL beats SHUTDOWN beats
/// PAUSE beats NONE.
pub open spec fn rank_of(intent: u8) -> u8 {
    if intent == INTENT_REMOVE {
        4
    } else if intent == INTENT_CANCEL {
        3
    } else if intent == INTENT_SHUTDOWN {
        2
    } else if intent == INTENT_PAUSE {
        1
    } else {
        0
    }
}

pub fn rank(intent: u8) -> (r: u8)
    ensures
        r == rank_of(intent),
{
    if intent == INTENT_REMOVE {
        4
    } else if intent == INTENT_CANCEL {
        3
    } else if intent == INTENT_SHUTDOWN {
        2
    } else if intent == INTENT_PAUSE {
        1
    } else {
        0
    }
}

/// The intent a slot holds after `intent` is signalled: it only ever rises
/// to a higher rank, never lowers. `None` when the signal does not raise it
/// (and then nothing else happens either).
pub open spec fn raise_spec(current: u8, intent: u8) -> Option<u8> {
    if rank_of(intent) > rank_of(current) {
        Some(intent)
    } else {
        None
    }
}

pub fn raise(current: u8, intent: u8) -> (r: Option<u8>)
    ensures
        r == raise_spec(current, intent),
{
    if rank(intent) > rank(current) {
        Some(intent)
    } else {
        None
    }
}

/// The intent after a signal, raised or not.
pub open spec fn after_signal(current: u8, intent: u8) -> u8 {
    match raise_spec(current, intent) {
        Some(i) => i,
        None => current,
    }
}

/// A signal never lowers a slot's intent, and the strongest intent signalled
/// so far is the one the slot holds: an earlier REMOVE cannot be undone by a
/// later PAUSE, and a CANCEL after a PAUSE still cancels.
pub proof fn signals_only_raise(current: u8, intent: u8)
    ensures
        rank_of(after_signal(current, intent)) >= rank_of(current),
        rank_of(after_signal(current, intent)) >= rank_of(intent),
        rank_of(after_signal(current, intent)) == if rank_of(current) >= rank_of(intent) {
            rank_of(current)
        } else {
            rank_of(intent)
        },
        after_signal(after_signal(current, intent), intent) == after_signal(current, intent),
{
}

/// What a raised intent does to a running engine download.
#[derive(Clone, Copy, Debug, PartialEq, Eq, Structural)]
pub enum ControlAction {
    /// `DownloadControl::pause`.
    Pause,
    /// `DownloadControl::cancel`.
    Cancel,
}

/// PAUSE and SHUTDOWN pause the engine; every other intent cancels it.
pub fn control_action(intent: u8) -> (r: ControlAction)
    ensures
        (intent == INTENT_PAUSE || intent == INTENT_SHUTDOWN) ==> r == ControlAction::Pause,
        !(intent == INTENT_PAUSE || intent == INTENT_SHUTDOWN) ==> r == ControlAction::Cancel,
{
    if intent == INTENT_PAUSE || intent == INTENT_SHUTDOWN {
        ControlAction::Pause
    } else {
        ControlAction::Cancel
    }
}

/// How a download that stopped because it was asked to is finished.
#[derive(Clone, Copy, Debug, PartialEq, Eq, Structural)]
pub enum SettleAction {
    /// Delete the partial data and mark it CANCELLED.
    Cancel,
    /// Delete the row (and, on request, the file).
    Remove,
    /// Back to QUEUED (the app is closing).
    Requeue,
    /// Mark it PAUSED.
    Pause,
}

pub fn settle_action(intent: u8) -> (r: SettleAction)
    ensures
        intent == INTENT_CANCEL ==> r == SettleAction::Cancel,
        intent == INTENT_REMOVE ==> r == SettleAction::Remove,
        intent == INTENT_SHUTDOWN ==> r == SettleAction::Requeue,
        intent != INTENT_CANCEL && intent != INTENT_REMOVE && intent != INTENT_SHUTDOWN ==> r
            == SettleAction::Pause,
{
    if intent == INTENT_CANCEL {
        SettleAction::Cancel
    } else if intent == INTENT_REMOVE {
        SettleAction::Remove
    } else if intent == INTENT_SHUTDOWN {
        SettleAction::Requeue
    } else {
        SettleAction::Pause
    }
}

/// What a signal that arrived after the outcome was decided still does.
#[derive(Clone, Copy, Debug, PartialEq, Eq, Structural)]
pub enum LateAction {
    Remove,
    Cancel,
    Requeue,
    Nothing,
}

/// Only a signal that outranks what was already handled acts: a REMOVE
/// removes; a CANCEL cancels anything but a completed row; a SHUTDOWN puts a
/// paused row back in the queue; anything else does nothing more.
pub open spec fn late_spec(final_intent: u8, consumed: u8, status: DownloadStatus) -> LateAction {
    if rank_of(final_intent) <= rank_of(consumed) {
        LateAction::Nothing
    } else if final_intent == INTENT_REMOVE {
        LateAction::Remove
    } else if final_intent == INTENT_CANCEL && status != DownloadStatus::Completed {
        LateAction::Cancel
    } else if final_intent == INTENT_SHUTDOWN && status == DownloadStatus::Paused {
        LateAction::Requeue
    } else {
        LateAction::Nothing
    }
}

pub fn late_action(final_intent: u8, consumed: u8, status: DownloadStatus) -> (r: LateAction)
    ensures
        r == late_spec(final_intent, consumed, status),
{
    if rank(final_intent) <= rank(consumed) {
        LateAction::Nothing
    } else if final_intent == INTENT_REMOVE {
        LateAction::Remove
    } else if final_intent == INTENT_CANCEL && status != DownloadStatus::Completed {
        LateAction::Cancel
    } else if final_intent == INTENT_SHUTDOWN && status == DownloadStatus::Paused {
        LateAction::Requeue
    } else {
        LateAction::Nothing
    }
}

/// A stopped row is requeued by a pending `resume()` only from PAUSED,
/// FAILED or CANCELLED.
pub open spec fn resumable(status: DownloadStatus) -> bool {
    status == DownloadStatus::Paused || status == DownloadStatus::Failed || status
        == DownloadStatus::Cancelled
}

pub fn is_resumable(status: DownloadStatus) -> (r: bool)
    ensures
        r == resumable(status),
{
    status == DownloadStatus::Paused || status == DownloadStatus::Failed || status
        == DownloadStatus::Cancelled
}

/// `pause()` on a row that is not running: a queued one becomes PAUSED,
/// anything else is left as it is.
pub fn pause_idle(status: DownloadStatus) -> (r: Option<DownloadStatus>)
    ensures
        status == DownloadStatus::Queued ==> r == Some(DownloadStatus::Paused),
        status != DownloadStatus::Queued ==> r is None,
{
    if status == DownloadStatus::Queued {
        Some(DownloadStatus::Paused)
    } else {
        None
    }
}

/// `resume()` on a row that is not running: PAUSED, FAILED and CANCELLED go
/// back to the queue (`Ok(true)`), QUEUED stays (`Ok(false)`), anything else
/// is refused.
pub fn resume_idle(status: DownloadStatus) -> (r: Result<bool, CoreError>)
    ensures
        resumable(status) ==> r == Ok::<bool, CoreError>(true),
        status == DownloadStatus::Queued ==> r == Ok::<bool, CoreError>(false),
        !resumable(status) && status != DownloadStatus::Queued ==> r is Err && r->Err_0 is InvalidState
            && r->Err_0->InvalidState_0@ == "cannot resume a "@ + status_text(status) + " download"@,
{
    if is_resumable(status) {
        Ok(true)
    } else if status == DownloadStatus::Queued {
        Ok(false)
    } else {
        let a = concat("cannot resume a ", status.as_str());
        Err(CoreError::InvalidState(concat(a.as_str(), " download")))
    }
}

/// `cancel()` on a row that is not running: a completed one is refused, a
/// cancelled one is left alone (`Ok(false)`), any other has its partial data
/// deleted and becomes CANCELLED (`Ok(true)`).
pub fn cancel_idle(status: DownloadStatus) -> (r: Result<bool, CoreError>)
    ensures
        status == DownloadStatus::Completed ==> r is Err && r->Err_0 is InvalidState,
        status == DownloadStatus::Cancelled ==> r == Ok::<bool, CoreError>(false),
        status != DownloadStatus::Completed && status != DownloadStatus::Cancelled ==> r == Ok::<
            bool,
            CoreError,
        >(true),
{
    if status == DownloadStatus::Completed {
        Err(CoreError::InvalidState(String::from_str("the download is complete")))
    } else if status == DownloadStatus::Cancelled {
        Ok(false)
    } else {
        Ok(true)
    }
}

/// `restart()`: refused while running or once complete; otherwise the
/// partial data goes and the row is queued from byte 0.
pub fn restart_check(running: bool, status: DownloadStatus) -> (r: Result<(), CoreError>)
    ensures
        running ==> r is Err && r->Err_0 is InvalidState,
        !running && status == DownloadStatus::Completed ==> r is Err && r->Err_0 is InvalidState,
        !running && status != DownloadStatus::Completed ==> r is Ok,
{
    if running {
        Err(CoreError::InvalidState(String::from_str("pause the download before restarting it")))
    } else if status == DownloadStatus::Completed {
        Err(CoreError::InvalidState(String::from_str("the download is complete")))
    } else {
        Ok(())
    }
}

/// `pause_all()` pauses rows that are queued, probing or downloading.
pub fn paused_by_pause_all(status: DownloadStatus) -> (r: bool)
    ensures
        r == (status == DownloadStatus::Queued || status == DownloadStatus::Probing || status
            == DownloadStatus::Downloading),
{
    status == DownloadStatus::Queued || status == DownloadStatus::Probing || status
        == DownloadStatus::Downloading
}

/// `resume_all()` resumes paused rows.
pub fn resumed_by_resume_all(status: DownloadStatus) -> (r: bool)
    ensures
        r == (status == DownloadStatus::Paused),
{
    status == DownloadStatus::Paused
}

/// A sweep over every row skips a row someone else removed meanwhile; any
/// other error stops it.
pub fn sweep_goes_on(e: &CoreError) -> (r: bool)
    ensures
        r == (e is NotFound),
{
    match e {
        CoreError::NotFound(_) => true,
        _ => false,
    }
}

/// The queue may start another download: it is not closing and has a free slot.
pub fn can_start(closing: bool, running: usize, max_parallel: u8) -> (r: bool)
    ensures
        r == (!closing && running < max_parallel),
{
    !closing && running < max_parallel as usize
}

// ---------------------------------------------------------------- adding

/// What `add()` stores: the trimmed URL parsed and written in its normal
/// form (only http and https are accepted), the folder given or the
/// settings' folder, and QUEUED (PAUSED with `start_paused`).
pub open spec fn add_url(url: Seq<char>) -> Result<Seq<char>, ()> {
    match url_parsed(trim_ws(url)) {
        Ok(p) => if is_web_scheme(p.1) { Ok(p.0) } else { Err(()) },
        Err(_) => Err(()),
    }
}

pub fn prepare_add(new: NewDownload, default_dir: &str) -> (r: Result<(NewDownload, String, DownloadStatus), CoreError>)
    ensures
        add_url(new.url@) is Err ==> r is Err && r->Err_0 is InvalidUrl,
        add_url(new.url@) is Ok ==> r is Ok && {
            let (n, dir, status) = r->Ok_0;
            &&& n == NewDownload { url: n.url, ..new }
            &&& n.url@ == add_url(new.url@)->Ok_0
            &&& dir@ == match new.dir {
                Some(d) => d@,
                None => default_dir@,
            }
            &&& status == if new.start_paused { DownloadStatus::Paused } else { DownloadStatus::Queued }
        },
{
    let v = chars_of(new.url.as_str());
    let (a, b) = trim_bounds(&v);
    let t = string_of(&slice_chars(&v, a, b));
    let parsed = match parse_url(t.as_str()) {
        Ok(p) => p,
        Err(e) => {
            let m1 = concat(new.url.as_str(), ": ");
            return Err(CoreError::InvalidUrl(concat(m1.as_str(), e.as_str())));
        },
    };
    if !web_scheme(parsed.scheme.as_str()) {
        return Err(CoreError::InvalidUrl(concat("unsupported scheme ", parsed.scheme.as_str())));
    }
    let dir = match &new.dir {
        Some(d) => d.clone(),
        None => String::from_str(default_dir),
    };
    let status = if new.start_paused {
        DownloadStatus::Paused
    } else {
        DownloadStatus::Queued
    };
    let n = NewDownload { url: parsed.text, ..new };
    Ok((n, dir, status))
}

// ---------------------------------------------------------------- rows and files

/// A row's part file, once it has a name.
pub open spec fn row_part_path(row: DownloadRow) -> Option<Seq<char>> {
    match row.filename {
        Some(f) => Some(part_path_spec(row.dir@, f@)),
        None => None,
    }
}

pub fn part_path_of(row: &DownloadRow) -> (r: Option<String>)
    ensures
        match row_part_path(*row) {
            Some(p) => r is Some && r->0@ == p,
            None => r is None,
        },
{
    match &row.filename {
        Some(f) => Some(part_path(row.dir.as_str(), f.as_str())),
        None => None,
    }
}

/// A row whose part file a fresh start of `row` must neither take nor
/// delete: another row in the same folder that may still resume (not
/// completed, not cancelled).
pub open spec fn reserves_for(r: DownloadRow, row: DownloadRow) -> bool {
    &&& r.id.0@ != row.id.0@
    &&& r.dir@ == row.dir@
    &&& r.status != DownloadStatus::Completed
    &&& r.status != DownloadStatus::Cancelled
}

/// The part files reserved against `row`, in row order.
pub open spec fn reserved_spec(rows: Seq<DownloadRow>, row: DownloadRow) -> Seq<Seq<char>>
    decreases rows.len(),
{
    if rows.len() == 0 {
        Seq::empty()
    } else {
        let rest = reserved_spec(rows.drop_last(), row);
        let r = rows.last();
        if reserves_for(r, row) && r.filename is Some {
            rest.push(part_path_spec(r.dir@, r.filename->0@))
        } else {
            rest
        }
    }
}

proof fn lemma_reserved_push(rows: Seq<DownloadRow>, row: DownloadRow)
    requires
        rows.len() > 0,
    ensures
        reserved_spec(rows, row) == (if reserves_for(rows.last(), row) && rows.last().filename is Some {
            reserved_spec(rows.drop_last(), row).push(
                part_path_spec(rows.last().dir@, rows.last().filename->0@),
            )
        } else {
            reserved_spec(rows.drop_last(), row)
        }),
{
}

/// Every other named row in `row`'s folder whose download may still resume
/// (any status but completed or cancelled: queued, probing, downloading,
/// paused, failed) has its part file reserved against `row`; and nothing
/// else is reserved.
pub proof fn every_resumable_neighbour_is_reserved(rows: Seq<DownloadRow>, row: DownloadRow)
    ensures
        forall|k: int|
            0 <= k < rows.len() && (#[trigger] rows[k]).id.0@ != row.id.0@ && rows[k].dir@ == row.dir@
                && rows[k].status != DownloadStatus::Completed && rows[k].status != DownloadStatus::Cancelled
                && rows[k].filename is Some ==> reserved_spec(rows, row).contains(
                part_path_spec(rows[k].dir@, rows[k].filename->0@),
            ),
        forall|p: Seq<char>|
            #[trigger] reserved_spec(rows, row).contains(p) ==> exists|k: int|
                0 <= k < rows.len() && (#[trigger] rows[k]).id.0@ != row.id.0@ && rows[k].dir@ == row.dir@
                    && rows[k].status != DownloadStatus::Completed && rows[k].status
                    != DownloadStatus::Cancelled && rows[k].filename is Some && p == part_path_spec(
                    rows[k].dir@,
                    rows[k].filename->0@,
                ),
    decreases rows.len(),
{
    if rows.len() > 0 {
        let init = rows.drop_last();
        every_resumable_neighbour_is_reserved(init, row);
        lemma_reserved_push(rows, row);
        let rest = reserved_spec(init, row);
        let n = rows.len() - 1;
        assert(rows.last() == rows[n]);
        assert forall|k: int|
            0 <= k < rows.len() && (#[trigger] rows[k]).id.0@ != row.id.0@ && rows[k].dir@ == row.dir@
                && rows[k].status != DownloadStatus::Completed && rows[k].status != DownloadStatus::Cancelled
                && rows[k].filename is Some implies reserved_spec(rows, row).contains(
            part_path_spec(rows[k].dir@, rows[k].filename->0@),
        ) by {
            let q = part_path_spec(rows[k].dir@, rows[k].filename->0@);
            if k == n {
                assert(reserved_spec(rows, row).last() == q);
            } else {
                assert(init[k] == rows[k]);
                assert(rest.contains(q));
                let w = choose|w: int| 0 <= w < rest.len() && rest[w] == q;
                assert(reserved_spec(rows, row)[w] == q);
            }
        }
        assert forall|p: Seq<char>| #[trigger] reserved_spec(rows, row).contains(p) implies exists|k: int|
            0 <= k < rows.len() && (#[trigger] rows[k]).id.0@ != row.id.0@ && rows[k].dir@ == row.dir@
                && rows[k].status != DownloadStatus::Completed && rows[k].status != DownloadStatus::Cancelled
                && rows[k].filename is Some && p == part_path_spec(rows[k].dir@, rows[k].filename->0@) by {
            let i = choose|i: int| 0 <= i < reserved_spec(rows, row).len() && reserved_spec(rows, row)[i] == p;
            if i < rest.len() {
                assert(reserved_spec(rows, row)[i] == rest[i]);
                assert(rest.contains(p));
                let k = choose|k: int|
                    0 <= k < init.len() && (#[trigger] init[k]).id.0@ != row.id.0@ && init[k].dir@ == row.dir@
                        && init[k].status != DownloadStatus::Completed && init[k].status
                        != DownloadStatus::Cancelled && init[k].filename is Some && p == part_path_spec(
                        init[k].dir@,
                        init[k].filename->0@,
                    );
                assert(init[k] == rows[k]);
            } else {
                assert(reserves_for(rows[n], row) && rows[n].filename is Some);
                assert(reserved_spec(rows, row)[i] == part_path_spec(rows[n].dir@, rows[n].filename->0@));
                assert(rows[n].status != DownloadStatus::Completed);
            }
        }
    } else {
        assert(reserved_spec(rows, row) =~= Seq::<Seq<char>>::empty());
    }
}

/// The part files of every other row in `row`'s folder that may still resume.
pub fn reserved_parts(rows: &Vec<DownloadRow>, row: &DownloadRow) -> (r: Vec<String>)
    ensures
        r@.map_values(|s: String| s@) == reserved_spec(rows@, *row),
{
    let mut out: Vec<String> = Vec::new();
    let mut i: usize = 0;
    while i < rows.len()
        invariant
            i <= rows.len(),
            out@.map_values(|s: String| s@) == reserved_spec(rows@.take(i as int), *row),
        decreases rows.len() - i,
    {
        let r = &rows[i];
        proof {
            assert(rows@.take(i + 1).drop_last() =~= rows@.take(i as int));
            assert(rows@.take(i + 1).last() == rows@[i as int]);
        }
        let keep = !(r.id == row.id) && r.dir == row.dir && r.status != DownloadStatus::Completed
            && r.status != DownloadStatus::Cancelled;
        if keep {
            match part_path_of(r) {
                Some(p) => {
                    let ghost before = out@;
                    out.push(p);
                    assert(out@.map_values(|s: String| s@) =~= before.map_values(|s: String| s@).push(
                        p@,
                    ));
                },
                None => {},
            }
        }
        i = i + 1;
    }
    assert(rows@.take(rows.len() as int) =~= rows@);
    out
}

/// The finished file `remove()` deletes: only on request, only of a
/// completed row with a name.
pub fn finished_file(row: &DownloadRow, delete_file: bool) -> (r: Option<String>)
    ensures
        delete_file && row.status == DownloadStatus::Completed && row.filename is Some ==> r is Some
            && r->0@ == path_joined(row.dir@, row.filename->0@),
        !(delete_file && row.status == DownloadStatus::Completed && row.filename is Some) ==> r is None,
{
    if delete_file && row.status == DownloadStatus::Completed {
        match &row.filename {
            Some(f) => Some(join_path(row.dir.as_str(), f.as_str())),
            None => None,
        }
    } else {
        None
    }
}

/// The request decorations of a row: its headers, then `Referer` when it
/// has a referrer, and its cookies.
pub open spec fn extras_headers_spec(row: DownloadRow) -> Seq<(Seq<char>, Seq<char>)> {
    let hs = row.headers@.map_values(|h: crate::model::Header| (h.name@, h.value@));
    match row.referrer {
        Some(r) => hs.push(("Referer"@, r@)),
        None => hs,
    }
}

pub fn extras_of(row: &DownloadRow) -> (r: RequestExtras)
    ensures
        r.headers@.map_values(|h: (String, String)| (h.0@, h.1@)) == extras_headers_spec(*row),
        r.cookies.len() == row.cookies.len(),
        forall|i: int|
            0 <= i < row.cookies.len() ==> (#[trigger] r.cookies@[i]).name == row.cookies@[i].name
                && r.cookies@[i].value == row.cookies@[i].value,
{
    let mut headers: Vec<(String, String)> = Vec::new();
    let mut i: usize = 0;
    while i < row.headers.len()
        invariant
            i <= row.headers.len(),
            headers@.map_values(|h: (String, String)| (h.0@, h.1@)) =~= row.headers@.take(
                i as int,
            ).map_values(|h: crate::model::Header| (h.name@, h.value@)),
        decreases row.headers.len() - i,
    {
        let h = &row.headers[i];
        headers.push((h.name.clone(), h.value.clone()));
        i = i + 1;
        assert(row.headers@.take(i as int).map_values(|h: crate::model::Header| (h.name@, h.value@))
            =~= row.headers@.take((i - 1) as int).map_values(
            |h: crate::model::Header| (h.name@, h.value@),
        ).push((row.headers@[i - 1].name@, row.headers@[i - 1].value@)));
    }
    assert(row.headers@.take(row.headers.len() as int) =~= row.headers@);
    if let Some(r) = &row.referrer {
        let ghost before = headers@;
        headers.push((String::from_str("Referer"), r.clone()));
        assert(headers@.map_values(|h: (String, String)| (h.0@, h.1@)) =~= before.map_values(
            |h: (String, String)| (h.0@, h.1@),
        ).push(("Referer"@, r@)));
    }
    let mut cookies: Vec<Cookie> = Vec::new();
    let mut j: usize = 0;
    while j < row.cookies.len()
        invariant
            j <= row.cookies.len(),
            cookies.len() == j,
            forall|k: int|
                0 <= k < j ==> (#[trigger] cookies@[k]).name == row.cookies@[k].name
                    && cookies@[k].value == row.cookies@[k].value,
        decreases row.cookies.len() - j,
    {
        let c = &row.cookies[j];
        cookies.push(Cookie { name: c.name.clone(), value: c.value.clone() });
        j = j + 1;
    }
    RequestExtras { headers, cookies }
}

/// The saved state no longer fits the server: start over from byte 0 (once).
/// `io_not_found` tells whether an I/O error is "not found".
pub open spec fn fresh_start_needed(e: &EngineError, io_not_found: bool) -> bool {
    match e {
        EngineError::RangeNotSupported => true,
        EngineError::InvalidResume(_) => true,
        EngineError::Io(_) => io_not_found,
        _ => false,
    }
}

pub fn needs_fresh_start_given(e: &EngineError, io_not_found: bool) -> (r: bool)
    ensures
        r == fresh_start_needed(e, io_not_found),
{
    match e {
        EngineError::RangeNotSupported => true,
        EngineError::InvalidResume(_) => true,
        EngineError::Io(_) => io_not_found,
        _ => false,
    }
}

/// Start over after this error? A missing part file is the only I/O error that asks for it.
pub fn needs_fresh_start(e: &EngineError) -> (r: bool)
    ensures
        !(e is Io) ==> r == fresh_start_needed(e, false),
{
    let nf = match e {
        EngineError::Io(io) => io_is_not_found(io),
        _ => false,
    };
    needs_fresh_start_given(e, nf)
}

fn opt_clone(o: &Option<String>) -> (r: Option<String>)
    ensures
        r == *o,
{
    match o {
        Some(s) => Some(s.clone()),
        None => None,
    }
}

/// A row resumes when it has a size and saved segments.
pub fn resume_of(row: &DownloadRow, segments: Vec<SegmentState>) -> (r: Option<Resume>)
    ensures
        (row.size is Some && segments.len() > 0) ==> r is Some && r->0.segments == segments
            && r->0.size == row.size->0 && r->0.etag == row.etag && r->0.last_modified == row.last_modified,
        !(row.size is Some && segments.len() > 0) ==> r is None,
{
    match row.size {
        Some(size) => {
            if segments.len() > 0 {
                Some(Resume { segments, size, etag: opt_clone(&row.etag), last_modified: opt_clone(&row.last_modified) })
            } else {
                None
            }
        },
        None => None,
    }
}

// ---------------------------------------------------------------- driving one download

/// What the driver does after `start()` failed.
#[derive(Clone, Copy, Debug, PartialEq, Eq, Structural)]
pub enum StartFailure {
    /// A signal arrived meanwhile: finish as it asks.
    Settle,
    /// Discard the saved state and try once more from byte 0.
    StartOver,
    /// Record the failure.
    Fail,
}

pub fn after_start_error(signalled: bool, resuming: bool, started_over: bool, fresh_needed: bool) -> (r: StartFailure)
    ensures
        signalled ==> r == StartFailure::Settle,
        !signalled && resuming && !started_over && fresh_needed ==> r == StartFailure::StartOver,
        !signalled && !(resuming && !started_over && fresh_needed) ==> r == StartFailure::Fail,
{
    if signalled {
        StartFailure::Settle
    } else if resuming && !started_over && fresh_needed {
        StartFailure::StartOver
    } else {
        StartFailure::Fail
    }
}

/// What the driver does once the engine's run has ended.
#[derive(Clone, Copy, Debug, PartialEq, Eq, Structural)]
pub enum AfterRun {
    /// The file is complete: record it.
    Complete,
    /// Finish as the slot's intent asks (the segments are saved first when paused or failed).
    Settle,
    /// The server stopped honouring ranges: discard and start over as one stream (once).
    StartOver,
    /// Record the failure.
    Fail,
}

/// A completed run completes; a paused or cancelled one settles; a failed
/// one settles when a signal caused it, starts over once when ranges stopped
/// working, and fails otherwise.
pub fn after_run(status: crate::download::Status, intent: u8, range_lost: bool, started_over: bool) -> (r: AfterRun)
    ensures
        status == crate::download::Status::Completed ==> r == AfterRun::Complete,
        status == crate::download::Status::Paused || status == crate::download::Status::Cancelled
            || status == crate::download::Status::Downloading ==> r == AfterRun::Settle,
        status == crate::download::Status::Failed && intent != INTENT_NONE ==> r == AfterRun::Settle,
        status == crate::download::Status::Failed && intent == INTENT_NONE && range_lost
            && !started_over ==> r == AfterRun::StartOver,
        status == crate::download::Status::Failed && intent == INTENT_NONE && !(range_lost
            && !started_over) ==> r == AfterRun::Fail,
{
    match status {
        crate::download::Status::Completed => AfterRun::Complete,
        crate::download::Status::Failed => {
            if intent != INTENT_NONE {
                AfterRun::Settle
            } else if range_lost && !started_over {
                AfterRun::StartOver
            } else {
                AfterRun::Fail
            }
        },
        _ => AfterRun::Settle,
    }
}

/// What recording a completed download takes besides its new status:
/// `(read the size from the finished file, remove the row)`. The size is
/// read when the probe did not learn it; the row goes when a REMOVE arrived
/// while the download finished.
pub fn completion_steps(size_known: bool, intent: u8) -> (r: (bool, bool))
    ensures
        r.0 == !size_known,
        r.1 == (intent == INTENT_REMOVE),
{
    (!size_known, intent == INTENT_REMOVE)
}

/// A running download's saved segments are refreshed at most this often (1 s).
pub const PERSIST_INTERVAL_MS: u64 = 1000;

/// The durable segments of a progress update are saved while the download
/// runs, once [`PERSIST_INTERVAL_MS`] has passed since the last save.
pub fn saves_progress(status: Status, since_last_save_ms: u64) -> (r: bool)
    ensures
        r == (status == Status::Downloading && since_last_save_ms >= PERSIST_INTERVAL_MS),
{
    status == Status::Downloading && since_last_save_ms >= PERSIST_INTERVAL_MS
}

// ---------------------------------------------------------------- scheduling

/// Slots a scheduling pass may fill: none once the app is closing, else
/// what `max_parallel` leaves beside the `running` downloads.
pub open spec fn free_slots(closing: bool, running: int, max_parallel: u8) -> int {
    if closing {
        0
    } else {
        max_parallel - running
    }
}

/// The downloads a scheduling pass starts, in queue order: while a slot is
/// free, the oldest queued row that is neither running nor already started.
pub open spec fn picks(queued: Seq<DownloadId>, taken: Seq<DownloadId>, slots: int) -> Seq<DownloadId>
    decreases queued.len(),
{
    if slots <= 0 || queued.len() == 0 {
        Seq::empty()
    } else if id_listed(queued[0], taken) {
        picks(queued.drop_first(), taken, slots)
    } else {
        seq![queued[0]] + picks(queued.drop_first(), taken.push(queued[0]), slots - 1)
    }
}

/// The downloads to start now, given whether the app is closing, the
/// running ones, `max_parallel` and the queued rows oldest first.
pub fn to_start(closing: bool, running: &Vec<DownloadId>, max_parallel: u8, queued: &Vec<DownloadId>)
    -> (r: Vec<DownloadId>)
    ensures
        r@ == picks(queued@, running@, free_slots(closing, running.len() as int, max_parallel)),
{
    let ghost slots0 = free_slots(closing, running.len() as int, max_parallel);
    let mut left: usize = if closing || running.len() >= max_parallel as usize {
        0
    } else {
        max_parallel as usize - running.len()
    };
    let mut taken: Vec<DownloadId> = Vec::new();
    let mut k: usize = 0;
    while k < running.len()
        invariant
            k <= running.len(),
            taken@ == running@.take(k as int),
        decreases running.len() - k,
    {
        taken.push(running[k].clone());
        k = k + 1;
        assert(taken@ =~= running@.take(k as int));
    }
    assert(taken@ =~= running@);
    let mut out: Vec<DownloadId> = Vec::new();
    let mut i: usize = 0;
    assert(queued@.skip(0) =~= queued@);
    assert(slots0 <= 0 ==> picks(queued@, running@, slots0) == Seq::<DownloadId>::empty());
    assert(left == 0 ==> picks(queued@, taken@, left as int) == Seq::<DownloadId>::empty());
    assert(out@ + Seq::<DownloadId>::empty() =~= Seq::<DownloadId>::empty());
    while i < queued.len() && left > 0
        invariant
            i <= queued.len(),
            picks(queued@, running@, slots0) == out@ + picks(queued@.skip(i as int), taken@, left as int),
        decreases queued.len() - i,
    {
        let ghost rest = queued@.skip(i as int);
        assert(rest.drop_first() =~= queued@.skip(i + 1));
        assert(rest[0] == queued@[i as int]);
        if !id_in(&queued[i], &taken) {
            let id = queued[i].clone();
            let ghost before = out@;
            taken.push(id.clone());
            out.push(id);
            left = left - 1;
            assert(before + (seq![queued@[i as int]] + picks(queued@.skip(i + 1), taken@, left as int))
                =~= out@ + picks(queued@.skip(i + 1), taken@, left as int));
        }
        i = i + 1;
    }
    assert(picks(queued@.skip(i as int), taken@, left as int) == Seq::<DownloadId>::empty());
    assert(out@ + Seq::<DownloadId>::empty() =~= out@);
    out
}

proof fn lemma_listed_push(x: DownloadId, s: Seq<DownloadId>, y: DownloadId)
    ensures
        id_listed(x, s) ==> id_listed(x, s.push(y)),
        id_listed(y, s.push(y)),
{
    if id_listed(x, s) {
        let i = choose|i: int| 0 <= i < s.len() && (#[trigger] s[i]).0@ == x.0@;
        assert(s.push(y)[i] == s[i]);
    }
    assert(s.push(y)[s.len() as int] == y);
}

/// A scheduling pass keeps the queue's rules: it starts no more rows than
/// the free slots (none while closing); only queued rows that are not
/// running; each at most once; and it starts fewer only when every queued
/// row is running or started.
pub proof fn a_pass_keeps_the_queue_rules(queued: Seq<DownloadId>, taken: Seq<DownloadId>, slots: int)
    ensures
        picks(queued, taken, slots).len() <= (if slots > 0 { slots } else { 0 }),
        forall|i: int|
            0 <= i < picks(queued, taken, slots).len() ==> !id_listed(
                #[trigger] picks(queued, taken, slots)[i],
                taken,
            ) && id_listed(picks(queued, taken, slots)[i], queued),
        forall|i: int, j: int|
            0 <= i < j < picks(queued, taken, slots).len() ==> (#[trigger] picks(queued, taken, slots)[i]).0@
                != (#[trigger] picks(queued, taken, slots)[j]).0@,
        picks(queued, taken, slots).len() < slots ==> forall|j: int|
            0 <= j < queued.len() ==> id_listed(#[trigger] queued[j], taken + picks(queued, taken, slots)),
    decreases queued.len(),
{
    let p = picks(queued, taken, slots);
    if slots <= 0 || queued.len() == 0 {
        assert(p.len() == 0);
    } else {
        let q0 = queued[0];
        let rest = queued.drop_first();
        assert(forall|j: int| 0 <= j < rest.len() ==> rest[j] == queued[j + 1]);
        if id_listed(q0, taken) {
            a_pass_keeps_the_queue_rules(rest, taken, slots);
            assert(p == picks(rest, taken, slots));
            assert forall|i: int| 0 <= i < p.len() implies id_listed(#[trigger] p[i], queued) by {
                assert(id_listed(p[i], rest));
                let k = choose|k: int| 0 <= k < rest.len() && (#[trigger] rest[k]).0@ == p[i].0@;
                assert(queued[k + 1] == rest[k]);
            }
            if p.len() < slots {
                assert forall|j: int| 0 <= j < queued.len() implies id_listed(#[trigger] queued[j], taken + p) by {
                    if j == 0 {
                        let k = choose|k: int| 0 <= k < taken.len() && (#[trigger] taken[k]).0@ == q0.0@;
                        assert((taken + p)[k] == taken[k]);
                    } else {
                        assert(queued[j] == rest[j - 1]);
                    }
                }
            }
        } else {
            let t2 = taken.push(q0);
            let p2 = picks(rest, t2, slots - 1);
            a_pass_keeps_the_queue_rules(rest, t2, slots - 1);
            assert(p == seq![q0] + p2);
            assert forall|i: int| 0 <= i < p.len() implies !id_listed(#[trigger] p[i], taken) && id_listed(
                p[i],
                queued,
            ) by {
                if i == 0 {
                    assert(p[0] == q0);
                    assert(queued[0] == q0);
                } else {
                    assert(p[i] == p2[i - 1]);
                    assert(!id_listed(p2[i - 1], t2));
                    if id_listed(p[i], taken) {
                        lemma_listed_push(p[i], taken, q0);
                    }
                    assert(id_listed(p2[i - 1], rest));
                    let k = choose|k: int| 0 <= k < rest.len() && (#[trigger] rest[k]).0@ == p2[i - 1].0@;
                    assert(queued[k + 1] == rest[k]);
                }
            }
            assert forall|i: int, j: int| 0 <= i < j < p.len() implies (#[trigger] p[i]).0@ != (#[trigger] p[j]).0@ by {
                assert(p[j] == p2[j - 1]);
                if i == 0 {
                    assert(p[0] == q0);
                    lemma_listed_push(q0, taken, q0);
                    assert(!id_listed(p2[j - 1], t2));
                    assert(t2[taken.len() as int] == q0);
                } else {
                    assert(p[i] == p2[i - 1]);
                }
            }
            if p.len() < slots {
                assert(t2 + p2 =~= taken + p);
                assert forall|j: int| 0 <= j < queued.len() implies id_listed(#[trigger] queued[j], taken + p) by {
                    if j == 0 {
                        assert((taken + p)[taken.len() as int] == q0);
                    } else {
                        assert(queued[j] == rest[j - 1]);
                    }
                }
            }
        }
    }
}

} // verus!
