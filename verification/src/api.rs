//! What a command returns on failure, and the pure rules commands rely on.
use vstd::prelude::*;

use crate::core_error::{core_code, CoreError};
use crate::file::{join_path, path_joined};
use crate::model::{DownloadRow, DownloadStatus};
use crate::text::{chars_of, has_ws, is_ws_char, slice_chars, string_of, trim_bounds, trim_ws};
use crate::urls::{is_web_scheme, parse_url, url_parsed, web_scheme};

verus! {

/// A failed command, as the UI receives it: `{ code, message }`.
#[derive(Debug)]
pub struct ApiError {
    /// Stable code (`CoreError::code()`, engine codes pass through).
    pub code: String,
    /// Plain text for the log / detail line.
    pub message: String,
}

impl ApiError {
    /// Any code.
    pub fn new(code: &str, message: String) -> (r: ApiError)
        ensures
            r.code@ == code@,
            r.message == message,
    {
        ApiError { code: String::from_str(code), message }
    }

    /// The action does not fit the download's state.
    pub fn invalid_state(message: String) -> (r: ApiError)
        ensures
            r.code@ == "INVALID_STATE"@,
            r.message == message,
    {
        ApiError::new("INVALID_STATE", message)
    }

    /// A failure outside the core (a plugin, the OS).
    pub fn internal(message: String) -> (r: ApiError)
        ensures
            r.code@ == "INTERNAL"@,
            r.message == message,
    {
        ApiError::new("INTERNAL", message)
    }

    /// A core error keeps its code and its text.
    pub fn from_core(e: &CoreError) -> (r: ApiError)
        ensures
            r.code@ == core_code(e),
            crate::core_error::core_message(e) matches Some(m) ==> r.message@ == m,
    {
        ApiError::new(e.code(), e.message())
    }
}

/// The finished file of a completed download; anything else is INVALID_STATE.
/// The UI passes an id, never a path: this is the only way to a path.
pub fn completed_path(row: &DownloadRow) -> (r: Result<String, ApiError>)
    ensures
        match (row.status, row.filename) {
            (DownloadStatus::Completed, Some(name)) => r is Ok && r->Ok_0@ == path_joined(row.dir@, name@),
            _ => r is Err && r->Err_0.code@ == "INVALID_STATE"@,
        },
{
    match (row.status, &row.filename) {
        (DownloadStatus::Completed, Some(name)) => Ok(join_path(row.dir.as_str(), name.as_str())),
        _ => Err(ApiError::invalid_state(String::from_str("the download has not finished"))),
    }
}

/// The text the add dialog is pre-filled with: the clipboard trimmed, when
/// it is exactly one http(s) link.
pub open spec fn clipboard_link_spec(text: Seq<char>) -> Option<Seq<char>> {
    let t = trim_ws(text);
    if t.len() == 0 || has_ws(t) {
        None
    } else {
        match url_parsed(t) {
            Ok(p) => if is_web_scheme(p.1) { Some(t) } else { None },
            Err(_) => None,
        }
    }
}

/// The clipboard text, if it is exactly one http(s) link (the add dialog
/// pre-fills it); anything else is ignored.
pub fn clipboard_link(text: &str) -> (r: Option<String>)
    ensures
        match clipboard_link_spec(text@) {
            Some(t) => r is Some && r->0@ == t,
            None => r is None,
        },
{
    let v = chars_of(text);
    let (a, b) = trim_bounds(&v);
    let t = slice_chars(&v, a, b);
    assert(t@ == trim_ws(text@));
    if t.len() == 0 {
        return None;
    }
    let mut i: usize = 0;
    while i < t.len()
        invariant
            t@ == trim_ws(text@),
            i <= t.len(),
            forall|k: int| 0 <= k < i ==> !crate::text::is_ws(#[trigger] t@[k]),
        decreases t.len() - i,
    {
        if is_ws_char(t[i]) {
            assert(crate::text::is_ws(t@[i as int]));
            assert(has_ws(t@));
            return None;
        }
        i = i + 1;
    }
    let s = string_of(&t);
    match parse_url(s.as_str()) {
        Ok(p) => if web_scheme(p.scheme.as_str()) {
            Some(s)
        } else {
            None
        },
        Err(_) => None,
    }
}

} // verus!
