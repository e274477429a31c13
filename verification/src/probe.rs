//! Learning what a URL is before downloading it: size, range support,
//! validators, name. `HEAD` first; a `GET` with `Range: bytes=0-0` when the
//! server refuses HEAD or hides the length. The requests themselves are the
//! caller's; what the answers mean is decided here.
use vstd::prelude::*;

use crate::error::EngineError;
use crate::filename::{filename_from, filename_spec};
use crate::text::{
    chars_of, concat, eq_ignore_case, find_char, index_of, lemma_trail_count_unique,
    parse_u64_range, parse_u64_spec, slice_chars, str_eq_ignore_case, string_of, trail_count,
    trim_bounds, trim_ws,
};
use crate::urls::{is_web_scheme, parse_url, url_parsed, web_scheme};

verus! {

/// What the server told us about a URL.
#[derive(Debug)]
pub struct Probe {
    /// The URL after redirects; every later request uses this.
    pub final_url: String,
    /// Total size, when the server states it.
    pub size: Option<u64>,
    /// True when byte ranges are honoured.
    pub ranges: bool,
    /// `ETag`, used to detect a changed file on resume.
    pub etag: Option<String>,
    /// `Last-Modified`, same purpose.
    pub last_modified: Option<String>,
    /// `Content-Type` without parameters.
    pub mime: Option<String>,
    /// Sanitised file name.
    pub filename: String,
}

/// The headers of an answer that the probe reads, as text.
pub struct ProbeHeaders {
    pub content_length: Option<String>,
    pub accept_ranges: Option<String>,
    pub content_range: Option<String>,
    pub content_disposition: Option<String>,
    pub etag: Option<String>,
    pub last_modified: Option<String>,
    pub content_type: Option<String>,
}

pub open spec fn opt_view(o: Option<String>) -> Option<Seq<char>> {
    match o {
        Some(s) => Some(s@),
        None => None,
    }
}

/// A header holding a number: the trimmed value parsed as a `u64`.
pub open spec fn header_number(v: Option<Seq<char>>) -> Option<u64> {
    match v {
        Some(s) => parse_u64_spec(trim_ws(s)),
        None => None,
    }
}

/// `Accept-Ranges: bytes` (any case).
pub open spec fn ranges_accepted(v: Option<Seq<char>>) -> bool {
    match v {
        Some(s) => eq_ignore_case(s, "bytes"@),
        None => false,
    }
}

/// `Content-Range: bytes 0-0/12345` → 12345: the trimmed text after the last `/`.
pub open spec fn content_range_total_spec(v: Option<Seq<char>>) -> Option<u64> {
    match v {
        Some(s) => parse_u64_spec(trim_ws(s.skip(s.len() - trail_count(s, |c: char| c != '/')))),
        None => None,
    }
}

/// `Content-Type` without parameters: the trimmed text before the first `;`.
pub open spec fn mime_spec(v: Option<Seq<char>>) -> Option<Seq<char>> {
    match v {
        Some(s) => Some(trim_ws(s.take(index_of(s, ';')))),
        None => None,
    }
}

/// Parse a numeric header.
pub fn header_u64(v: Option<&str>) -> (r: Option<u64>)
    ensures
        r == header_number(
            match v {
                Some(s) => Some(s@),
                None => None,
            },
        ),
{
    match v {
        Some(s) => {
            let cs = chars_of(s);
            let (a, b) = trim_bounds(&cs);
            parse_u64_range(&cs, a, b)
        },
        None => None,
    }
}

/// `Accept-Ranges` says `bytes`.
pub fn accepts_ranges(v: Option<&str>) -> (r: bool)
    ensures
        r == ranges_accepted(
            match v {
                Some(s) => Some(s@),
                None => None,
            },
        ),
{
    match v {
        Some(s) => str_eq_ignore_case(s, "bytes"),
        None => false,
    }
}

/// The total size a `Content-Range` value announces; `*` → None.
pub fn content_range_total(v: Option<&str>) -> (r: Option<u64>)
    ensures
        r == content_range_total_spec(
            match v {
                Some(s) => Some(s@),
                None => None,
            },
        ),
{
    match v {
        Some(s) => {
            let cs = chars_of(s);
            let ghost p = |c: char| c != '/';
            let mut j: usize = cs.len();
            while j > 0 && cs[j - 1] != '/'
                invariant
                    j <= cs.len(),
                    forall|k: int| j <= k < cs.len() ==> cs@[k] != '/',
                decreases j,
            {
                j = j - 1;
            }
            proof {
                lemma_trail_count_unique(cs@, p, cs.len() - j);
            }
            let tail = slice_chars(&cs, j, cs.len());
            assert(tail@ =~= cs@.skip(j as int));
            let (a, b) = trim_bounds(&tail);
            parse_u64_range(&tail, a, b)
        },
        None => None,
    }
}

/// `Content-Type` without its parameters.
pub fn mime_of(v: Option<&str>) -> (r: Option<String>)
    ensures
        opt_view(r) == mime_spec(
            match v {
                Some(s) => Some(s@),
                None => None,
            },
        ),
{
    match v {
        Some(s) => {
            let cs = chars_of(s);
            let e = find_char(&cs, 0, ';');
            assert(cs@.skip(0) =~= cs@);
            let head = slice_chars(&cs, 0, e);
            assert(head@ =~= cs@.take(e as int));
            let (a, b) = trim_bounds(&head);
            let t = slice_chars(&head, a, b);
            Some(string_of(&t))
        },
        None => None,
    }
}

/// Only `http` and `https` URLs can be probed: any other is an `InvalidUrl`.
pub open spec fn probe_url_ok(url: Seq<char>) -> bool {
    match url_parsed(url) {
        Ok(p) => is_web_scheme(p.1),
        Err(_) => false,
    }
}

/// Refuse a URL the engine cannot download.
pub fn check_probe_url(url: &str) -> (r: Result<(), EngineError>)
    ensures
        r is Ok <==> probe_url_ok(url@),
        r is Err ==> r->Err_0 is InvalidUrl,
{
    match parse_url(url) {
        Ok(p) => {
            if web_scheme(p.scheme.as_str()) {
                Ok(())
            } else {
                Err(EngineError::InvalidUrl(concat("unsupported scheme ", p.scheme.as_str())))
            }
        },
        Err(e) => Err(EngineError::InvalidUrl(e)),
    }
}

/// What a `HEAD` answer settles: a success that states `Content-Length`
/// and `Accept-Ranges: bytes` gives the size, with ranges on; anything else
/// (ranges not announced among it) sends the probe on to the one-byte
/// ranged `GET`, whose answer decides.
pub open spec fn head_answer(status: u16, h: ProbeHeaders) -> Option<u64> {
    if 200 <= status <= 299 && ranges_accepted(opt_view(h.accept_ranges)) {
        header_number(opt_view(h.content_length))
    } else {
        None
    }
}

pub fn head_result(status: u16, h: &ProbeHeaders) -> (r: Option<u64>)
    ensures
        r == head_answer(status, *h),
{
    if !(200 <= status && status <= 299) {
        return None;
    }
    let ranges = match &h.accept_ranges {
        Some(s) => accepts_ranges(Some(s.as_str())),
        None => false,
    };
    if !ranges {
        return None;
    }
    match &h.content_length {
        Some(s) => header_u64(Some(s.as_str())),
        None => None,
    }
}

/// What the `GET bytes=0-0` answer settles: an error status is an
/// `HttpStatus` error; `206` gives the `Content-Range` total and ranges on;
/// another success gives `Content-Length` and `Accept-Ranges`.
pub open spec fn get_answer(status: u16, h: ProbeHeaders) -> Result<(Option<u64>, bool), EngineError> {
    if !(200 <= status <= 299) {
        Err(EngineError::HttpStatus { status })
    } else if status == 206 {
        Ok((content_range_total_spec(opt_view(h.content_range)), true))
    } else {
        Ok((header_number(opt_view(h.content_length)), ranges_accepted(opt_view(h.accept_ranges))))
    }
}

pub fn get_result(status: u16, h: &ProbeHeaders) -> (r: Result<(Option<u64>, bool), EngineError>)
    ensures
        r == get_answer(status, *h),
{
    if !(200 <= status && status <= 299) {
        return Err(EngineError::HttpStatus { status });
    }
    if status == 206 {
        let total = match &h.content_range {
            Some(s) => content_range_total(Some(s.as_str())),
            None => None,
        };
        Ok((total, true))
    } else {
        let len = match &h.content_length {
            Some(s) => header_u64(Some(s.as_str())),
            None => None,
        };
        let ranges = match &h.accept_ranges {
            Some(s) => accepts_ranges(Some(s.as_str())),
            None => false,
        };
        Ok((len, ranges))
    }
}

fn opt_str(o: &Option<String>) -> (r: Option<&str>)
    ensures
        match o {
            Some(s) => r is Some && r->0@ == s@,
            None => r is None,
        },
{
    match o {
        Some(s) => Some(s.as_str()),
        None => None,
    }
}

fn opt_clone(o: &Option<String>) -> (r: Option<String>)
    ensures
        r == *o,
{
    match o {
        Some(s) => Some(s.clone()),
        None => None,
    }
}

/// The probe result of an answer from `final_url` with headers `h`.
pub fn build(final_url: &str, h: &ProbeHeaders, size: Option<u64>, ranges: bool) -> (p: Probe)
    ensures
        p.final_url@ == final_url@,
        p.size == size,
        p.ranges == ranges,
        p.etag == h.etag,
        p.last_modified == h.last_modified,
        opt_view(p.mime) == mime_spec(opt_view(h.content_type)),
        p.filename@ == filename_spec(opt_view(h.content_disposition), final_url@),
{
    let cd = opt_str(&h.content_disposition);
    let filename = filename_from(cd, final_url);
    Probe {
        filename,
        etag: opt_clone(&h.etag),
        last_modified: opt_clone(&h.last_modified),
        mime: mime_of(opt_str(&h.content_type)),
        final_url: String::from_str(final_url),
        size,
        ranges,
    }
}

} // verus!
