//! One error type for the whole engine, with a stable code the UI can map.
use vstd::prelude::*;

use crate::text::{chars_of, concat, contains_chars, decimal, decimal_string, has_sub};

verus! {

#[verifier::external_type_specification]
#[verifier::external_body]
pub struct ExIoError(std::io::Error);

#[verifier::external_type_specification]
#[verifier::external_body]
pub struct ExReqwestError(reqwest::Error);

/// The Unix OS error number of a full disk (`ENOSPC`). The library tells a
/// full disk by an OS error code whose kind std reports as `StorageFull`,
/// which covers Windows' own number (`ERROR_DISK_FULL`) as well.
pub const ENOSPC_CODE: i32 = 28;

/// Everything that can stop a download.
#[derive(Debug)]
pub enum EngineError {
    /// The URL could not be parsed or has an unsupported scheme.
    InvalidUrl(String),
    /// Resume was asked for but the server no longer answers ranges.
    RangeNotSupported,
    /// ETag / Last-Modified / size differ from the first probe.
    SourceChanged,
    /// ENOSPC while pre-allocating or writing.
    DiskFull,
    /// A non-success HTTP status.
    HttpStatus {
        /// The status code.
        status: u16,
    },
    /// Connect / read / reset / timeout.
    Network(String),
    /// Certificate or handshake failure — never retried.
    Tls(String),
    /// The caller cancelled.
    Cancelled,
    /// Any other I/O failure.
    Io(std::io::Error),
    /// Saved resume state that does not describe the file.
    InvalidResume(String),
    /// A failure inside the engine itself (a task that panicked, a file still shared).
    Internal(String),
}

/// The stable code of each error.
pub open spec fn code_of(e: &EngineError) -> Seq<char> {
    match e {
        EngineError::InvalidUrl(_) => "INVALID_URL"@,
        EngineError::RangeNotSupported => "RANGE_NOT_SUPPORTED"@,
        EngineError::SourceChanged => "SOURCE_CHANGED"@,
        EngineError::DiskFull => "DISK_FULL"@,
        EngineError::HttpStatus { .. } => "HTTP_STATUS"@,
        EngineError::Network(_) => "NETWORK"@,
        EngineError::Tls(_) => "TLS"@,
        EngineError::Cancelled => "CANCELLED"@,
        EngineError::Io(_) => "IO"@,
        EngineError::InvalidResume(_) => "INVALID_RESUME"@,
        EngineError::Internal(_) => "INTERNAL"@,
    }
}

/// Worth retrying: a network failure, 429, or a 5xx status.
pub open spec fn transient(e: &EngineError) -> bool {
    match e {
        EngineError::Network(_) => true,
        EngineError::HttpStatus { status } => *status == 429 || (500 <= *status && *status <= 599),
        _ => false,
    }
}

/// The human-readable text of every error but `Io`, whose text is the OS's.
pub open spec fn message_of(e: &EngineError) -> Seq<char> {
    match e {
        EngineError::InvalidUrl(s) => "invalid URL: "@ + s@,
        EngineError::RangeNotSupported => "server does not support byte ranges"@,
        EngineError::SourceChanged => "the file on the server changed since the download started"@,
        EngineError::DiskFull => "not enough disk space"@,
        EngineError::HttpStatus { status } => "HTTP "@ + decimal(*status as nat),
        EngineError::Network(s) => "network error: "@ + s@,
        EngineError::Tls(s) => "TLS error: "@ + s@,
        EngineError::Cancelled => "cancelled"@,
        EngineError::Io(_) => Seq::empty(),
        EngineError::InvalidResume(s) => "invalid resume state: "@ + s@,
        EngineError::Internal(s) => "internal error: "@ + s@,
    }
}

/// How a failed HTTP request is classified: a request that could not be
/// built names a bad URL, one that got a status is that status, text that
/// speaks of certificates or TLS is a TLS failure, anything else the network.
pub open spec fn request_failure_kind(
    is_builder: bool,
    status: Option<u16>,
    text: Seq<char>,
    e: &EngineError,
) -> bool {
    if is_builder {
        e is InvalidUrl && e->InvalidUrl_0@ == text
    } else if status is Some {
        *e == (EngineError::HttpStatus { status: status->0 })
    } else if has_sub(text, "certificate"@) || has_sub(text, "tls"@) || has_sub(text, "TLS"@) {
        e is Tls && e->Tls_0@ == text
    } else {
        e is Network && e->Network_0@ == text
    }
}

/// `std::io::Error::kind() == StorageFull`: a full disk (from the OS:
/// ENOSPC on Unix, ERROR_DISK_FULL or ERROR_HANDLE_DISK_FULL on Windows).
#[verifier::external_body]
fn io_is_storage_full(e: &std::io::Error) -> bool {
    e.kind() == std::io::ErrorKind::StorageFull
}

/// `std::io::Error::raw_os_error().is_some()`: the error carries an OS
/// error code (it was not made up by a program).
#[verifier::external_body]
fn io_has_os_code(e: &std::io::Error) -> bool {
    e.raw_os_error().is_some()
}

/// `std::io::Error::kind() == NotFound`.
#[verifier::external_body]
pub(crate) fn io_is_not_found(e: &std::io::Error) -> bool {
    e.kind() == std::io::ErrorKind::NotFound
}

/// The `Display` text of an I/O error.
#[verifier::external_body]
fn io_error_text(e: &std::io::Error) -> String {
    format!("{e}")
}

/// `reqwest::Error::is_builder`: the request could not be built.
#[verifier::external_body]
fn reqwest_is_builder(e: &reqwest::Error) -> bool {
    e.is_builder()
}

/// `reqwest::Error::status`, as the numeric code.
#[verifier::external_body]
fn reqwest_status(e: &reqwest::Error) -> Option<u16> {
    e.status().map(|s| s.as_u16())
}

/// The `Display` text of a `reqwest::Error`.
#[verifier::external_body]
fn reqwest_error_text(e: &reqwest::Error) -> String {
    e.to_string()
}

impl EngineError {
    /// Stable identifier for UI mapping and logs.
    pub fn code(&self) -> (r: &'static str)
        ensures
            r@ == code_of(self),
    {
        match self {
            EngineError::InvalidUrl(_) => "INVALID_URL",
            EngineError::RangeNotSupported => "RANGE_NOT_SUPPORTED",
            EngineError::SourceChanged => "SOURCE_CHANGED",
            EngineError::DiskFull => "DISK_FULL",
            EngineError::HttpStatus { .. } => "HTTP_STATUS",
            EngineError::Network(_) => "NETWORK",
            EngineError::Tls(_) => "TLS",
            EngineError::Cancelled => "CANCELLED",
            EngineError::Io(_) => "IO",
            EngineError::InvalidResume(_) => "INVALID_RESUME",
            EngineError::Internal(_) => "INTERNAL",
        }
    }

    /// Worth retrying with backoff?
    pub fn is_transient(&self) -> (r: bool)
        ensures
            r == transient(self),
    {
        match self {
            EngineError::Network(_) => true,
            EngineError::HttpStatus { status } => *status == 429 || (500 <= *status
                && *status <= 599),
            _ => false,
        }
    }

    /// The error an I/O failure stands for, given whether it reports a full
    /// disk: [`EngineError::DiskFull`] if so, else the I/O error itself.
    pub fn from_storage_full(full: bool, e: std::io::Error) -> (r: EngineError)
        ensures
            full ==> r == EngineError::DiskFull,
            !full ==> r == EngineError::Io(e),
    {
        if full {
            EngineError::DiskFull
        } else {
            EngineError::Io(e)
        }
    }

    /// Map an I/O error, turning a full disk that the OS reported (its code
    /// is ENOSPC on Unix, ERROR_DISK_FULL on Windows) into
    /// [`EngineError::DiskFull`].
    pub fn from_io(e: std::io::Error) -> (r: EngineError)
        ensures
            r == EngineError::DiskFull || r == EngineError::Io(e),
    {
        let full = io_has_os_code(&e) && io_is_storage_full(&e);
        EngineError::from_storage_full(full, e)
    }

    /// The error a failed HTTP request stands for, given what it reports.
    pub fn from_request_failure(is_builder: bool, status: Option<u16>, text: String) -> (r:
        EngineError)
        ensures
            request_failure_kind(is_builder, status, text@, &r),
    {
        if is_builder {
            return EngineError::InvalidUrl(text);
        }
        if let Some(s) = status {
            return EngineError::HttpStatus { status: s };
        }
        let t = chars_of(text.as_str());
        let c1 = chars_of("certificate");
        let c2 = chars_of("tls");
        let c3 = chars_of("TLS");
        if contains_chars(&t, &c1) || contains_chars(&t, &c2) || contains_chars(&t, &c3) {
            EngineError::Tls(text)
        } else {
            EngineError::Network(text)
        }
    }

    /// A failed `reqwest` request as an engine error.
    pub fn from_reqwest(e: reqwest::Error) -> (r: EngineError)
        ensures
            r is InvalidUrl || r is HttpStatus || r is Tls || r is Network,
    {
        let b = reqwest_is_builder(&e);
        let s = reqwest_status(&e);
        let t = reqwest_error_text(&e);
        EngineError::from_request_failure(b, s, t)
    }

    /// The human-readable text (what `Display` shows).
    pub fn message(&self) -> (r: String)
        ensures
            !(self is Io) ==> r@ == message_of(self),
    {
        match self {
            EngineError::InvalidUrl(s) => concat("invalid URL: ", s.as_str()),
            EngineError::RangeNotSupported => String::from_str(
                "server does not support byte ranges",
            ),
            EngineError::SourceChanged => String::from_str(
                "the file on the server changed since the download started",
            ),
            EngineError::DiskFull => String::from_str("not enough disk space"),
            EngineError::HttpStatus { status } => {
                let n = decimal_string(*status as u64);
                concat("HTTP ", n.as_str())
            },
            EngineError::Network(s) => concat("network error: ", s.as_str()),
            EngineError::Tls(s) => concat("TLS error: ", s.as_str()),
            EngineError::Cancelled => String::from_str("cancelled"),
            EngineError::Io(e) => concat("I/O error: ", io_error_text(e).as_str()),
            EngineError::InvalidResume(s) => concat("invalid resume state: ", s.as_str()),
            EngineError::Internal(s) => concat("internal error: ", s.as_str()),
        }
    }
}

} // verus!
