//! The records the store keeps and the manager publishes.
use vstd::prelude::*;

use crate::text::{chars_of, eq_chars};

verus! {

#[verifier::external_type_specification]
#[verifier::external_body]
pub struct ExSystemTime(std::time::SystemTime);

/// `std::time::SystemTime::now()`.
#[verifier::external_body]
fn system_now() -> std::time::SystemTime {
    std::time::SystemTime::now()
}

/// `SystemTime::duration_since(UNIX_EPOCH)`, `None` for a time before it.
#[verifier::external_body]
fn since_epoch(t: &std::time::SystemTime) -> Option<std::time::Duration> {
    t.duration_since(std::time::UNIX_EPOCH).ok()
}

/// `Duration::as_millis`.
#[verifier::external_body]
fn duration_millis(d: &std::time::Duration) -> u128 {
    d.as_millis()
}

/// Milliseconds since the epoch as stored: the count cut to `i64` (as `as`
/// does), 0 for a clock before the epoch.
pub fn millis_as_stored(ms: Option<u128>) -> (r: i64)
    ensures
        r == match ms {
            Some(m) => m as i64,
            None => 0i64,
        },
{
    match ms {
        Some(m) => m as i64,
        None => 0,
    }
}

/// Milliseconds since the Unix epoch.
pub fn now_ms() -> i64 {
    let t = system_now();
    let ms = match since_epoch(&t) {
        Some(d) => Some(duration_millis(&d)),
        None => None,
    };
    millis_as_stored(ms)
}

/// `uuid::Uuid::new_v4().to_string()`: a random UUID, hyphenated, 36 characters.
#[verifier::external_body]
fn random_uuid() -> (r: String)
    ensures
        r@.len() == 36,
{
    uuid::Uuid::new_v4().to_string()
}

/// A download's identity (a random UUID).
#[derive(Debug, Eq, Hash)]
pub struct DownloadId(pub String);

impl PartialEq for DownloadId {
    fn eq(&self, other: &Self) -> (r: bool) {
        self.0 == other.0
    }
}

impl vstd::std_specs::cmp::PartialEqSpecImpl for DownloadId {
    open spec fn obeys_eq_spec() -> bool {
        true
    }

    open spec fn eq_spec(&self, other: &DownloadId) -> bool {
        self.0@ == other.0@
    }
}

impl Clone for DownloadId {
    fn clone(&self) -> (r: Self)
        ensures
            r == *self,
    {
        DownloadId(self.0.clone())
    }
}

impl DownloadId {
    /// A fresh random id.
    pub fn new() -> (r: DownloadId)
        ensures
            r.0@.len() == 36,
    {
        DownloadId(random_uuid())
    }

    /// The id as text.
    pub fn as_str(&self) -> (r: &str)
        ensures
            r@ == self.0@,
    {
        self.0.as_str()
    }
}

impl Default for DownloadId {
    /// A fresh random id.
    fn default() -> (r: Self)
        ensures
            r.0@.len() == 36,
    {
        DownloadId::new()
    }
}

/// Where a download is in its life. Mirrors the store's CHECK constraint.
#[derive(Clone, Copy, Debug, PartialEq, Eq, Structural)]
pub enum DownloadStatus {
    /// Waiting for a free slot.
    Queued,
    /// Asking the server about the file.
    Probing,
    /// Bytes are moving.
    Downloading,
    /// Stopped by the user or at shutdown; resumable.
    Paused,
    /// The file is in place under its final name.
    Completed,
    /// Stopped by an error; see `error_code`.
    Failed,
    /// Stopped by the user; partial data deleted.
    Cancelled,
    /// A finished torrent that is uploading.
    Seeding,
}

/// The stored text of a status.
pub open spec fn status_text(s: DownloadStatus) -> Seq<char> {
    match s {
        DownloadStatus::Queued => "QUEUED"@,
        DownloadStatus::Probing => "PROBING"@,
        DownloadStatus::Downloading => "DOWNLOADING"@,
        DownloadStatus::Paused => "PAUSED"@,
        DownloadStatus::Completed => "COMPLETED"@,
        DownloadStatus::Failed => "FAILED"@,
        DownloadStatus::Cancelled => "CANCELLED"@,
        DownloadStatus::Seeding => "SEEDING"@,
    }
}

/// The status a stored text names, if any.
pub open spec fn status_from_text(t: Seq<char>) -> Option<DownloadStatus> {
    if t == "QUEUED"@ {
        Some(DownloadStatus::Queued)
    } else if t == "PROBING"@ {
        Some(DownloadStatus::Probing)
    } else if t == "DOWNLOADING"@ {
        Some(DownloadStatus::Downloading)
    } else if t == "PAUSED"@ {
        Some(DownloadStatus::Paused)
    } else if t == "COMPLETED"@ {
        Some(DownloadStatus::Completed)
    } else if t == "FAILED"@ {
        Some(DownloadStatus::Failed)
    } else if t == "CANCELLED"@ {
        Some(DownloadStatus::Cancelled)
    } else if t == "SEEDING"@ {
        Some(DownloadStatus::Seeding)
    } else {
        None
    }
}

impl DownloadStatus {
    /// The stored text.
    pub fn as_str(self) -> (r: &'static str)
        ensures
            r@ == status_text(self),
    {
        match self {
            DownloadStatus::Queued => "QUEUED",
            DownloadStatus::Probing => "PROBING",
            DownloadStatus::Downloading => "DOWNLOADING",
            DownloadStatus::Paused => "PAUSED",
            DownloadStatus::Completed => "COMPLETED",
            DownloadStatus::Failed => "FAILED",
            DownloadStatus::Cancelled => "CANCELLED",
            DownloadStatus::Seeding => "SEEDING",
        }
    }

    /// Parse the stored text.
    pub fn parse(s: &str) -> (r: Option<DownloadStatus>)
        ensures
            r == status_from_text(s@),
    {
        let v = chars_of(s);
        if eq_chars(&v, &chars_of("QUEUED")) {
            Some(DownloadStatus::Queued)
        } else if eq_chars(&v, &chars_of("PROBING")) {
            Some(DownloadStatus::Probing)
        } else if eq_chars(&v, &chars_of("DOWNLOADING")) {
            Some(DownloadStatus::Downloading)
        } else if eq_chars(&v, &chars_of("PAUSED")) {
            Some(DownloadStatus::Paused)
        } else if eq_chars(&v, &chars_of("COMPLETED")) {
            Some(DownloadStatus::Completed)
        } else if eq_chars(&v, &chars_of("FAILED")) {
            Some(DownloadStatus::Failed)
        } else if eq_chars(&v, &chars_of("CANCELLED")) {
            Some(DownloadStatus::Cancelled)
        } else if eq_chars(&v, &chars_of("SEEDING")) {
            Some(DownloadStatus::Seeding)
        } else {
            None
        }
    }
}

/// Every status reads back from its stored text, and a text names at most
/// one status: `parse(as_str(s)) == Some(s)`, and `parse(t) == Some(s)`
/// only for `t == as_str(s)`.
pub proof fn status_text_round_trip(s: DownloadStatus, t: Seq<char>)
    ensures
        status_from_text(status_text(s)) == Some(s),
        status_from_text(t) == Some(s) ==> t == status_text(s),
{
    reveal_strlit("QUEUED");
    reveal_strlit("PROBING");
    reveal_strlit("DOWNLOADING");
    reveal_strlit("PAUSED");
    reveal_strlit("COMPLETED");
    reveal_strlit("FAILED");
    reveal_strlit("CANCELLED");
    reveal_strlit("SEEDING");
    assert("QUEUED"@ != "PROBING"@ && "QUEUED"@ != "DOWNLOADING"@ && "QUEUED"@ != "PAUSED"@ && "QUEUED"@ != "COMPLETED"@ && "QUEUED"@ != "FAILED"@ && "QUEUED"@ != "CANCELLED"@ && "QUEUED"@ != "SEEDING"@) by {
        assert("QUEUED"@[0] != "PROBING"@[0]);
        assert("QUEUED"@[0] != "DOWNLOADING"@[0]);
        assert("QUEUED"@[0] != "PAUSED"@[0]);
        assert("QUEUED"@[0] != "COMPLETED"@[0]);
        assert("QUEUED"@[0] != "FAILED"@[0]);
        assert("QUEUED"@[0] != "CANCELLED"@[0]);
        assert("QUEUED"@[0] != "SEEDING"@[0]);
    }
    assert("PROBING"@ != "DOWNLOADING"@ && "PROBING"@ != "PAUSED"@ && "PROBING"@ != "COMPLETED"@ && "PROBING"@ != "FAILED"@ && "PROBING"@ != "CANCELLED"@ && "PROBING"@ != "SEEDING"@) by {
        assert("PROBING"@[0] != "DOWNLOADING"@[0]);
        assert("PROBING"@[1] != "PAUSED"@[1]);
        assert("PROBING"@[0] != "COMPLETED"@[0]);
        assert("PROBING"@[0] != "FAILED"@[0]);
        assert("PROBING"@[0] != "CANCELLED"@[0]);
        assert("PROBING"@[0] != "SEEDING"@[0]);
    }
    assert("DOWNLOADING"@ != "PAUSED"@ && "DOWNLOADING"@ != "COMPLETED"@ && "DOWNLOADING"@ != "FAILED"@ && "DOWNLOADING"@ != "CANCELLED"@ && "DOWNLOADING"@ != "SEEDING"@) by {
        assert("DOWNLOADING"@[0] != "PAUSED"@[0]);
        assert("DOWNLOADING"@[0] != "COMPLETED"@[0]);
        assert("DOWNLOADING"@[0] != "FAILED"@[0]);
        assert("DOWNLOADING"@[0] != "CANCELLED"@[0]);
        assert("DOWNLOADING"@[0] != "SEEDING"@[0]);
    }
    assert("PAUSED"@ != "COMPLETED"@ && "PAUSED"@ != "FAILED"@ && "PAUSED"@ != "CANCELLED"@ && "PAUSED"@ != "SEEDING"@) by {
        assert("PAUSED"@[0] != "COMPLETED"@[0]);
        assert("PAUSED"@[0] != "FAILED"@[0]);
        assert("PAUSED"@[0] != "CANCELLED"@[0]);
        assert("PAUSED"@[0] != "SEEDING"@[0]);
    }
    assert("COMPLETED"@ != "FAILED"@ && "COMPLETED"@ != "CANCELLED"@ && "COMPLETED"@ != "SEEDING"@) by {
        assert("COMPLETED"@[0] != "FAILED"@[0]);
        assert("COMPLETED"@[1] != "CANCELLED"@[1]);
        assert("COMPLETED"@[0] != "SEEDING"@[0]);
    }
    assert("FAILED"@ != "CANCELLED"@ && "FAILED"@ != "SEEDING"@) by {
        assert("FAILED"@[0] != "CANCELLED"@[0]);
        assert("FAILED"@[0] != "SEEDING"@[0]);
    }
    assert("CANCELLED"@ != "SEEDING"@) by {
        assert("CANCELLED"@[0] != "SEEDING"@[0]);
    }
}

/// What kind of transfer a row is.
#[derive(Clone, Copy, Debug, PartialEq, Eq, Structural)]
pub enum DownloadKind {
    /// HTTP(S).
    Http,
    /// BitTorrent.
    Torrent,
}

/// An extra request header saved with a download.
#[derive(Debug)]
pub struct Header {
    /// Header name.
    pub name: String,
    /// Header value.
    pub value: String,
}

impl Clone for Header {
    fn clone(&self) -> (r: Self)
        ensures
            r == *self,
    {
        Header { name: self.name.clone(), value: self.value.clone() }
    }
}

/// A browser cookie saved with a download.
#[derive(Debug)]
pub struct SavedCookie {
    /// Cookie name.
    pub name: String,
    /// Cookie value.
    pub value: String,
}

impl Clone for SavedCookie {
    fn clone(&self) -> (r: Self)
        ensures
            r == *self,
    {
        SavedCookie { name: self.name.clone(), value: self.value.clone() }
    }
}

/// A request to add a download.
#[derive(Debug)]
pub struct NewDownload {
    /// http or https URL.
    pub url: String,
    /// Target folder; `None` = the settings' download folder.
    pub dir: Option<String>,
    /// Override the server's file name.
    pub filename: Option<String>,
    /// The page the link was on.
    pub referrer: Option<String>,
    /// Extra headers.
    pub headers: Vec<Header>,
    /// Browser cookies for the URL.
    pub cookies: Vec<SavedCookie>,
    /// Add as PAUSED instead of QUEUED.
    pub start_paused: bool,
}

impl Default for NewDownload {
    fn default() -> (r: Self)
        ensures
            r.url@.len() == 0,
            r.dir is None,
            r.filename is None,
            r.referrer is None,
            r.headers@.len() == 0,
            r.cookies@.len() == 0,
            !r.start_paused,
    {
        NewDownload {
            url: String::new(),
            dir: None,
            filename: None,
            referrer: None,
            headers: Vec::new(),
            cookies: Vec::new(),
            start_paused: false,
        }
    }
}

/// What a probe learned, as the store keeps it.
#[derive(Debug)]
pub struct ProbeInfo {
    /// URL after redirects.
    pub final_url: String,
    /// File name actually used (may be `name (1).ext`).
    pub filename: String,
    /// Total size when known.
    pub size: Option<u64>,
    /// ETag.
    pub etag: Option<String>,
    /// Last-Modified.
    pub last_modified: Option<String>,
    /// MIME type.
    pub mime: Option<String>,
}

/// One download as stored and published.
#[derive(Debug)]
pub struct DownloadRow {
    /// Identity.
    pub id: DownloadId,
    /// HTTP or torrent.
    pub kind: DownloadKind,
    /// The URL as added.
    pub url: String,
    /// The URL after redirects, once probed.
    pub final_url: Option<String>,
    /// File name, once known.
    pub filename: Option<String>,
    /// Target folder.
    pub dir: String,
    /// Total size when known.
    pub size: Option<u64>,
    /// Bytes saved (durable) so far; the size when completed.
    pub downloaded: u64,
    /// Current status.
    pub status: DownloadStatus,
    /// ETag at the first probe.
    pub etag: Option<String>,
    /// Last-Modified at the first probe.
    pub last_modified: Option<String>,
    /// MIME type.
    pub mime: Option<String>,
    /// Referring page.
    pub referrer: Option<String>,
    /// Extra headers.
    pub headers: Vec<Header>,
    /// Cookies.
    pub cookies: Vec<SavedCookie>,
    /// Stable error code when failed.
    pub error_code: Option<String>,
    /// Human-readable error.
    pub error_message: Option<String>,
    /// Unix ms.
    pub created_at: i64,
    /// Unix ms.
    pub updated_at: i64,
    /// Unix ms, when completed.
    pub completed_at: Option<i64>,
}

impl Clone for DownloadRow {
    fn clone(&self) -> (r: Self)
        ensures
            r.id == self.id,
            r.kind == self.kind,
            r.url == self.url,
            r.final_url == self.final_url,
            r.filename == self.filename,
            r.dir == self.dir,
            r.size == self.size,
            r.downloaded == self.downloaded,
            r.status == self.status,
            r.etag == self.etag,
            r.last_modified == self.last_modified,
            r.mime == self.mime,
            r.referrer == self.referrer,
            r.headers@ == self.headers@,
            r.cookies@ == self.cookies@,
            r.error_code == self.error_code,
            r.error_message == self.error_message,
            r.created_at == self.created_at,
            r.updated_at == self.updated_at,
            r.completed_at == self.completed_at,
    {
        DownloadRow {
            id: self.id.clone(),
            kind: self.kind,
            url: self.url.clone(),
            final_url: self.final_url.clone(),
            filename: self.filename.clone(),
            dir: self.dir.clone(),
            size: self.size,
            downloaded: self.downloaded,
            status: self.status,
            etag: self.etag.clone(),
            last_modified: self.last_modified.clone(),
            mime: self.mime.clone(),
            referrer: self.referrer.clone(),
            headers: self.headers.clone(),
            cookies: self.cookies.clone(),
            error_code: self.error_code.clone(),
            error_message: self.error_message.clone(),
            created_at: self.created_at,
            updated_at: self.updated_at,
            completed_at: self.completed_at,
        }
    }
}

} // verus!
