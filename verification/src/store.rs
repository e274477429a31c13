//! The rules of the download table that do not need the database: schema
//! versions, how a stored row reads back, which queued row runs next.
use vstd::prelude::*;

use crate::core_error::CoreError;
use crate::model::{
    status_from_text, DownloadId, DownloadKind, DownloadRow, DownloadStatus, Header, SavedCookie,
};
use crate::settings::Settings;
use crate::text::{concat, decimal, decimal_string};

verus! {

/// Newest schema this build knows.
pub const SCHEMA_VERSION: i64 = 1;

/// What opening a database at schema `version` does: refuse a newer
/// schema, create the tables on an empty one (`Ok(true)`), else nothing.
pub fn migration(version: i64) -> (r: Result<bool, CoreError>)
    ensures
        version > SCHEMA_VERSION ==> r is Err && r->Err_0 is InvalidState,
        version < 1 ==> r == Ok::<bool, CoreError>(true),
        1 <= version <= SCHEMA_VERSION ==> r == Ok::<bool, CoreError>(false),
{
    if version > SCHEMA_VERSION {
        let m = concat("database schema ", decimal_string(version as u64).as_str());
        let m = concat(m.as_str(), " is newer than this build (");
        let m = concat(m.as_str(), decimal_string(SCHEMA_VERSION as u64).as_str());
        return Err(CoreError::InvalidState(concat(m.as_str(), ")")));
    }
    Ok(version < 1)
}

/// An update that touched no row means the id is unknown.
pub fn found(n: usize, id: &DownloadId) -> (r: Result<(), CoreError>)
    ensures
        n == 0 ==> r is Err && r->Err_0 is NotFound && r->Err_0->NotFound_0@ == id.0@,
        n != 0 ==> r is Ok,
{
    if n == 0 {
        Err(CoreError::NotFound(id.0.clone()))
    } else {
        Ok(())
    }
}

/// The completion time stored with a status: `now` for COMPLETED, none otherwise.
pub fn completed_at(status: DownloadStatus, now: i64) -> (r: Option<i64>)
    ensures
        status == DownloadStatus::Completed ==> r == Some(now),
        status != DownloadStatus::Completed ==> r is None,
{
    if status == DownloadStatus::Completed {
        Some(now)
    } else {
        None
    }
}

/// A row as the database returns it; the JSON columns already read.
#[derive(Debug)]
pub struct StoredRow {
    pub id: String,
    pub kind: String,
    pub url: String,
    pub final_url: Option<String>,
    pub filename: Option<String>,
    pub dir: String,
    pub size: Option<i64>,
    pub status: String,
    pub etag: Option<String>,
    pub last_modified: Option<String>,
    pub mime: Option<String>,
    pub referrer: Option<String>,
    pub headers: Vec<Header>,
    pub cookies: Vec<SavedCookie>,
    pub error_code: Option<String>,
    pub error_message: Option<String>,
    pub created_at: i64,
    pub updated_at: i64,
    pub completed_at: Option<i64>,
    /// Sum of the saved segments' `downloaded`.
    pub seg_sum: i64,
}

/// The bytes a row reports: its size once completed (0 when unknown), the
/// sum of its saved segments before.
pub open spec fn row_downloaded(status: DownloadStatus, size: Option<u64>, seg_sum: i64) -> u64 {
    if status == DownloadStatus::Completed {
        match size {
            Some(s) => s,
            None => 0,
        }
    } else {
        seg_sum as u64
    }
}

/// Read a stored row back: its status text must name a status; a kind
/// other than `torrent` is HTTP; sizes and sums are read as unsigned.
pub fn decode_row(raw: StoredRow) -> (r: Result<DownloadRow, CoreError>)
    ensures
        status_from_text(raw.status@) is None ==> r is Err && r->Err_0 is InvalidState,
        status_from_text(raw.status@) matches Some(st) ==> r is Ok && {
            let row = r->Ok_0;
            let size: Option<u64> = match raw.size {
                Some(s) => Some(s as u64),
                None => None,
            };
            &&& row.id.0 == raw.id
            &&& row.kind == (if raw.kind@ == "torrent"@ { DownloadKind::Torrent } else { DownloadKind::Http })
            &&& row.url == raw.url
            &&& row.final_url == raw.final_url
            &&& row.filename == raw.filename
            &&& row.dir == raw.dir
            &&& row.size == size
            &&& row.downloaded == row_downloaded(st, size, raw.seg_sum)
            &&& row.status == st
            &&& row.etag == raw.etag
            &&& row.last_modified == raw.last_modified
            &&& row.mime == raw.mime
            &&& row.referrer == raw.referrer
            &&& row.headers == raw.headers
            &&& row.cookies == raw.cookies
            &&& row.error_code == raw.error_code
            &&& row.error_message == raw.error_message
            &&& row.created_at == raw.created_at
            &&& row.updated_at == raw.updated_at
            &&& row.completed_at == raw.completed_at
        },
{
    let status = match DownloadStatus::parse(raw.status.as_str()) {
        Some(s) => s,
        None => return Err(CoreError::InvalidState(concat("unknown status ", raw.status.as_str()))),
    };
    let size: Option<u64> = match raw.size {
        Some(s) => Some(s as u64),
        None => None,
    };
    let kind = if raw.kind == String::from_str("torrent") {
        DownloadKind::Torrent
    } else {
        DownloadKind::Http
    };
    let downloaded = if status == DownloadStatus::Completed {
        match size {
            Some(s) => s,
            None => 0,
        }
    } else {
        raw.seg_sum as u64
    };
    Ok(DownloadRow {
        id: DownloadId(raw.id),
        kind,
        url: raw.url,
        final_url: raw.final_url,
        filename: raw.filename,
        dir: raw.dir,
        size,
        downloaded,
        status,
        etag: raw.etag,
        last_modified: raw.last_modified,
        mime: raw.mime,
        referrer: raw.referrer,
        headers: raw.headers,
        cookies: raw.cookies,
        error_code: raw.error_code,
        error_message: raw.error_message,
        created_at: raw.created_at,
        updated_at: raw.updated_at,
        completed_at: raw.completed_at,
    })
}

/// `id` is one of `ids`.
pub open spec fn id_listed(id: DownloadId, ids: Seq<DownloadId>) -> bool {
    exists|i: int| 0 <= i < ids.len() && (#[trigger] ids[i]).0@ == id.0@
}

pub(crate) fn id_in(id: &DownloadId, ids: &Vec<DownloadId>) -> (r: bool)
    ensures
        r == id_listed(*id, ids@),
{
    let mut i: usize = 0;
    while i < ids.len()
        invariant
            i <= ids.len(),
            forall|k: int| 0 <= k < i ==> (#[trigger] ids@[k]).0@ != id.0@,
        decreases ids.len() - i,
    {
        if ids[i] == *id {
            return true;
        }
        i = i + 1;
    }
    false
}

/// The oldest queued row not in `exclude`, given the queued ids oldest first.
pub fn next_queued_of(queued: &Vec<DownloadId>, exclude: &Vec<DownloadId>) -> (r: Option<DownloadId>)
    ensures
        r is None <==> forall|i: int| 0 <= i < queued.len() ==> id_listed(#[trigger] queued@[i], exclude@),
        r matches Some(id) ==> exists|i: int|
            0 <= i < queued.len() && #[trigger] queued@[i] == id && !id_listed(id, exclude@) && forall|j: int|
                0 <= j < i ==> id_listed(#[trigger] queued@[j], exclude@),
{
    let mut i: usize = 0;
    while i < queued.len()
        invariant
            i <= queued.len(),
            forall|j: int| 0 <= j < i ==> id_listed(#[trigger] queued@[j], exclude@),
        decreases queued.len() - i,
    {
        if !id_in(&queued[i], exclude) {
            let id = queued[i].clone();
            assert(queued@[i as int] == id);
            return Some(id);
        }
        i = i + 1;
    }
    None
}

/// Settings as loaded: the saved ones, or the defaults with the given
/// download folder when none were saved.
pub fn settings_or_default(saved: Option<Settings>, default_download_dir: &str) -> (r: Settings)
    ensures
        saved matches Some(s) ==> r == s,
        saved is None ==> r.download_dir@ == default_download_dir@ && r.max_connections == 8
            && r.max_parallel == 3 && r.user_agent is None && r.proxy is System,
{
    match saved {
        Some(s) => s,
        None => {
            let mut d = Settings::default();
            d.download_dir = String::from_str(default_download_dir);
            d
        },
    }
}

} // verus!
