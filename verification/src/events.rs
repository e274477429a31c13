//! What the manager announces, and which window event carries each.
use vstd::prelude::*;

use crate::model::{DownloadId, DownloadRow, DownloadStatus};
use crate::plan::SegmentState;

verus! {

/// One segment as the UI draws it.
#[derive(Clone, Copy, Debug, PartialEq, Eq, Structural)]
pub struct SegmentView {
    /// First byte.
    pub start: u64,
    /// Last byte, inclusive.
    pub end: u64,
    /// Bytes written from `start`.
    pub downloaded: u64,
}

impl SegmentView {
    /// The UI's view of a segment.
    pub fn of(s: &SegmentState) -> (r: SegmentView)
        ensures
            r == (SegmentView { start: s.start, end: s.end, downloaded: s.downloaded }),
    {
        SegmentView { start: s.start, end: s.end, downloaded: s.downloaded }
    }

    /// The UI's view of every segment, in order.
    pub fn of_all(segs: &Vec<SegmentState>) -> (r: Vec<SegmentView>)
        ensures
            r.len() == segs.len(),
            forall|i: int|
                0 <= i < segs.len() ==> #[trigger] r@[i] == (SegmentView {
                    start: segs@[i].start,
                    end: segs@[i].end,
                    downloaded: segs@[i].downloaded,
                }),
    {
        let mut r: Vec<SegmentView> = Vec::new();
        let mut i: usize = 0;
        while i < segs.len()
            invariant
                i <= segs.len(),
                r.len() == i,
                forall|k: int|
                    0 <= k < i ==> #[trigger] r@[k] == (SegmentView {
                        start: segs@[k].start,
                        end: segs@[k].end,
                        downloaded: segs@[k].downloaded,
                    }),
            decreases segs.len() - i,
        {
            r.push(SegmentView::of(&segs[i]));
            i = i + 1;
        }
        r
    }
}

/// Something changed.
#[derive(Clone, Debug)]
pub enum ManagerEvent {
    /// A download was added.
    Added {
        /// The new row.
        download: DownloadRow,
    },
    /// A row changed (status, probe result, name).
    Updated {
        /// The row as it is now.
        download: DownloadRow,
    },
    /// Live progress of a running download (every engine update, ~4 per second).
    Progress {
        /// Which download.
        id: DownloadId,
        /// Total size when known.
        total: Option<u64>,
        /// Bytes written.
        downloaded: u64,
        /// Bytes per second.
        speed_bps: u64,
        /// Seconds left.
        eta_secs: Option<u64>,
        /// The segment map.
        segments: Vec<SegmentView>,
    },
    /// A row was removed.
    Removed {
        /// Which download.
        id: DownloadId,
    },
    /// Something the user should read (e.g. "starting over").
    Notice {
        /// Which download.
        id: DownloadId,
        /// Plain English.
        message: String,
    },
}

/// Live progress of a running download (`ManagerEvent::Progress`).
pub const PROGRESS: &'static str = "download:progress";
/// Every other manager event: added / updated / removed / notice.
pub const STATUS: &'static str = "download:status";
/// Events were lost (the forwarder lagged): the UI reloads the list.
pub const RESYNC: &'static str = "download:resync";

/// Which window event carries a manager event: progress on its own, everything else as status.
pub fn event_name(e: &ManagerEvent) -> (r: &'static str)
    ensures
        e is Progress ==> r@ == PROGRESS@,
        !(e is Progress) ==> r@ == STATUS@,
{
    match e {
        ManagerEvent::Progress { .. } => PROGRESS,
        _ => STATUS,
    }
}

/// The file name to announce when this event is a download completing (its
/// URL when it has no name yet); nothing for any other event.
pub fn completed_name(e: &ManagerEvent) -> (r: Option<&str>)
    ensures
        match e {
            ManagerEvent::Updated { download } => if download.status == DownloadStatus::Completed {
                r is Some && r->0@ == match download.filename {
                    Some(f) => f@,
                    None => download.url@,
                }
            } else {
                r is None
            },
            _ => r is None,
        },
{
    match e {
        ManagerEvent::Updated { download } => {
            if download.status == DownloadStatus::Completed {
                match &download.filename {
                    Some(f) => Some(f.as_str()),
                    None => Some(download.url.as_str()),
                }
            } else {
                None
            }
        },
        _ => None,
    }
}

} // verus!
