//! Where the app keeps its data and where downloads go by default.
use vstd::prelude::*;

use crate::file::{join_path, path_joined};

verus! {

/// The app-data folder name under the OS data dir.
pub const DATA_FOLDER: &'static str = "muzn-dm";

/// The database file name in the data folder.
pub const DB_FILE: &'static str = "mdm.db";

/// Resolved paths.
#[derive(Debug)]
pub struct AppPaths {
    /// `<OS data dir>/muzn-dm`.
    pub data_dir: String,
    /// `<data_dir>/mdm.db`.
    pub db: String,
    /// The OS Downloads folder, else the home folder.
    pub download_dir: String,
}

impl AppPaths {
    /// Build from the OS roots.
    pub fn from_roots(data_root: String, downloads: Option<String>, home: String) -> (r: AppPaths)
        ensures
            r.data_dir@ == path_joined(data_root@, DATA_FOLDER@),
            r.db@ == path_joined(path_joined(data_root@, DATA_FOLDER@), DB_FILE@),
            r.download_dir == match downloads {
                Some(d) => d,
                None => home,
            },
    {
        let data_dir = join_path(data_root.as_str(), DATA_FOLDER);
        let db = join_path(data_dir.as_str(), DB_FILE);
        AppPaths {
            db,
            data_dir,
            download_dir: match downloads {
                Some(d) => d,
                None => home,
            },
        }
    }
}

} // verus!
