//! Segmented HTTP download logic of Muzn Download Manager: how a file is
//! split, resumed, retried and named, and the rules the download queue keeps.
use vstd::prelude::*;

pub mod plan;
pub mod text;
pub mod error;
pub mod segment;
pub mod file;
pub mod filename;
pub mod request;
pub mod urls;
pub mod probe;
pub mod engine;
pub mod download;
pub mod layout;
pub mod model;
pub mod core_error;
pub mod settings;
pub mod events;
pub mod api;
pub mod paths;
pub mod tray;
pub mod store;
pub mod manager;

verus! {
}
