//! One error type for the download core, with a stable code for the UI.
use vstd::prelude::*;

use crate::error::{code_of, message_of, EngineError};
use crate::text::concat;

verus! {

#[verifier::external_type_specification]
#[verifier::external_body]
pub struct ExSqlError(rusqlite::Error);

#[verifier::external_type_specification]
#[verifier::external_body]
pub struct ExJsonError(serde_json::Error);

/// Everything the core can refuse or fail with.
#[derive(Debug)]
pub enum CoreError {
    /// SQLite failed.
    Db(rusqlite::Error),
    /// No download with this id.
    NotFound(String),
    /// The URL cannot be downloaded (not http/https, not parseable).
    InvalidUrl(String),
    /// The action does not fit the download's state (e.g. cancel a completed one).
    InvalidState(String),
    /// A settings value is out of range or unusable.
    Settings(String),
    /// The engine refused or failed.
    Engine(EngineError),
    /// File-system error outside the engine (deleting a part file…).
    Io(std::io::Error),
    /// A stored JSON column could not be read.
    Json(serde_json::Error),
}

/// The stable code of each error; engine errors keep the engine's code.
pub open spec fn core_code(e: &CoreError) -> Seq<char> {
    match e {
        CoreError::Db(_) => "DB"@,
        CoreError::NotFound(_) => "NOT_FOUND"@,
        CoreError::InvalidUrl(_) => "INVALID_URL"@,
        CoreError::InvalidState(_) => "INVALID_STATE"@,
        CoreError::Settings(_) => "SETTINGS"@,
        CoreError::Engine(x) => code_of(x),
        CoreError::Io(_) => "IO"@,
        CoreError::Json(_) => "JSON"@,
    }
}

/// The text of the errors whose text this library writes.
pub open spec fn core_message(e: &CoreError) -> Option<Seq<char>> {
    match e {
        CoreError::NotFound(s) => Some("not found: "@ + s@),
        CoreError::InvalidUrl(s) => Some("invalid URL: "@ + s@),
        CoreError::InvalidState(s) => Some("invalid state: "@ + s@),
        CoreError::Settings(s) => Some("settings: "@ + s@),
        CoreError::Engine(x) => if x is Io { None } else { Some(message_of(x)) },
        _ => None,
    }
}

/// The `Display` text of a `rusqlite::Error`.
#[verifier::external_body]
fn sql_error_text(e: &rusqlite::Error) -> String {
    format!("{e}")
}

/// The `Display` text of a `serde_json::Error`.
#[verifier::external_body]
fn json_error_text(e: &serde_json::Error) -> String {
    format!("{e}")
}

/// The `Display` text of an I/O error.
#[verifier::external_body]
fn io_text(e: &std::io::Error) -> String {
    format!("{e}")
}

impl CoreError {
    /// Stable identifier for UI mapping; engine errors keep the engine's code.
    pub fn code(&self) -> (r: &'static str)
        ensures
            r@ == core_code(self),
    {
        match self {
            CoreError::Db(_) => "DB",
            CoreError::NotFound(_) => "NOT_FOUND",
            CoreError::InvalidUrl(_) => "INVALID_URL",
            CoreError::InvalidState(_) => "INVALID_STATE",
            CoreError::Settings(_) => "SETTINGS",
            CoreError::Engine(e) => e.code(),
            CoreError::Io(_) => "IO",
            CoreError::Json(_) => "JSON",
        }
    }

    /// The human-readable text (what `Display` shows).
    pub fn message(&self) -> (r: String)
        ensures
            core_message(self) matches Some(m) ==> r@ == m,
    {
        match self {
            CoreError::Db(e) => concat("database: ", sql_error_text(e).as_str()),
            CoreError::NotFound(s) => concat("not found: ", s.as_str()),
            CoreError::InvalidUrl(s) => concat("invalid URL: ", s.as_str()),
            CoreError::InvalidState(s) => concat("invalid state: ", s.as_str()),
            CoreError::Settings(s) => concat("settings: ", s.as_str()),
            CoreError::Engine(e) => e.message(),
            CoreError::Io(e) => concat("I/O: ", io_text(e).as_str()),
            CoreError::Json(e) => concat("json: ", json_error_text(e).as_str()),
        }
    }
}

} // verus!
