//! What the window needs to know of the tray.
use vstd::prelude::*;

verus! {

/// Whether the app got a tray icon: without one, closing the window quits.
pub struct TrayState(pub bool);

} // verus!
