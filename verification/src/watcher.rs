//! The file watcher's decision rule: which filesystem notifications count as
//! a content change of the watched program file and must trigger a reload.
//!
//! Reading the file and receiving the notifications is plumbing around the
//! library; this module fixes which events are acted on, so that an edit, a
//! truncate-and-rewrite, a delete-and-recreate or an atomic rename into
//! place each produce exactly one reload, and a mere read produces none.

use vstd::prelude::*;

verus! {

/// A filesystem notification about the watched file's directory, reduced to
/// the distinctions the reload rule needs.
#[derive(Clone, Copy, Debug, PartialEq, Eq, Structural)]
pub enum FileEventKind {
    /// The file's data changed (a write, a truncate, a flush of new bytes).
    DataModified,
    /// Something was renamed into place at this path.
    RenamedInto,
    /// Something was renamed away from this path.
    RenamedAway,
    /// A file was created.
    Created,
    /// A file was removed.
    Removed,
    /// The file was only read, or its metadata touched.
    Accessed,
    /// Any other notification.
    Other,
}

/// Whether one notification must trigger a reload of the watched file:
/// exactly when it touches the watched path and reports a data modification
/// or a rename into place.  Reads, metadata changes, removals and events on
/// other files never do.
pub fn is_relevant_change(kind: FileEventKind, touches_watched_path: bool) -> (relevant: bool)
    ensures
        relevant == (touches_watched_path && (kind == FileEventKind::DataModified || kind
            == FileEventKind::RenamedInto)),
{
    touches_watched_path && match kind {
        FileEventKind::DataModified => true,
        FileEventKind::RenamedInto => true,
        _ => false,
    }
}

} // verus!
