//! Classification of filesystem change notifications.
//!
//! A notification carries a change-kind tag. The ingestion loop must react
//! only to kinds that mean "a new, fully-written file appeared": a plain
//! file creation, or a rename that moved a file into the watched directory.
//! Everything else (content modification, deletion, a rename out of the
//! directory, or any other kind) is ignored.

use vstd::prelude::*;

verus! {

/// The kind of a filesystem change notification, as the ingestion logic
/// sees it. The process layer translates the OS notification kind into
/// this tag before handing it to the library.
#[derive(Clone, Copy, Debug, PartialEq, Eq, Structural)]
pub enum FileChangeKind {
    /// A new file was created in the watched directory.
    Creation,
    /// The contents of an existing file changed.
    ContentModification,
    /// A file was deleted.
    Deletion,
    /// A file was renamed away from its watched name.
    RenameFrom,
    /// A file was renamed into the watched directory.
    RenameInto,
    /// Any other kind of notification.
    Other,
}

/// A change kind is relevant exactly when it announces a file that is new
/// to the watched directory: a creation, or a rename into it.
pub open spec fn spec_is_relevant(kind: FileChangeKind) -> bool {
    kind == FileChangeKind::Creation || kind == FileChangeKind::RenameInto
}

/// Decides whether a notification of the given kind should trigger
/// ingestion: true exactly for creation and rename-into kinds.
pub fn is_relevant_event(kind: &FileChangeKind) -> (r: bool)
    ensures
        r == spec_is_relevant(*kind),
{
    matches!(kind, FileChangeKind::Creation | FileChangeKind::RenameInto)
}

/// The per-path routing decision of the ingestion loop: a path from a
/// notification is processed exactly when the notification's kind is
/// relevant and the path currently refers to an existing regular file.
pub fn should_process(kind: &FileChangeKind, is_regular_file: bool) -> (r: bool)
    ensures
        r == (spec_is_relevant(*kind) && is_regular_file),
{
    is_relevant_event(kind) && is_regular_file
}

} // verus!
