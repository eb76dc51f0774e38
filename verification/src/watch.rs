//! The selector for the filesystem change-notification subsystem. The
//! watcher itself is an external collaborator run by the host; the library
//! only defines which events a caller asked for.

use vstd::prelude::*;

verus! {

/// Which filesystem events a watch request asks for; `All` (and an absent
/// selector) asks for every kind.
#[derive(Clone, Copy, Debug, PartialEq, Eq, Structural)]
pub enum WatchTarget {
    FileCreation,
    FileDeletion,
    FileModification,
    FileRename,
    FolderCreation,
    FolderDeletion,
    FolderRename,
    All,
}

} // verus!
