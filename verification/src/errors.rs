//! The error taxonomy of the namespace engine.

use vstd::prelude::*;

verus! {

/// Everything an operation can report instead of succeeding.
///
/// `ArenaMismatchError` is an internal-consistency fault (an id present in a
/// name index has no backing arena record); the engine's invariants make it
/// unreachable, but the defensive checks remain and report it.
/// `Unauthorized` is surfaced by the external access-control collaborator and
/// is never generated by the engine itself.
#[derive(Clone, Copy, Debug, PartialEq, Eq, Structural)]
pub enum WalrusFsError {
    PathError,
    ArenaMismatchError,
    FileAlreadyExists,
    DirectoryAlreadyExists,
    Unauthorized,
    PathNotFound,
    StringTooLong,
    TooManyTags,
    RenamePathMismatch,
    InvalidPathOperationOnRoot,
}

} // verus!
