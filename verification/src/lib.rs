//! A hierarchical namespace (a virtual filesystem) built on flat association
//! lists: name indexes map child names to object ids, and arenas map object
//! ids to the records that own the contents.  All tree semantics — unique
//! children, parent/child consistency, cascading delete — are maintained
//! explicitly and proved as invariants of the engine.

pub mod arena;
pub mod cascade;
pub mod children;
pub mod errors;
pub mod export;
pub mod fs;
pub mod index;
pub mod laws;
pub mod listing;
pub mod ops;
pub mod pathutil;
pub mod records;
pub mod remove;
pub mod rename;
pub mod resolve;
pub mod walk;

pub use crate::errors::WalrusFsError;
pub use crate::fs::WalrusFs;
pub use crate::index::KeyValueStringU64;
pub use crate::records::DirListObjectAnchor;
pub use crate::records::DirObjectAnchor;
pub use crate::records::DirObjectExAnchor;
pub use crate::records::FileObjectAnchor;
pub use crate::records::FileObjectExAnchor;
pub use crate::records::KeyValueU64DirObject;
pub use crate::records::KeyValueU64FileObject;
pub use crate::records::RecursiveDirListAnchor;

use vstd::prelude::*;

verus! {

/// Maximum byte length of a single bounded string (a tag, a content
/// reference); paths may span several components.
pub const MAX_STRING_LEN: usize = 64;

/// Maximum number of tags on one file or directory.
pub const MAX_TAGS: usize = 5;

} // verus!
