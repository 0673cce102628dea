//! The engine's global guarantees, stated on their own so that a reader
//! sees them without reassembling them from the operations' contracts.

use vstd::prelude::*;
use crate::fs::WalrusFs;
use crate::index::unique_keys;

verus! {

/// Uniqueness of allocation: in a well-formed namespace every live id is
/// at most the counter, so the id a create operation assigns — one more
/// than the counter it found — has never been issued to any object, live
/// or deleted: the counter never decreases and ids are never reused.
pub proof fn lemma_fresh_id_never_issued(fs: WalrusFs, id: u64)
    requires
        fs.wf(),
        id > fs.obj_id_counter,
    ensures
        !fs.files().contains_key(id),
        !fs.dirs().contains_key(id),
{
}

/// Arena consistency: in a well-formed namespace — and every operation,
/// successful or failed, leaves the namespace well-formed — every id in
/// any name index has a record in the matching arena.
pub proof fn lemma_wf_arena_consistency(fs: WalrusFs, o: Option<u64>, n: Seq<char>)
    requires
        fs.wf(),
        fs.owner_ok(o),
    ensures
        fs.file_index_at(o).contains_key(n) ==> fs.files().contains_key(fs.file_index_at(o)[n]),
        fs.dir_index_at(o).contains_key(n) ==> fs.dirs().contains_key(fs.dir_index_at(o)[n]),
{
    if fs.file_index_at(o).contains_key(n) {
        fs.lemma_file_lookup_backed(o, n);
    }
    if fs.dir_index_at(o).contains_key(n) {
        fs.lemma_dir_lookup_backed(o, n);
    }
}

/// Name uniqueness: in a well-formed namespace no two bindings of one
/// index — the root's or any directory record's — carry the same name.
pub proof fn lemma_wf_name_uniqueness(fs: WalrusFs)
    requires
        fs.wf(),
    ensures
        unique_keys(fs.root_children_files@),
        unique_keys(fs.root_children_directories@),
        forall|i: int|
            0 <= i < fs.dir_arena@.len() ==> unique_keys(
                (#[trigger] fs.dir_arena@[i]).value.children_files@,
            ) && unique_keys(fs.dir_arena@[i].value.children_directories@),
{
}

} // verus!
