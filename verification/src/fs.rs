//! The namespace engine's state and its well-formedness invariant.
//!
//! One `WalrusFs` is one namespace instance: the shared id counter, the
//! root's two name indexes, and the two arenas.  The external host applies
//! each operation atomically; the engine here is written check-before-write,
//! so that a failed operation provably leaves the state untouched.

use vstd::prelude::*;
use crate::arena::amap;
use crate::arena::unique_ids;
use crate::index::KeyValueStringU64;
use crate::index::smap;
use crate::index::unique_keys;
use crate::records::DirView;
use crate::records::FileView;
use crate::records::KeyValueU64DirObject;
use crate::records::KeyValueU64FileObject;

verus! {

/// One namespace instance.
pub struct WalrusFs {
    pub current_epoch: u64,
    pub obj_id_counter: u64,
    pub root_children_files: Vec<KeyValueStringU64>,
    pub root_children_directories: Vec<KeyValueStringU64>,
    pub file_arena: Vec<KeyValueU64FileObject>,
    pub dir_arena: Vec<KeyValueU64DirObject>,
}

impl WalrusFs {
    /// The root's file index, as a map.
    pub open spec fn root_files(&self) -> Map<Seq<char>, u64> {
        smap(self.root_children_files@)
    }

    /// The root's directory index, as a map.
    pub open spec fn root_dirs(&self) -> Map<Seq<char>, u64> {
        smap(self.root_children_directories@)
    }

    /// The file arena, as a map of record views.
    pub open spec fn files(&self) -> Map<u64, FileView> {
        amap(self.file_arena@)
    }

    /// The directory arena, as a map of record views.
    pub open spec fn dirs(&self) -> Map<u64, DirView> {
        amap(self.dir_arena@)
    }

    /// An owner of a pair of child indexes: the root (`None`) or a
    /// directory present in the directory arena.
    pub open spec fn owner_ok(&self, o: Option<u64>) -> bool {
        o matches Some(d) ==> self.dirs().contains_key(d)
    }

    /// The file index owned by `o`.
    pub open spec fn file_index_at(&self, o: Option<u64>) -> Map<Seq<char>, u64> {
        match o {
            None => self.root_files(),
            Some(d) => self.dirs()[d].children_files,
        }
    }

    /// The directory index owned by `o`.
    pub open spec fn dir_index_at(&self, o: Option<u64>) -> Map<Seq<char>, u64> {
        match o {
            None => self.root_dirs(),
            Some(d) => self.dirs()[d].children_directories,
        }
    }

    /// Key uniqueness of every backing vector: both arenas, both root
    /// indexes, and both child indexes of every directory record.
    pub open spec fn uniq(&self) -> bool {
        &&& unique_keys(self.root_children_files@)
        &&& unique_keys(self.root_children_directories@)
        &&& unique_ids(self.file_arena@)
        &&& unique_ids(self.dir_arena@)
        &&& forall|i: int|
            0 <= i < self.dir_arena@.len() ==> unique_keys(
                (#[trigger] self.dir_arena@[i]).value.children_files@,
            )
        &&& forall|i: int|
            0 <= i < self.dir_arena@.len() ==> unique_keys(
                (#[trigger] self.dir_arena@[i]).value.children_directories@,
            )
    }

    /// Arena consistency: every id present in any name index has a record
    /// in the matching arena.
    pub open spec fn consistent(&self) -> bool {
        &&& forall|n: Seq<char>| #[trigger]
            self.root_files().contains_key(n) ==> self.files().contains_key(self.root_files()[n])
        &&& forall|n: Seq<char>| #[trigger]
            self.root_dirs().contains_key(n) ==> self.dirs().contains_key(self.root_dirs()[n])
        &&& forall|d: u64, n: Seq<char>|
            self.dirs().contains_key(d) && #[trigger] self.dirs()[d].children_files.contains_key(n)
                ==> self.files().contains_key(self.dirs()[d].children_files[n])
        &&& forall|d: u64, n: Seq<char>|
            self.dirs().contains_key(d) && #[trigger] self.dirs()[d].children_directories.contains_key(n)
                ==> self.dirs().contains_key(self.dirs()[d].children_directories[n])
    }

    /// Every allocated id is nonzero and no larger than the counter.
    pub open spec fn counter_ok(&self) -> bool {
        &&& forall|id: u64| #[trigger] self.files().contains_key(id) ==> 1 <= id <= self.obj_id_counter
        &&& forall|id: u64| #[trigger] self.dirs().contains_key(id) ==> 1 <= id <= self.obj_id_counter
    }

    /// `o` binds `n` to the file id `id`.
    pub open spec fn file_ref_at(&self, o: Option<u64>, n: Seq<char>, id: u64) -> bool {
        &&& self.owner_ok(o)
        &&& self.file_index_at(o).contains_key(n)
        &&& self.file_index_at(o)[n] == id
    }

    /// `o` binds `n` to the directory id `id`.
    pub open spec fn dir_ref_at(&self, o: Option<u64>, n: Seq<char>, id: u64) -> bool {
        &&& self.owner_ok(o)
        &&& self.dir_index_at(o).contains_key(n)
        &&& self.dir_index_at(o)[n] == id
    }

    /// Single-parent structure: a file id is bound at most once across all
    /// file indexes.
    pub open spec fn file_refs_unique(&self) -> bool {
        forall|o1: Option<u64>, n1: Seq<char>, o2: Option<u64>, n2: Seq<char>, id: u64|
            #[trigger] self.file_ref_at(o1, n1, id) && #[trigger] self.file_ref_at(o2, n2, id)
                ==> o1 == o2 && n1 == n2
    }

    /// Single-parent structure: a directory id is bound at most once across
    /// all directory indexes.
    pub open spec fn dir_refs_unique(&self) -> bool {
        forall|o1: Option<u64>, n1: Seq<char>, o2: Option<u64>, n2: Seq<char>, id: u64|
            #[trigger] self.dir_ref_at(o1, n1, id) && #[trigger] self.dir_ref_at(o2, n2, id)
                ==> o1 == o2 && n1 == n2
    }

    /// Ids strictly increase downward: a directory's child directory always
    /// has a larger id than its parent, so the structure has no cycles.
    pub open spec fn child_dir_ids_increase(&self) -> bool {
        forall|d: u64, n: Seq<char>|
            self.dirs().contains_key(d) && self.dirs()[d].children_directories.contains_key(n)
                ==> #[trigger] self.dirs()[d].children_directories[n] > d
    }

    /// The engine's full invariant: every operation requires and preserves
    /// it, success or failure.
    pub open spec fn wf(&self) -> bool {
        &&& self.uniq()
        &&& self.consistent()
        &&& self.counter_ok()
        &&& self.file_refs_unique()
        &&& self.dir_refs_unique()
        &&& self.child_dir_ids_increase()
    }

    /// A bound name index has a backing record: the directory case.
    pub proof fn lemma_dir_lookup_backed(&self, o: Option<u64>, n: Seq<char>)
        requires
            self.uniq(),
            self.consistent(),
            self.owner_ok(o),
            self.dir_index_at(o).contains_key(n),
        ensures
            self.dirs().contains_key(self.dir_index_at(o)[n]),
    {
        match o {
            None => {
                assert(self.root_dirs().contains_key(n));
            },
            Some(d) => {
                assert(self.dirs()[d].children_directories.contains_key(n));
            },
        }
    }

    /// A bound name index has a backing record: the file case.
    pub proof fn lemma_file_lookup_backed(&self, o: Option<u64>, n: Seq<char>)
        requires
            self.uniq(),
            self.consistent(),
            self.owner_ok(o),
            self.file_index_at(o).contains_key(n),
        ensures
            self.files().contains_key(self.file_index_at(o)[n]),
    {
        match o {
            None => {
                assert(self.root_files().contains_key(n));
            },
            Some(d) => {
                assert(self.dirs()[d].children_files.contains_key(n));
            },
        }
    }

    /// A fresh, empty namespace with its counter at zero.
    pub fn initialize_walrusfs() -> (fs: WalrusFs)
        ensures
            fs.wf(),
            fs.current_epoch == 0,
            fs.obj_id_counter == 0,
            fs.root_files() == Map::<Seq<char>, u64>::empty(),
            fs.root_dirs() == Map::<Seq<char>, u64>::empty(),
            fs.files() == Map::<u64, FileView>::empty(),
            fs.dirs() == Map::<u64, DirView>::empty(),
    {
        WalrusFs {
            current_epoch: 0,
            obj_id_counter: 0,
            root_children_files: Vec::new(),
            root_children_directories: Vec::new(),
            file_arena: Vec::new(),
            dir_arena: Vec::new(),
        }
    }

    /// Record the storage epoch the external host reports.  The host checks
    /// the caller's authority before invoking this.
    pub fn update_epoch(&mut self, current_epoch: u64)
        ensures
            final(self).current_epoch == current_epoch,
            final(self).obj_id_counter == old(self).obj_id_counter,
            final(self).root_children_files == old(self).root_children_files,
            final(self).root_children_directories == old(self).root_children_directories,
            final(self).file_arena == old(self).file_arena,
            final(self).dir_arena == old(self).dir_arena,
            old(self).wf() ==> final(self).wf(),
    {
        self.current_epoch = current_epoch;
        proof {
            if old(self).wf() {
                assert(self.files() == old(self).files());
                assert(self.dirs() == old(self).dirs());
                assert(self.root_files() == old(self).root_files());
                assert(self.root_dirs() == old(self).root_dirs());
                assert forall|o1: Option<u64>, n1: Seq<char>, o2: Option<u64>, n2: Seq<char>, id: u64|
                    #[trigger] self.file_ref_at(o1, n1, id) && #[trigger] self.file_ref_at(
                        o2,
                        n2,
                        id,
                    ) implies o1 == o2 && n1 == n2 by {
                    assert(old(self).file_ref_at(o1, n1, id));
                    assert(old(self).file_ref_at(o2, n2, id));
                }
                assert forall|o1: Option<u64>, n1: Seq<char>, o2: Option<u64>, n2: Seq<char>, id: u64|
                    #[trigger] self.dir_ref_at(o1, n1, id) && #[trigger] self.dir_ref_at(
                        o2,
                        n2,
                        id,
                    ) implies o1 == o2 && n1 == n2 by {
                    assert(old(self).dir_ref_at(o1, n1, id));
                    assert(old(self).dir_ref_at(o2, n2, id));
                }
            }
        }
    }
}

} // verus!
