//! Deletion: removing a leaf binding together with the record it
//! references.

use vstd::prelude::*;
use crate::arena::find_u64_key;
use crate::arena::lemma_amap_contains;
use crate::arena::remove_from_arena;
use crate::errors::WalrusFsError;
use crate::fs::WalrusFs;
use crate::pathutil::remove_trailing_slash;
use crate::pathutil::strip_trailing;
use crate::pathutil::valid_path;
use crate::pathutil::validate_path;
use crate::records::DirView;
use crate::resolve::spec_resolve;

verus! {

/// What `delete_file` decides: either an error, or the owner and leaf name
/// whose binding and record go away.
pub open spec fn delete_file_decision(fs: WalrusFs, path: Seq<char>) -> Result<
    (Option<u64>, Seq<char>),
    WalrusFsError,
> {
    let clean = strip_trailing(path);
    if !valid_path(clean) {
        Err(WalrusFsError::PathError)
    } else {
        match spec_resolve(fs, clean) {
            Err(e) => Err(e),
            Ok((parent, leaf)) => {
                let idx = fs.file_index_at(parent);
                if !idx.contains_key(leaf) {
                    Err(WalrusFsError::PathNotFound)
                } else if !fs.files().contains_key(idx[leaf]) {
                    Err(WalrusFsError::ArenaMismatchError)
                } else {
                    Ok((parent, leaf))
                }
            },
        }
    }
}

impl WalrusFs {
    /// Delete the file at `path`: its name binding and its arena record.
    pub fn delete_file(&mut self, path: &str) -> (r: Result<(), WalrusFsError>)
        requires
            old(self).wf(),
        ensures
            final(self).wf(),
            r is Err ==> *final(self) == *old(self),
            r is Ok <==> delete_file_decision(*old(self), path@) is Ok,
            r matches Err(e) ==> delete_file_decision(*old(self), path@) == Err::<
                (Option<u64>, Seq<char>),
                WalrusFsError,
            >(e),
            delete_file_decision(*old(self), path@) matches Ok(pl) ==> ({
                let parent = pl.0;
                let leaf = pl.1;
                let fid = old(self).file_index_at(parent)[leaf];
                &&& final(self).file_index_at(parent) == old(self).file_index_at(parent).remove(
                    leaf,
                )
                &&& final(self).files() == old(self).files().remove(fid)
                &&& final(self).root_dirs() == old(self).root_dirs()
                &&& final(self).obj_id_counter == old(self).obj_id_counter
                &&& final(self).current_epoch == old(self).current_epoch
                &&& (parent is None ==> final(self).dirs() == old(self).dirs())
                &&& (parent is Some ==> final(self).root_files() == old(self).root_files())
                &&& (parent matches Some(d) ==> final(self).dirs() == old(self).dirs().insert(
                    d,
                    (DirView {
                        children_files: old(self).dirs()[d].children_files.remove(leaf),
                        ..old(self).dirs()[d]
                    }),
                ))
            }),
    {
        let clean_path = remove_trailing_slash(path);
        match validate_path(clean_path.as_str()) {
            Err(e) => {
                return Err(e);
            },
            Ok(_) => {},
        }
        let (parent, file_name) = match self.internal_resolve_parent_id_and_name(
            clean_path.as_str(),
        ) {
            Ok(pn) => pn,
            Err(e) => {
                return Err(e);
            },
        };
        let file_id = match self.child_file_lookup(parent, file_name.as_str()) {
            None => {
                return Err(WalrusFsError::PathNotFound);
            },
            Some(id) => id,
        };
        match find_u64_key(&self.file_arena, file_id) {
            None => {
                proof {
                    lemma_amap_contains(self.file_arena@, file_id);
                }
                return Err(WalrusFsError::ArenaMismatchError);
            },
            Some(_) => {
                proof {
                    lemma_amap_contains(self.file_arena@, file_id);
                }
            },
        }
        self.child_file_unbind(parent, file_name.as_str());
        remove_from_arena(&mut self.file_arena, file_id);
        proof {
            lemma_delete_file_wf(*old(self), *self, parent, file_name@, file_id);
        }
        Ok(())
    }
}

/// After `delete_file`'s writes, the full invariant holds again.
proof fn lemma_delete_file_wf(
    fs0: WalrusFs,
    fs1: WalrusFs,
    parent: Option<u64>,
    leaf: Seq<char>,
    fid: u64,
)
    requires
        fs0.wf(),
        fs1.uniq(),
        fs0.owner_ok(parent),
        fs0.file_index_at(parent).contains_key(leaf),
        fid == fs0.file_index_at(parent)[leaf],
        fs1.file_index_at(parent) == fs0.file_index_at(parent).remove(leaf),
        fs1.files() == fs0.files().remove(fid),
        fs1.root_dirs() == fs0.root_dirs(),
        fs1.obj_id_counter == fs0.obj_id_counter,
        parent is None ==> fs1.dirs() == fs0.dirs(),
        parent is Some ==> fs1.root_files() == fs0.root_files(),
        parent matches Some(d) ==> fs1.dirs() == fs0.dirs().insert(
            d,
            (DirView {
                children_files: fs0.dirs()[d].children_files.remove(leaf),
                ..fs0.dirs()[d]
            }),
        ),
    ensures
        fs1.wf(),
{
    assert forall|o: Option<u64>| #[trigger] fs1.owner_ok(o) <==> fs0.owner_ok(o) by {
        if parent is Some {
            assert(fs0.dirs().contains_key(parent.unwrap()));
        }
    }
    assert forall|o: Option<u64>| fs0.owner_ok(o) implies #[trigger] fs1.dir_index_at(o)
        == fs0.dir_index_at(o) by {}
    assert forall|o: Option<u64>| fs0.owner_ok(o) && o != parent implies #[trigger] fs1.file_index_at(o)
        == fs0.file_index_at(o) by {}

    // Every surviving file reference is an old one away from the deleted
    // binding.
    assert forall|o: Option<u64>, n: Seq<char>, id: u64| #[trigger] fs1.file_ref_at(o, n, id) implies fs0.file_ref_at(
        o,
        n,
        id,
    ) && !(o == parent && n == leaf) by {
        if o == parent {
            assert(fs0.file_index_at(o).contains_key(n));
        }
    }
    assert(fs0.file_ref_at(parent, leaf, fid));

    // Arena consistency: a surviving binding cannot carry the deleted id,
    // because the deleted binding was that id's only reference.
    assert forall|n: Seq<char>| #[trigger] fs1.root_files().contains_key(n) implies fs1.files().contains_key(
        fs1.root_files()[n],
    ) by {
        assert(fs1.file_ref_at(None, n, fs1.root_files()[n]));
        assert(fs0.file_ref_at(None, n, fs1.root_files()[n]));
    }
    assert forall|n: Seq<char>| #[trigger] fs1.root_dirs().contains_key(n) implies fs1.dirs().contains_key(
        fs1.root_dirs()[n],
    ) by {
        assert(fs0.root_dirs().contains_key(n));
    }
    assert forall|d: u64, n: Seq<char>|
        fs1.dirs().contains_key(d) && #[trigger] fs1.dirs()[d].children_files.contains_key(
            n,
        ) implies fs1.files().contains_key(fs1.dirs()[d].children_files[n]) by {
        assert(fs1.file_ref_at(Some(d), n, fs1.dirs()[d].children_files[n]));
        assert(fs0.file_ref_at(Some(d), n, fs1.dirs()[d].children_files[n]));
    }
    assert forall|d: u64, n: Seq<char>|
        fs1.dirs().contains_key(d) && #[trigger] fs1.dirs()[d].children_directories.contains_key(
            n,
        ) implies fs1.dirs().contains_key(fs1.dirs()[d].children_directories[n]) by {
        assert(fs0.dirs().contains_key(d));
        assert(fs0.dirs()[d].children_directories.contains_key(n));
    }

    // Counter bounds.
    assert forall|id: u64| #[trigger] fs1.files().contains_key(id) implies 1 <= id
        <= fs1.obj_id_counter by {
        assert(fs0.files().contains_key(id));
    }
    assert forall|id: u64| #[trigger] fs1.dirs().contains_key(id) implies 1 <= id
        <= fs1.obj_id_counter by {
        assert(fs0.dirs().contains_key(id));
    }

    // Single-parent structure.
    assert forall|o1: Option<u64>, n1: Seq<char>, o2: Option<u64>, n2: Seq<char>, id: u64|
        #[trigger] fs1.file_ref_at(o1, n1, id) && #[trigger] fs1.file_ref_at(o2, n2, id) implies o1
        == o2 && n1 == n2 by {}
    assert forall|o1: Option<u64>, n1: Seq<char>, o2: Option<u64>, n2: Seq<char>, id: u64|
        #[trigger] fs1.dir_ref_at(o1, n1, id) && #[trigger] fs1.dir_ref_at(o2, n2, id) implies o1
        == o2 && n1 == n2 by {
        assert(fs0.dir_ref_at(o1, n1, id));
        assert(fs0.dir_ref_at(o2, n2, id));
    }

    // Child directory ids still increase.
    assert forall|d: u64, n: Seq<char>|
        fs1.dirs().contains_key(d) && fs1.dirs()[d].children_directories.contains_key(
            n,
        ) implies #[trigger] fs1.dirs()[d].children_directories[n] > d by {
        assert(fs0.dirs().contains_key(d));
        assert(fs0.dirs()[d].children_directories.contains_key(n));
        assert(fs0.dirs()[d].children_directories[n] > d);
    }
}

} // verus!
