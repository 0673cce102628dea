//! Renaming: moving a binding to a new name under the same parent.  The
//! id, and therefore the record, is untouched; cross-directory moves are
//! rejected.

use vstd::prelude::*;
use crate::errors::WalrusFsError;
use crate::fs::WalrusFs;
use crate::pathutil::remove_trailing_slash;
use crate::pathutil::strip_trailing;
use crate::pathutil::valid_path;
use crate::pathutil::validate_path;
use crate::records::DirView;
use crate::resolve::spec_resolve;

verus! {

/// What a rename decides: either an error, or the shared parent, the
/// source name, and the target name.
pub open spec fn rename_decision(
    fs: WalrusFs,
    from: Seq<char>,
    to: Seq<char>,
    files: bool,
) -> Result<(Option<u64>, Seq<char>, Seq<char>), WalrusFsError> {
    let cf = strip_trailing(from);
    let ct = strip_trailing(to);
    if !valid_path(cf) || !valid_path(ct) {
        Err(WalrusFsError::PathError)
    } else {
        match spec_resolve(fs, cf) {
            Err(e) => Err(e),
            Ok((p1, n1)) => {
                match spec_resolve(fs, ct) {
                    Err(e) => Err(e),
                    Ok((p2, n2)) => {
                        if p1 != p2 {
                            Err(WalrusFsError::RenamePathMismatch)
                        } else {
                            let idx = if files {
                                fs.file_index_at(p1)
                            } else {
                                fs.dir_index_at(p1)
                            };
                            if !idx.contains_key(n1) {
                                Err(WalrusFsError::PathNotFound)
                            } else if idx.contains_key(n2) {
                                if files {
                                    Err(WalrusFsError::FileAlreadyExists)
                                } else {
                                    Err(WalrusFsError::DirectoryAlreadyExists)
                                }
                            } else {
                                Ok((p1, n1, n2))
                            }
                        }
                    },
                }
            },
        }
    }
}

impl WalrusFs {
    /// Rename the file at `from_path` to the leaf name of `to_path`; both
    /// must resolve to the same parent.
    pub fn rename_file(&mut self, from_path: &str, to_path: &str) -> (r: Result<
        (),
        WalrusFsError,
    >)
        requires
            old(self).wf(),
        ensures
            final(self).wf(),
            r is Err ==> *final(self) == *old(self),
            r is Ok <==> rename_decision(*old(self), from_path@, to_path@, true) is Ok,
            r matches Err(e) ==> rename_decision(*old(self), from_path@, to_path@, true) == Err::<
                (Option<u64>, Seq<char>, Seq<char>),
                WalrusFsError,
            >(e),
            rename_decision(*old(self), from_path@, to_path@, true) matches Ok(pl) ==> ({
                let p = pl.0;
                let n1 = pl.1;
                let n2 = pl.2;
                let moved = old(self).file_index_at(p)[n1];
                &&& final(self).file_index_at(p) == old(self).file_index_at(p).remove(n1).insert(
                    n2,
                    moved,
                )
                &&& final(self).files() == old(self).files()
                &&& final(self).root_dirs() == old(self).root_dirs()
                &&& final(self).obj_id_counter == old(self).obj_id_counter
                &&& final(self).current_epoch == old(self).current_epoch
                &&& (p is None ==> final(self).dirs() == old(self).dirs())
                &&& (p is Some ==> final(self).root_files() == old(self).root_files())
                &&& (p matches Some(d) ==> final(self).dirs() == old(self).dirs().insert(
                    d,
                    (DirView {
                        children_files: old(self).dirs()[d].children_files.remove(n1).insert(
                            n2,
                            moved,
                        ),
                        ..old(self).dirs()[d]
                    }),
                ))
            }),
    {
        let clean_from = remove_trailing_slash(from_path);
        let clean_to = remove_trailing_slash(to_path);
        match validate_path(clean_from.as_str()) {
            Err(e) => {
                return Err(e);
            },
            Ok(_) => {},
        }
        match validate_path(clean_to.as_str()) {
            Err(e) => {
                return Err(e);
            },
            Ok(_) => {},
        }
        let (from_parent, from_name) = match self.internal_resolve_parent_id_and_name(
            clean_from.as_str(),
        ) {
            Ok(pn) => pn,
            Err(e) => {
                return Err(e);
            },
        };
        let (to_parent, to_name) = match self.internal_resolve_parent_id_and_name(
            clean_to.as_str(),
        ) {
            Ok(pn) => pn,
            Err(e) => {
                return Err(e);
            },
        };
        let same_parent = match (from_parent, to_parent) {
            (None, None) => true,
            (Some(a), Some(b)) => a == b,
            _ => false,
        };
        if !same_parent {
            return Err(WalrusFsError::RenamePathMismatch);
        }
        if self.child_file_lookup(from_parent, from_name.as_str()).is_none() {
            return Err(WalrusFsError::PathNotFound);
        }
        if self.child_file_lookup(from_parent, to_name.as_str()).is_some() {
            return Err(WalrusFsError::FileAlreadyExists);
        }
        let file_id = self.child_file_unbind(from_parent, from_name.as_str()).unwrap();
        self.child_file_bind(from_parent, to_name, file_id);
        proof {
            if from_parent is Some {
                let d = from_parent.unwrap();
                assert(self.dirs() =~= old(self).dirs().insert(
                    d,
                    (DirView {
                        children_files: old(self).dirs()[d].children_files.remove(
                            from_name@,
                        ).insert(to_name@, file_id),
                        ..old(self).dirs()[d]
                    }),
                ));
            }
            lemma_rename_file_wf(*old(self), *self, from_parent, from_name@, to_name@, file_id);
        }
        Ok(())
    }

    /// Rename the directory at `from_path` to the leaf name of `to_path`;
    /// both must resolve to the same parent.
    pub fn rename_dir(&mut self, from_path: &str, to_path: &str) -> (r: Result<(), WalrusFsError>)
        requires
            old(self).wf(),
        ensures
            final(self).wf(),
            r is Err ==> *final(self) == *old(self),
            r is Ok <==> rename_decision(*old(self), from_path@, to_path@, false) is Ok,
            r matches Err(e) ==> rename_decision(*old(self), from_path@, to_path@, false) == Err::<
                (Option<u64>, Seq<char>, Seq<char>),
                WalrusFsError,
            >(e),
            rename_decision(*old(self), from_path@, to_path@, false) matches Ok(pl) ==> ({
                let p = pl.0;
                let n1 = pl.1;
                let n2 = pl.2;
                let moved = old(self).dir_index_at(p)[n1];
                &&& final(self).dir_index_at(p) == old(self).dir_index_at(p).remove(n1).insert(
                    n2,
                    moved,
                )
                &&& final(self).files() == old(self).files()
                &&& final(self).root_files() == old(self).root_files()
                &&& final(self).obj_id_counter == old(self).obj_id_counter
                &&& final(self).current_epoch == old(self).current_epoch
                &&& (p is None ==> final(self).dirs() == old(self).dirs())
                &&& (p is Some ==> final(self).root_dirs() == old(self).root_dirs())
                &&& (p matches Some(d) ==> final(self).dirs() == old(self).dirs().insert(
                    d,
                    (DirView {
                        children_directories: old(self).dirs()[d].children_directories.remove(
                            n1,
                        ).insert(n2, moved),
                        ..old(self).dirs()[d]
                    }),
                ))
            }),
    {
        let clean_from = remove_trailing_slash(from_path);
        let clean_to = remove_trailing_slash(to_path);
        match validate_path(clean_from.as_str()) {
            Err(e) => {
                return Err(e);
            },
            Ok(_) => {},
        }
        match validate_path(clean_to.as_str()) {
            Err(e) => {
                return Err(e);
            },
            Ok(_) => {},
        }
        let (from_parent, from_name) = match self.internal_resolve_parent_id_and_name(
            clean_from.as_str(),
        ) {
            Ok(pn) => pn,
            Err(e) => {
                return Err(e);
            },
        };
        let (to_parent, to_name) = match self.internal_resolve_parent_id_and_name(
            clean_to.as_str(),
        ) {
            Ok(pn) => pn,
            Err(e) => {
                return Err(e);
            },
        };
        let same_parent = match (from_parent, to_parent) {
            (None, None) => true,
            (Some(a), Some(b)) => a == b,
            _ => false,
        };
        if !same_parent {
            return Err(WalrusFsError::RenamePathMismatch);
        }
        if self.child_dir_lookup(from_parent, from_name.as_str()).is_none() {
            return Err(WalrusFsError::PathNotFound);
        }
        if self.child_dir_lookup(from_parent, to_name.as_str()).is_some() {
            return Err(WalrusFsError::DirectoryAlreadyExists);
        }
        let dir_id = self.child_dir_unbind(from_parent, from_name.as_str()).unwrap();
        self.child_dir_bind(from_parent, to_name, dir_id);
        proof {
            if from_parent is Some {
                let d = from_parent.unwrap();
                assert(self.dirs() =~= old(self).dirs().insert(
                    d,
                    (DirView {
                        children_directories: old(self).dirs()[d].children_directories.remove(
                            from_name@,
                        ).insert(to_name@, dir_id),
                        ..old(self).dirs()[d]
                    }),
                ));
            }
            lemma_rename_dir_wf(*old(self), *self, from_parent, from_name@, to_name@, dir_id);
        }
        Ok(())
    }
}

/// After a file rename, the full invariant holds again.
proof fn lemma_rename_file_wf(
    fs0: WalrusFs,
    fs1: WalrusFs,
    p: Option<u64>,
    n1: Seq<char>,
    n2: Seq<char>,
    fid: u64,
)
    requires
        fs0.wf(),
        fs1.uniq(),
        fs0.owner_ok(p),
        fs0.file_index_at(p).contains_key(n1),
        !fs0.file_index_at(p).contains_key(n2),
        fid == fs0.file_index_at(p)[n1],
        fs1.file_index_at(p) == fs0.file_index_at(p).remove(n1).insert(n2, fid),
        fs1.files() == fs0.files(),
        fs1.root_dirs() == fs0.root_dirs(),
        fs1.obj_id_counter == fs0.obj_id_counter,
        p is None ==> fs1.dirs() == fs0.dirs(),
        p is Some ==> fs1.root_files() == fs0.root_files(),
        p matches Some(d) ==> fs1.dirs() == fs0.dirs().insert(
            d,
            (DirView {
                children_files: fs0.dirs()[d].children_files.remove(n1).insert(n2, fid),
                ..fs0.dirs()[d]
            }),
        ),
    ensures
        fs1.wf(),
{
    assert forall|o: Option<u64>| #[trigger] fs1.owner_ok(o) <==> fs0.owner_ok(o) by {
        if p is Some {
            assert(fs0.dirs().contains_key(p.unwrap()));
        }
    }
    assert forall|o: Option<u64>| fs0.owner_ok(o) implies #[trigger] fs1.dir_index_at(o)
        == fs0.dir_index_at(o) by {}
    assert forall|o: Option<u64>| fs0.owner_ok(o) && o != p implies #[trigger] fs1.file_index_at(o)
        == fs0.file_index_at(o) by {}

    // Every new-state file reference is the moved binding or an old one
    // away from the source name.
    assert forall|o: Option<u64>, n: Seq<char>, id: u64| #[trigger] fs1.file_ref_at(o, n, id) implies (o
        == p && n == n2 && id == fid) || (fs0.file_ref_at(o, n, id) && !(o == p && n == n1)) by {
        if o == p && n != n2 {
            assert(fs0.file_index_at(o).contains_key(n));
        }
    }
    assert(fs0.file_ref_at(p, n1, fid));

    // Arena consistency.
    assert forall|n: Seq<char>| #[trigger] fs1.root_files().contains_key(n) implies fs1.files().contains_key(
        fs1.root_files()[n],
    ) by {
        assert(fs1.file_ref_at(None, n, fs1.root_files()[n]));
        if fs1.root_files()[n] == fid {
            assert(fs0.files().contains_key(fid));
        } else {
            assert(fs0.file_ref_at(None, n, fs1.root_files()[n]));
        }
    }
    assert forall|n: Seq<char>| #[trigger] fs1.root_dirs().contains_key(n) implies fs1.dirs().contains_key(
        fs1.root_dirs()[n],
    ) by {
        assert(fs0.root_dirs().contains_key(n));
    }
    assert forall|d: u64, n: Seq<char>|
        fs1.dirs().contains_key(d) && #[trigger] fs1.dirs()[d].children_files.contains_key(
            n,
        ) implies fs1.files().contains_key(fs1.dirs()[d].children_files[n]) by {
        assert(fs1.file_ref_at(Some(d), n, fs1.dirs()[d].children_files[n]));
        if fs1.dirs()[d].children_files[n] == fid {
            assert(fs0.files().contains_key(fid));
        } else {
            assert(fs0.file_ref_at(Some(d), n, fs1.dirs()[d].children_files[n]));
        }
    }
    assert forall|d: u64, n: Seq<char>|
        fs1.dirs().contains_key(d) && #[trigger] fs1.dirs()[d].children_directories.contains_key(
            n,
        ) implies fs1.dirs().contains_key(fs1.dirs()[d].children_directories[n]) by {
        assert(fs0.dirs().contains_key(d));
        assert(fs0.dirs()[d].children_directories.contains_key(n));
    }

    // Counter bounds.
    assert forall|id: u64| #[trigger] fs1.files().contains_key(id) implies 1 <= id
        <= fs1.obj_id_counter by {
        assert(fs0.files().contains_key(id));
    }
    assert forall|id: u64| #[trigger] fs1.dirs().contains_key(id) implies 1 <= id
        <= fs1.obj_id_counter by {
        assert(fs0.dirs().contains_key(id));
    }

    // Single-parent structure for files.
    assert forall|o1: Option<u64>, n1x: Seq<char>, o2: Option<u64>, n2x: Seq<char>, id: u64|
        #[trigger] fs1.file_ref_at(o1, n1x, id) && #[trigger] fs1.file_ref_at(o2, n2x, id) implies o1
        == o2 && n1x == n2x by {}

    // Single-parent structure for directories.
    assert forall|o1: Option<u64>, n1x: Seq<char>, o2: Option<u64>, n2x: Seq<char>, id: u64|
        #[trigger] fs1.dir_ref_at(o1, n1x, id) && #[trigger] fs1.dir_ref_at(o2, n2x, id) implies o1
        == o2 && n1x == n2x by {
        assert(fs0.dir_ref_at(o1, n1x, id));
        assert(fs0.dir_ref_at(o2, n2x, id));
    }

    // Child directory ids still increase.
    assert forall|d: u64, n: Seq<char>|
        fs1.dirs().contains_key(d) && fs1.dirs()[d].children_directories.contains_key(
            n,
        ) implies #[trigger] fs1.dirs()[d].children_directories[n] > d by {
        assert(fs0.dirs().contains_key(d));
        assert(fs0.dirs()[d].children_directories.contains_key(n));
        assert(fs0.dirs()[d].children_directories[n] > d);
    }
}

/// After a directory rename, the full invariant holds again.
proof fn lemma_rename_dir_wf(
    fs0: WalrusFs,
    fs1: WalrusFs,
    p: Option<u64>,
    n1: Seq<char>,
    n2: Seq<char>,
    did: u64,
)
    requires
        fs0.wf(),
        fs1.uniq(),
        fs0.owner_ok(p),
        fs0.dir_index_at(p).contains_key(n1),
        !fs0.dir_index_at(p).contains_key(n2),
        did == fs0.dir_index_at(p)[n1],
        fs1.dir_index_at(p) == fs0.dir_index_at(p).remove(n1).insert(n2, did),
        fs1.files() == fs0.files(),
        fs1.root_files() == fs0.root_files(),
        fs1.obj_id_counter == fs0.obj_id_counter,
        p is None ==> fs1.dirs() == fs0.dirs(),
        p is Some ==> fs1.root_dirs() == fs0.root_dirs(),
        p matches Some(d) ==> fs1.dirs() == fs0.dirs().insert(
            d,
            (DirView {
                children_directories: fs0.dirs()[d].children_directories.remove(n1).insert(
                    n2,
                    did,
                ),
                ..fs0.dirs()[d]
            }),
        ),
    ensures
        fs1.wf(),
{
    assert forall|o: Option<u64>| #[trigger] fs1.owner_ok(o) <==> fs0.owner_ok(o) by {
        if p is Some {
            assert(fs0.dirs().contains_key(p.unwrap()));
        }
    }
    assert forall|o: Option<u64>| fs0.owner_ok(o) implies #[trigger] fs1.file_index_at(o)
        == fs0.file_index_at(o) by {}
    assert forall|o: Option<u64>| fs0.owner_ok(o) && o != p implies #[trigger] fs1.dir_index_at(o)
        == fs0.dir_index_at(o) by {}

    // Every new-state directory reference is the moved binding or an old
    // one away from the source name.
    assert forall|o: Option<u64>, n: Seq<char>, id: u64| #[trigger] fs1.dir_ref_at(o, n, id) implies (o
        == p && n == n2 && id == did) || (fs0.dir_ref_at(o, n, id) && !(o == p && n == n1)) by {
        if o == p && n != n2 {
            assert(fs0.dir_index_at(o).contains_key(n));
        }
    }
    assert(fs0.dir_ref_at(p, n1, did));
    assert(fs0.dirs().contains_key(did));

    // Arena consistency.
    assert forall|n: Seq<char>| #[trigger] fs1.root_files().contains_key(n) implies fs1.files().contains_key(
        fs1.root_files()[n],
    ) by {
        assert(fs0.root_files().contains_key(n));
    }
    assert forall|n: Seq<char>| #[trigger] fs1.root_dirs().contains_key(n) implies fs1.dirs().contains_key(
        fs1.root_dirs()[n],
    ) by {
        assert(fs1.dir_ref_at(None, n, fs1.root_dirs()[n]));
        if fs1.root_dirs()[n] != did {
            assert(fs0.dir_ref_at(None, n, fs1.root_dirs()[n]));
        }
    }
    assert forall|d: u64, n: Seq<char>|
        fs1.dirs().contains_key(d) && #[trigger] fs1.dirs()[d].children_files.contains_key(
            n,
        ) implies fs1.files().contains_key(fs1.dirs()[d].children_files[n]) by {
        assert(fs0.dirs().contains_key(d));
        assert(fs0.dirs()[d].children_files.contains_key(n));
    }
    assert forall|d: u64, n: Seq<char>|
        fs1.dirs().contains_key(d) && #[trigger] fs1.dirs()[d].children_directories.contains_key(
            n,
        ) implies fs1.dirs().contains_key(fs1.dirs()[d].children_directories[n]) by {
        assert(fs1.dir_ref_at(Some(d), n, fs1.dirs()[d].children_directories[n]));
        if fs1.dirs()[d].children_directories[n] != did {
            assert(fs0.dir_ref_at(Some(d), n, fs1.dirs()[d].children_directories[n]));
        }
    }

    // Counter bounds.
    assert forall|id: u64| #[trigger] fs1.files().contains_key(id) implies 1 <= id
        <= fs1.obj_id_counter by {
        assert(fs0.files().contains_key(id));
    }
    assert forall|id: u64| #[trigger] fs1.dirs().contains_key(id) implies 1 <= id
        <= fs1.obj_id_counter by {
        assert(fs0.dirs().contains_key(id));
    }

    // Single-parent structure for files.
    assert forall|o1: Option<u64>, n1x: Seq<char>, o2: Option<u64>, n2x: Seq<char>, id: u64|
        #[trigger] fs1.file_ref_at(o1, n1x, id) && #[trigger] fs1.file_ref_at(o2, n2x, id) implies o1
        == o2 && n1x == n2x by {
        assert(fs0.file_ref_at(o1, n1x, id));
        assert(fs0.file_ref_at(o2, n2x, id));
    }

    // Single-parent structure for directories.
    assert forall|o1: Option<u64>, n1x: Seq<char>, o2: Option<u64>, n2x: Seq<char>, id: u64|
        #[trigger] fs1.dir_ref_at(o1, n1x, id) && #[trigger] fs1.dir_ref_at(o2, n2x, id) implies o1
        == o2 && n1x == n2x by {}

    // Child directory ids still increase: the moved binding keeps its id,
    // so the parent's new edge has the same bound as the old one.
    assert forall|d: u64, n: Seq<char>|
        fs1.dirs().contains_key(d) && fs1.dirs()[d].children_directories.contains_key(
            n,
        ) implies #[trigger] fs1.dirs()[d].children_directories[n] > d by {
        assert(fs0.dirs().contains_key(d));
        if p == Some(d) && n == n2 {
            assert(fs0.dirs()[d].children_directories.contains_key(n1));
            assert(fs0.dirs()[d].children_directories[n1] > d);
        } else {
            assert(fs0.dirs()[d].children_directories.contains_key(n));
            assert(fs0.dirs()[d].children_directories[n] > d);
        }
    }
}

} // verus!
