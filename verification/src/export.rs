//! `get_dir_all`: a full snapshot export of a subtree — every descendant
//! file record, and every directory of the subtree with its explicit child
//! name and id columns.

use vstd::prelude::*;
use crate::arena::get_from_arena;
use crate::errors::WalrusFsError;
use crate::fs::WalrusFs;
use crate::index::lemma_smap_contains;
use crate::index::lemma_smap_value;
use crate::index::smap;
use crate::index::unique_keys;
use crate::index::KeyValueStringU64;
use crate::listing::clone_string_vec;
use crate::pathutil::remove_trailing_slash;
use crate::pathutil::strip_trailing;
use crate::pathutil::valid_path;
use crate::pathutil::validate_path;
use crate::records::names_ids_enumerate;
use crate::records::dir_export_ok;
use crate::records::DirObjectExAnchor;
use crate::records::FileObjectAnchor;
use crate::records::FileObjectExAnchor;
use crate::records::RecursiveDirListAnchor;
use crate::resolve::spec_resolve;
use crate::walk::reach;
use crate::walk::reachable;
use crate::walk::lemma_reachable_in_closed;
use crate::walk::subtree_file;

verus! {

/// What `get_dir_all` decides: either an error, or the id of the directory
/// whose subtree is exported.  The target is located through its parent's
/// index; the binding is trusted, as elsewhere, under the engine's
/// consistency invariant.
pub open spec fn get_dir_all_decision(fs: WalrusFs, path: Seq<char>) -> Result<
    u64,
    WalrusFsError,
> {
    let clean = strip_trailing(path);
    if !valid_path(clean) {
        Err(WalrusFsError::PathError)
    } else {
        match spec_resolve(fs, clean) {
            Err(e) => Err(e),
            Ok((parent, leaf)) => {
                if !fs.dir_index_at(parent).contains_key(leaf) {
                    Err(WalrusFsError::PathNotFound)
                } else {
                    Ok(fs.dir_index_at(parent)[leaf])
                }
            },
        }
    }
}

/// The exported file list is sound and complete for the subtree at
/// `target`: one entry per descendant file id, each carrying the stored
/// record.
pub open spec fn export_files_ok(fs: WalrusFs, target: u64, files: Seq<FileObjectExAnchor>) -> bool {
    &&& forall|i: int, j: int|
        0 <= i < j < files.len() ==> (#[trigger] files[i]).id != (#[trigger] files[j]).id
    &&& forall|i: int|
        0 <= i < files.len() ==> subtree_file(fs.dirs(), target, (#[trigger] files[i]).id)
            && fs.files().contains_key(files[i].id) && files[i].obj@ == fs.files()[files[i].id]
    &&& forall|f: u64|
        subtree_file(fs.dirs(), target, f) ==> exists|i: int|
            0 <= i < files.len() && (#[trigger] files[i]).id == f
}

/// The exported directory list is sound and complete for the subtree at
/// `target` (the target itself included), each entry rendering its record's
/// metadata and child columns exactly.
pub open spec fn export_dirs_ok(fs: WalrusFs, target: u64, ds: Seq<DirObjectExAnchor>) -> bool {
    &&& forall|i: int, j: int|
        0 <= i < j < ds.len() ==> (#[trigger] ds[i]).id != (#[trigger] ds[j]).id
    &&& forall|i: int|
        0 <= i < ds.len() ==> reachable(fs.dirs(), target, (#[trigger] ds[i]).id)
            && fs.dirs().contains_key(ds[i].id) && dir_export_ok(ds[i], ds[i].id, fs.dirs()[ds[i].id])
    &&& forall|d: u64|
        reachable(fs.dirs(), target, d) ==> exists|i: int|
            0 <= i < ds.len() && (#[trigger] ds[i]).id == d
}

impl WalrusFs {
    /// The name and id columns of one child index.
    fn export_columns(&self, v: &Vec<KeyValueStringU64>) -> (r: (Vec<String>, Vec<u64>))
        requires
            unique_keys(v@),
        ensures
            names_ids_enumerate(r.0.deep_view(), r.1@, smap(v@)),
    {
        let mut names: Vec<String> = Vec::new();
        let mut ids: Vec<u64> = Vec::new();
        let mut i: usize = 0;
        while i < v.len()
            invariant
                0 <= i <= v@.len(),
                names@.len() == i,
                ids@.len() == i,
                forall|j: int| 0 <= j < i ==> names.deep_view()[j] == v@[j].key@,
                forall|j: int| 0 <= j < i ==> ids@[j] == v@[j].value,
            decreases v@.len() - i,
        {
            let ghost names0 = names@;
            let ghost dv0 = names.deep_view();
            names.push(v[i].key.clone());
            ids.push(v[i].value);
            proof {
                assert forall|j: int| 0 <= j < i as int + 1 implies names.deep_view()[j]
                    == v@[j].key@ by {
                    if j < i as int {
                        assert(names@[j] == names0[j]);
                        assert(dv0[j] == v@[j].key@);
                        assert(dv0[j] == names0[j]@);
                    } else {
                        assert(names@[j] == v@[j].key);
                    }
                }
            }
            i = i + 1;
        }
        proof {
            let m = smap(v@);
            assert forall|j: int| 0 <= j < names.deep_view().len() implies m.contains_key(
                #[trigger] names.deep_view()[j],
            ) && m[names.deep_view()[j]] == ids@[j] by {
                lemma_smap_value(v@, j);
            }
            assert forall|k: Seq<char>| m.contains_key(k) implies exists|j: int|
                0 <= j < names.deep_view().len() && names.deep_view()[j] == k by {
                lemma_smap_contains(v@, k);
                let j = choose|j: int| 0 <= j < v@.len() && v@[j].key@ == k;
                assert(names.deep_view()[j] == k);
            }
        }
        (names, ids)
    }

    /// One exported directory entry.
    fn export_dir_entry(&self, did: u64) -> (e: DirObjectExAnchor)
        requires
            self.uniq(),
            self.dirs().contains_key(did),
        ensures
            e.id == did,
            dir_export_ok(e, did, self.dirs()[did]),
    {
        let rec = get_from_arena(&self.dir_arena, did).unwrap();
        proof {
            let i = choose|i: int|
                0 <= i < self.dir_arena@.len() && self.dir_arena@[i].key == did
                    && self.dir_arena@[i].value == *rec;
            assert(unique_keys((self.dir_arena@[i]).value.children_files@));
            assert(unique_keys((self.dir_arena@[i]).value.children_directories@));
        }
        let (fnames, fids) = self.export_columns(&rec.children_files);
        let (dnames, dids) = self.export_columns(&rec.children_directories);
        DirObjectExAnchor {
            id: did,
            create_ts: rec.create_ts,
            tags: clone_string_vec(&rec.tags),
            children_file_names: fnames,
            children_file_ids: fids,
            children_directory_names: dnames,
            children_directory_ids: dids,
        }
    }

    /// Export the subtree rooted at the directory `path` names: the target
    /// directory itself and every descendant, with every descendant file.
    #[verifier::loop_isolation(false)]
    #[verifier::rlimit(60)]
    #[verifier::spinoff_prover]
    pub fn get_dir_all(&self, path: &str) -> (r: Result<RecursiveDirListAnchor, WalrusFsError>)
        requires
            self.wf(),
        ensures
            r is Ok <==> get_dir_all_decision(*self, path@) is Ok,
            r matches Err(e) ==> get_dir_all_decision(*self, path@) == Err::<u64, WalrusFsError>(
                e,
            ),
            r matches Ok(out) ==> ({
                let target = get_dir_all_decision(*self, path@).unwrap();
                &&& out.dirobj == target
                &&& export_files_ok(*self, target, out.files@)
                &&& export_dirs_ok(*self, target, out.dirs@)
            }),
    {
        let clean_path = remove_trailing_slash(path);
        match validate_path(clean_path.as_str()) {
            Err(e) => {
                return Err(e);
            },
            Ok(_) => {},
        }
        let (parent, target_name) = match self.internal_resolve_parent_id_and_name(
            clean_path.as_str(),
        ) {
            Ok(pn) => pn,
            Err(e) => {
                return Err(e);
            },
        };
        let target = match self.child_dir_lookup(parent, target_name.as_str()) {
            None => {
                return Err(WalrusFsError::PathNotFound);
            },
            Some(id) => id,
        };
        proof {
            self.lemma_dir_lookup_backed(parent, target_name@);
        }
        let (file_ids, dir_ids) = self.internal_recursive_get_dir_obj_ids(target);
        let ghost fids = file_ids@;
        let ghost rd = dir_ids@;

        let mut files_ex: Vec<FileObjectExAnchor> = Vec::new();
        let mut i: usize = 0;
        while i < file_ids.len()
            invariant
                0 <= i <= fids.len(),
                files_ex@.len() == i,
                forall|j: int| 0 <= j < i ==> (#[trigger] files_ex@[j]).id == fids[j],
                forall|j: int|
                    0 <= j < i ==> self.files().contains_key((#[trigger] files_ex@[j]).id)
                        && files_ex@[j].obj@ == self.files()[files_ex@[j].id],
            decreases fids.len() - i,
        {
            let fid = file_ids[i];
            proof {
                assert(fids.contains(fid));
                let d = choose|d: u64| #[trigger] reachable(self.dirs(), target, d)
                    && self.dirs().contains_key(d) && crate::walk::dir_has_file_child(
                    self.dirs()[d],
                    fid,
                );
                let n = choose|n: Seq<char>| #[trigger] self.dirs()[d].children_files.contains_key(
                    n,
                ) && self.dirs()[d].children_files[n] == fid;
                assert(self.dirs()[d].children_files.contains_key(n));
                assert(self.files().contains_key(fid));
            }
            match get_from_arena(&self.file_arena, fid) {
                None => {
                    proof {
                        assert(false);
                    }
                    return Err(WalrusFsError::ArenaMismatchError);
                },
                Some(obj) => {
                    files_ex.push(
                        FileObjectExAnchor {
                            id: fid,
                            obj: FileObjectAnchor {
                                create_ts: obj.create_ts,
                                tags: clone_string_vec(&obj.tags),
                                size: obj.size,
                                walrus_blob_id: obj.walrus_blob_id.clone(),
                                walrus_epoch_till: obj.walrus_epoch_till,
                            },
                        },
                    );
                },
            }
            i = i + 1;
        }

        let mut dirs_ex: Vec<DirObjectExAnchor> = Vec::new();
        dirs_ex.push(self.export_dir_entry(target));
        let mut i2: usize = 0;
        while i2 < dir_ids.len()
            invariant
                0 <= i2 <= rd.len(),
                dirs_ex@.len() == 1 + i2,
                dirs_ex@[0].id == target,
                dir_export_ok(dirs_ex@[0], target, self.dirs()[target]),
                forall|j: int| 1 <= j < 1 + i2 ==> (#[trigger] dirs_ex@[j]).id == rd[j - 1],
                forall|j: int|
                    1 <= j < 1 + i2 ==> self.dirs().contains_key((#[trigger] dirs_ex@[j]).id)
                        && dir_export_ok(dirs_ex@[j], dirs_ex@[j].id, self.dirs()[dirs_ex@[j].id]),
            decreases rd.len() - i2,
        {
            let did = dir_ids[i2];
            proof {
                assert(rd.contains(did));
            }
            dirs_ex.push(self.export_dir_entry(did));
            i2 = i2 + 1;
        }

        let out = RecursiveDirListAnchor { dirobj: target, files: files_ex, dirs: dirs_ex };
        proof {
            let dirs0 = self.dirs();
            assert(get_dir_all_decision(*self, path@) == Ok::<u64, WalrusFsError>(target));
            assert(reach(dirs0, target, target, 0nat));
            assert(reachable(dirs0, target, target));
            // Coverage of the directory set.
            assert forall|d: u64| reachable(dirs0, target, d) implies exists|j: int|
                0 <= j < out.dirs@.len() && (#[trigger] out.dirs@[j]).id == d by {
                let k = choose|k: nat| reach(dirs0, target, d, k);
                lemma_reachable_in_closed(dirs0, target, rd, d, k);
                if d == target {
                    assert(out.dirs@[0].id == d);
                } else {
                    let j = choose|j: int| 0 <= j < rd.len() && rd[j] == d;
                    assert(out.dirs@[j + 1].id == d);
                }
            }
            // Coverage of the file set.
            assert forall|f: u64| subtree_file(dirs0, target, f) implies exists|j: int|
                0 <= j < out.files@.len() && (#[trigger] out.files@[j]).id == f by {
                assert(fids.contains(f));
                let j = choose|j: int| 0 <= j < fids.len() && fids[j] == f;
                assert(out.files@[j].id == f);
            }
            // Distinct ids in both columns.
            assert forall|p: int, q: int| 0 <= p < q < out.files@.len() implies (
            #[trigger] out.files@[p]).id != (#[trigger] out.files@[q]).id by {
                assert(out.files@[p].id == fids[p]);
                assert(out.files@[q].id == fids[q]);
            }
            assert forall|p: int, q: int| 0 <= p < q < out.dirs@.len() implies (
            #[trigger] out.dirs@[p]).id != (#[trigger] out.dirs@[q]).id by {
                if p == 0 {
                    assert(rd.contains(rd[q - 1]));
                } else {
                    assert(rd[p - 1] != rd[q - 1]);
                }
            }
            // Every listed directory is in the subtree, correctly rendered.
            assert forall|j: int| 0 <= j < out.dirs@.len() implies reachable(
                dirs0,
                target,
                (#[trigger] out.dirs@[j]).id,
            ) && self.dirs().contains_key(out.dirs@[j].id) && dir_export_ok(
                out.dirs@[j],
                out.dirs@[j].id,
                self.dirs()[out.dirs@[j].id],
            ) by {
                if j > 0 {
                    assert(rd.contains(rd[j - 1]));
                }
            }
            // Every listed file is in the subtree, correctly rendered.
            assert forall|j: int| 0 <= j < out.files@.len() implies subtree_file(
                dirs0,
                target,
                (#[trigger] out.files@[j]).id,
            ) && self.files().contains_key(out.files@[j].id) && out.files@[j].obj@
                == self.files()[out.files@[j].id] by {
                assert(out.files@[j].id == fids[j]);
                assert(fids.contains(fids[j]));
            }
            assert(export_files_ok(*self, target, out.files@));
            assert(export_dirs_ok(*self, target, out.dirs@));
        }
        Ok(out)
    }
}

} // verus!
