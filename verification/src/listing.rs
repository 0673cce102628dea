//! Read operations: `stat` for one leaf, `list_dir` for a directory's
//! children.

use vstd::prelude::*;
use crate::arena::get_from_arena;
use crate::errors::WalrusFsError;
use crate::fs::WalrusFs;
use crate::index::KeyValueStringU64;
use crate::index::lemma_smap_card;
use crate::index::lemma_smap_contains;
use crate::index::lemma_smap_value;
use crate::index::smap;
use crate::index::unique_keys;
use crate::pathutil::ensure_trailing_slash;
use crate::pathutil::remove_trailing_slash;
use crate::pathutil::strip_trailing;
use crate::pathutil::valid_path;
use crate::pathutil::validate_path;
use crate::pathutil::with_trailing;
use crate::records::dir_listing;
use crate::records::file_listing;
use crate::records::DirListObjectAnchor;
use crate::records::ListView;
use crate::resolve::spec_resolve;
use crate::resolve::spec_resolve_listing;

verus! {

/// Clone a vector of strings, element for element.
pub fn clone_string_vec(v: &Vec<String>) -> (r: Vec<String>)
    ensures
        r@ == v@,
        r.deep_view() == v.deep_view(),
{
    let mut r: Vec<String> = Vec::new();
    let mut i: usize = 0;
    while i < v.len()
        invariant
            0 <= i <= v@.len(),
            r@.len() == i,
            forall|j: int| 0 <= j < i ==> r@[j] == v@[j],
        decreases v@.len() - i,
    {
        r.push(v[i].clone());
        i = i + 1;
    }
    proof {
        assert(r@ =~= v@);
        assert(r.deep_view() =~= v.deep_view());
    }
    r
}

/// Clone a vector of name-index bindings, binding for binding.
pub fn clone_kv_vec(v: &Vec<KeyValueStringU64>) -> (r: Vec<KeyValueStringU64>)
    ensures
        r@ == v@,
{
    let mut r: Vec<KeyValueStringU64> = Vec::new();
    let mut i: usize = 0;
    while i < v.len()
        invariant
            0 <= i <= v@.len(),
            r@.len() == i,
            forall|j: int| 0 <= j < i ==> r@[j] == v@[j],
        decreases v@.len() - i,
    {
        r.push(KeyValueStringU64 { key: v[i].key.clone(), value: v[i].value });
        i = i + 1;
    }
    proof {
        assert(r@ =~= v@);
    }
    r
}

/// What `stat` reports for a path.
pub open spec fn spec_stat(fs: WalrusFs, path: Seq<char>) -> Result<ListView, WalrusFsError> {
    let clean = strip_trailing(path);
    if !valid_path(clean) {
        Err(WalrusFsError::PathError)
    } else {
        match spec_resolve(fs, clean) {
            Err(e) => Err(e),
            Ok((parent, leaf)) => {
                let fidx = fs.file_index_at(parent);
                let didx = fs.dir_index_at(parent);
                if fidx.contains_key(leaf) {
                    if fs.files().contains_key(fidx[leaf]) {
                        Ok(file_listing(leaf, fs.files()[fidx[leaf]]))
                    } else {
                        Err(WalrusFsError::ArenaMismatchError)
                    }
                } else if didx.contains_key(leaf) {
                    if fs.dirs().contains_key(didx[leaf]) {
                        Ok(dir_listing(leaf, fs.dirs()[didx[leaf]]))
                    } else {
                        Err(WalrusFsError::ArenaMismatchError)
                    }
                } else {
                    Err(WalrusFsError::PathNotFound)
                }
            },
        }
    }
}

/// Which directory `list_dir` enumerates: the root for the root path, else
/// the directory the path walks to.
pub open spec fn list_dir_decision(fs: WalrusFs, path: Seq<char>) -> Result<
    Option<u64>,
    WalrusFsError,
> {
    let pw = with_trailing(path);
    if !valid_path(pw) {
        Err(WalrusFsError::PathError)
    } else {
        spec_resolve_listing(fs, pw)
    }
}

/// The directory block of a listing: one entry per binding of `dm`, each
/// describing the bound directory's record, no name repeated, every
/// binding covered.
pub open spec fn dir_entries_ok(fs: WalrusFs, entries: Seq<ListView>, dm: Map<Seq<char>, u64>) -> bool {
    &&& forall|i: int|
        0 <= i < entries.len() ==> dm.contains_key((#[trigger] entries[i]).name)
            && fs.dirs().contains_key(dm[entries[i].name]) && entries[i] == dir_listing(
            entries[i].name,
            fs.dirs()[dm[entries[i].name]],
        )
    &&& forall|i: int, j: int|
        0 <= i < j < entries.len() ==> (#[trigger] entries[i]).name != (#[trigger] entries[j]).name
    &&& forall|n: Seq<char>| #[trigger]
        dm.contains_key(n) ==> exists|i: int|
            0 <= i < entries.len() && (#[trigger] entries[i]).name == n
}

/// The file block of a listing, likewise.
pub open spec fn file_entries_ok(fs: WalrusFs, entries: Seq<ListView>, fm: Map<Seq<char>, u64>) -> bool {
    &&& forall|i: int|
        0 <= i < entries.len() ==> fm.contains_key((#[trigger] entries[i]).name)
            && fs.files().contains_key(fm[entries[i].name]) && entries[i] == file_listing(
            entries[i].name,
            fs.files()[fm[entries[i].name]],
        )
    &&& forall|i: int, j: int|
        0 <= i < j < entries.len() ==> (#[trigger] entries[i]).name != (#[trigger] entries[j]).name
    &&& forall|n: Seq<char>| #[trigger]
        fm.contains_key(n) ==> exists|i: int|
            0 <= i < entries.len() && (#[trigger] entries[i]).name == n
}

impl WalrusFs {
    /// The two child index vectors owned by `o`.
    fn children_vecs(&self, o: Option<u64>) -> (r: (&Vec<KeyValueStringU64>, &Vec<
        KeyValueStringU64,
    >))
        requires
            self.uniq(),
            self.owner_ok(o),
        ensures
            unique_keys(r.0@),
            unique_keys(r.1@),
            smap(r.0@) == self.file_index_at(o),
            smap(r.1@) == self.dir_index_at(o),
    {
        match o {
            None => (&self.root_children_files, &self.root_children_directories),
            Some(d) => {
                let rec = get_from_arena(&self.dir_arena, d).unwrap();
                proof {
                    let i = choose|i: int|
                        0 <= i < self.dir_arena@.len() && self.dir_arena@[i].key == d
                            && self.dir_arena@[i].value == *rec;
                    assert(unique_keys((self.dir_arena@[i]).value.children_files@));
                    assert(unique_keys((self.dir_arena@[i]).value.children_directories@));
                }
                (&rec.children_files, &rec.children_directories)
            },
        }
    }

    /// Snapshots of a directory's two child indexes, for an enumeration
    /// path (with its trailing separator): the root's own indexes for the
    /// root path, else the walked-to directory's.
    pub fn internal_get_dir_children_refs(&self, path_with_trailing_slash: &str) -> (r: Result<
        (Vec<KeyValueStringU64>, Vec<KeyValueStringU64>),
        WalrusFsError,
    >)
        requires
            self.wf(),
        ensures
            r is Ok <==> spec_resolve_listing(*self, path_with_trailing_slash@) is Ok,
            r matches Err(e) ==> spec_resolve_listing(*self, path_with_trailing_slash@) == Err::<
                Option<u64>,
                WalrusFsError,
            >(e),
            r matches Ok(fd) ==> ({
                let o = spec_resolve_listing(*self, path_with_trailing_slash@).unwrap();
                &&& unique_keys(fd.0@)
                &&& unique_keys(fd.1@)
                &&& smap(fd.0@) == self.file_index_at(o)
                &&& smap(fd.1@) == self.dir_index_at(o)
            }),
    {
        let owner = match self.resolve_listing_owner(path_with_trailing_slash) {
            Ok(o) => o,
            Err(e) => {
                return Err(e);
            },
        };
        let (files_vec, dirs_vec) = self.children_vecs(owner);
        Ok((clone_kv_vec(files_vec), clone_kv_vec(dirs_vec)))
    }

    /// Report the leaf at `path`: files are checked before directories;
    /// file-only fields are zeroed for a directory.
    pub fn stat(&self, path: &str) -> (r: Result<DirListObjectAnchor, WalrusFsError>)
        requires
            self.wf(),
        ensures
            r matches Ok(l) ==> spec_stat(*self, path@) matches Ok(lv) && l@ == lv,
            r matches Err(e) ==> spec_stat(*self, path@) == Err::<ListView, WalrusFsError>(e),
    {
        let clean_path = remove_trailing_slash(path);
        match validate_path(clean_path.as_str()) {
            Err(e) => {
                return Err(e);
            },
            Ok(_) => {},
        }
        let (parent, item_name) = match self.internal_resolve_parent_id_and_name(
            clean_path.as_str(),
        ) {
            Ok(pn) => pn,
            Err(e) => {
                return Err(e);
            },
        };
        if let Some(file_id) = self.child_file_lookup(parent, item_name.as_str()) {
            match get_from_arena(&self.file_arena, file_id) {
                None => Err(WalrusFsError::ArenaMismatchError),
                Some(f) => Ok(
                    DirListObjectAnchor {
                        name: item_name,
                        create_ts: f.create_ts,
                        is_dir: false,
                        tags: clone_string_vec(&f.tags),
                        size: f.size,
                        walrus_blob_id: f.walrus_blob_id.clone(),
                        walrus_epoch_till: f.walrus_epoch_till,
                    },
                ),
            }
        } else if let Some(dir_id) = self.child_dir_lookup(parent, item_name.as_str()) {
            match get_from_arena(&self.dir_arena, dir_id) {
                None => Err(WalrusFsError::ArenaMismatchError),
                Some(d) => Ok(
                    DirListObjectAnchor {
                        name: item_name,
                        create_ts: d.create_ts,
                        is_dir: true,
                        tags: clone_string_vec(&d.tags),
                        size: 0,
                        walrus_blob_id: String::new(),
                        walrus_epoch_till: 0,
                    },
                ),
            }
        } else {
            Err(WalrusFsError::PathNotFound)
        }
    }

    /// List a directory's children: directories first, then files, each
    /// child exactly once.
    #[verifier::loop_isolation(false)]
    pub fn list_dir(&self, path: &str) -> (r: Result<Vec<DirListObjectAnchor>, WalrusFsError>)
        requires
            self.wf(),
        ensures
            r is Ok <==> list_dir_decision(*self, path@) is Ok,
            r matches Err(e) ==> list_dir_decision(*self, path@) == Err::<
                Option<u64>,
                WalrusFsError,
            >(e),
            r matches Ok(v) ==> ({
                let lv = v@.map_values(|x: DirListObjectAnchor| x@);
                let o = list_dir_decision(*self, path@).unwrap();
                let dm = self.dir_index_at(o);
                let fm = self.file_index_at(o);
                &&& lv.len() == dm.dom().len() + fm.dom().len()
                &&& dir_entries_ok(*self, lv.subrange(0, dm.dom().len() as int), dm)
                &&& file_entries_ok(
                    *self,
                    lv.subrange(dm.dom().len() as int, lv.len() as int),
                    fm,
                )
            }),
    {
        let path_with_slash = ensure_trailing_slash(path);
        match validate_path(path_with_slash.as_str()) {
            Err(e) => {
                return Err(e);
            },
            Ok(_) => {},
        }
        let owner = match self.resolve_listing_owner(path_with_slash.as_str()) {
            Ok(o) => o,
            Err(e) => {
                return Err(e);
            },
        };
        let (files_vec, dirs_vec) = self.children_vecs(owner);
        let ghost dm = self.dir_index_at(owner);
        let ghost fm = self.file_index_at(owner);
        proof {
            lemma_smap_card(dirs_vec@);
            lemma_smap_card(files_vec@);
        }
        let mut results: Vec<DirListObjectAnchor> = Vec::new();
        let mut k: usize = 0;
        while k < dirs_vec.len()
            invariant
                results@.len() == k,
                0 <= k <= dirs_vec@.len(),
                forall|i: int|
                    0 <= i < k ==> (#[trigger] results@[i])@.name == dirs_vec@[i].key@
                        && results@[i]@ == dir_listing(dirs_vec@[i].key@, self.dirs()[dm[dirs_vec@[i].key@]])
                        && dm.contains_key(dirs_vec@[i].key@) && self.dirs().contains_key(
                        dm[dirs_vec@[i].key@],
                    ),
            decreases dirs_vec@.len() - k,
        {
            proof {
                lemma_smap_value(dirs_vec@, k as int);
                assert(self.dir_ref_at(owner, dirs_vec@[k as int].key@, dirs_vec@[k as int].value));
            }
            let kv = &dirs_vec[k];
            match get_from_arena(&self.dir_arena, kv.value) {
                None => {
                    proof {
                        assert(false);
                    }
                    return Err(WalrusFsError::ArenaMismatchError);
                },
                Some(d) => {
                    results.push(
                        DirListObjectAnchor {
                            name: kv.key.clone(),
                            create_ts: d.create_ts,
                            is_dir: true,
                            tags: clone_string_vec(&d.tags),
                            size: 0,
                            walrus_blob_id: String::new(),
                            walrus_epoch_till: 0,
                        },
                    );
                },
            }
            k = k + 1;
        }
        let ghost dlen = dirs_vec@.len() as int;
        let mut k2: usize = 0;
        while k2 < files_vec.len()
            invariant
                results@.len() == dlen + k2,
                0 <= k2 <= files_vec@.len(),
                forall|i: int|
                    0 <= i < dlen ==> (#[trigger] results@[i])@.name == dirs_vec@[i].key@
                        && results@[i]@ == dir_listing(dirs_vec@[i].key@, self.dirs()[dm[dirs_vec@[i].key@]])
                        && dm.contains_key(dirs_vec@[i].key@) && self.dirs().contains_key(
                        dm[dirs_vec@[i].key@],
                    ),
                forall|i: int|
                    0 <= i < k2 ==> (#[trigger] results@[dlen + i])@.name == files_vec@[i].key@
                        && results@[dlen + i]@ == file_listing(
                        files_vec@[i].key@,
                        self.files()[fm[files_vec@[i].key@]],
                    ) && fm.contains_key(files_vec@[i].key@) && self.files().contains_key(
                        fm[files_vec@[i].key@],
                    ),
            decreases files_vec@.len() - k2,
        {
            proof {
                lemma_smap_value(files_vec@, k2 as int);
                assert(self.file_ref_at(
                    owner,
                    files_vec@[k2 as int].key@,
                    files_vec@[k2 as int].value,
                ));
            }
            let kv = &files_vec[k2];
            match get_from_arena(&self.file_arena, kv.value) {
                None => {
                    proof {
                        assert(false);
                    }
                    return Err(WalrusFsError::ArenaMismatchError);
                },
                Some(f) => {
                    results.push(
                        DirListObjectAnchor {
                            name: kv.key.clone(),
                            create_ts: f.create_ts,
                            is_dir: false,
                            tags: clone_string_vec(&f.tags),
                            size: f.size,
                            walrus_blob_id: f.walrus_blob_id.clone(),
                            walrus_epoch_till: f.walrus_epoch_till,
                        },
                    );
                },
            }
            k2 = k2 + 1;
        }
        proof {
            let lv = results@.map_values(|x: DirListObjectAnchor| x@);
            let dblock = lv.subrange(0, dm.dom().len() as int);
            let fblock = lv.subrange(dm.dom().len() as int, lv.len() as int);
            assert(lv.len() == dm.dom().len() + fm.dom().len());
            assert forall|i: int| 0 <= i < dblock.len() implies dm.contains_key(
                (#[trigger] dblock[i]).name,
            ) && self.dirs().contains_key(dm[dblock[i].name]) && dblock[i] == dir_listing(
                dblock[i].name,
                self.dirs()[dm[dblock[i].name]],
            ) by {
                assert(dblock[i] == results@[i]@);
            }
            assert forall|i: int, j: int| 0 <= i < j < dblock.len() implies (#[trigger] dblock[i]).name
                != (#[trigger] dblock[j]).name by {
                assert(dblock[i] == results@[i]@);
                assert(dblock[j] == results@[j]@);
                assert(dirs_vec@[i].key@ != dirs_vec@[j].key@);
            }
            assert forall|n: Seq<char>| #[trigger] dm.contains_key(n) implies exists|i: int|
                0 <= i < dblock.len() && (#[trigger] dblock[i]).name == n by {
                lemma_smap_contains(dirs_vec@, n);
                let i = choose|i: int| 0 <= i < dirs_vec@.len() && dirs_vec@[i].key@ == n;
                assert(dblock[i] == results@[i]@);
                assert(dblock[i].name == n);
            }
            assert forall|i: int| 0 <= i < fblock.len() implies fm.contains_key(
                (#[trigger] fblock[i]).name,
            ) && self.files().contains_key(fm[fblock[i].name]) && fblock[i] == file_listing(
                fblock[i].name,
                self.files()[fm[fblock[i].name]],
            ) by {
                assert(fblock[i] == results@[dlen + i]@);
            }
            assert forall|i: int, j: int| 0 <= i < j < fblock.len() implies (#[trigger] fblock[i]).name
                != (#[trigger] fblock[j]).name by {
                assert(fblock[i] == results@[dlen + i]@);
                assert(fblock[j] == results@[dlen + j]@);
                assert(files_vec@[i].key@ != files_vec@[j].key@);
            }
            assert forall|n: Seq<char>| #[trigger] fm.contains_key(n) implies exists|i: int|
                0 <= i < fblock.len() && (#[trigger] fblock[i]).name == n by {
                lemma_smap_contains(files_vec@, n);
                let i = choose|i: int| 0 <= i < files_vec@.len() && files_vec@[i].key@ == n;
                assert(fblock[i] == results@[dlen + i]@);
                assert(fblock[i].name == n);
            }
        }
        Ok(results)
    }
}

} // verus!
