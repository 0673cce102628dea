//! The namespace engine's mutating point operations: create, rename,
//! delete.  Every operation decides first and writes only after the
//! decision is favorable, so a failure provably leaves the state untouched.

use vstd::prelude::*;
use crate::arena::find_u64_key;
use crate::arena::insert_into_arena;
use crate::arena::lemma_amap_contains;
use crate::arena::remove_from_arena;
use crate::arena::unique_ids;
use crate::errors::WalrusFsError;
use crate::fs::WalrusFs;
use crate::index::smap;
use crate::index::unique_keys;
use crate::index::KeyValueStringU64;
use crate::pathutil::byte_len;
use crate::pathutil::remove_trailing_slash;
use crate::pathutil::spec_validate_tags;
use crate::pathutil::strip_trailing;
use crate::pathutil::valid_path;
use crate::pathutil::validate_path;
use crate::pathutil::validate_string_len;
use crate::pathutil::validate_tags;
use crate::records::DirObjectAnchor;
use crate::records::DirView;
use crate::records::FileObjectAnchor;
use crate::records::FileView;
use crate::resolve::spec_resolve;
use crate::MAX_STRING_LEN;

verus! {

/// What `add_file` decides: either an error, or the owner and leaf name
/// under which the new file will be bound.
pub open spec fn add_file_decision(
    fs: WalrusFs,
    path: Seq<char>,
    tags: Seq<Seq<char>>,
    blob: Seq<char>,
    overwrite: bool,
) -> Result<(Option<u64>, Seq<char>), WalrusFsError> {
    if !valid_path(path) {
        Err(WalrusFsError::PathError)
    } else {
        match spec_validate_tags(tags) {
            Err(e) => Err(e),
            Ok(_) => {
                if byte_len(blob) > MAX_STRING_LEN {
                    Err(WalrusFsError::StringTooLong)
                } else {
                    match spec_resolve(fs, path) {
                        Err(e) => Err(e),
                        Ok((parent, leaf)) => {
                            let idx = fs.file_index_at(parent);
                            if idx.contains_key(leaf) && !overwrite {
                                if fs.files().contains_key(idx[leaf]) {
                                    Err(WalrusFsError::FileAlreadyExists)
                                } else {
                                    Err(WalrusFsError::ArenaMismatchError)
                                }
                            } else {
                                Ok((parent, leaf))
                            }
                        },
                    }
                }
            },
        }
    }
}

impl WalrusFs {
    /// Create (or, with `overwrite`, replace) the file at `path`.
    ///
    /// A replacement removes the old record and allocates a fresh id: the
    /// write path is uniform, and an id never denotes two objects.
    /// `now_ms` is the creation timestamp the host supplies.
    pub fn add_file(
        &mut self,
        path: &str,
        tags: Vec<String>,
        size: u64,
        walrus_blob_id: String,
        end_epoch: u64,
        overwrite: bool,
        now_ms: u64,
    ) -> (r: Result<(), WalrusFsError>)
        requires
            old(self).wf(),
            old(self).obj_id_counter < u64::MAX,
        ensures
            final(self).wf(),
            r is Err ==> *final(self) == *old(self),
            r is Ok <==> add_file_decision(
                *old(self),
                path@,
                tags.deep_view(),
                walrus_blob_id@,
                overwrite,
            ) is Ok,
            r matches Err(e) ==> add_file_decision(
                *old(self),
                path@,
                tags.deep_view(),
                walrus_blob_id@,
                overwrite,
            ) == Err::<(Option<u64>, Seq<char>), WalrusFsError>(e),
            add_file_decision(
                *old(self),
                path@,
                tags.deep_view(),
                walrus_blob_id@,
                overwrite,
            ) matches Ok(pl) ==> ({
                let parent = pl.0;
                let leaf = pl.1;
                let existed = old(self).file_index_at(parent).contains_key(leaf);
                let old_id = old(self).file_index_at(parent)[leaf];
                let new_id = old(self).obj_id_counter + 1;
                let fv = (FileView {
                    create_ts: now_ms,
                    tags: tags.deep_view(),
                    size: size,
                    walrus_blob_id: walrus_blob_id@,
                    walrus_epoch_till: end_epoch,
                });
                &&& final(self).obj_id_counter == new_id
                &&& final(self).current_epoch == old(self).current_epoch
                &&& final(self).file_index_at(parent) == old(self).file_index_at(parent).insert(
                    leaf,
                    new_id as u64,
                )
                &&& final(self).files() == (if existed {
                    old(self).files().remove(old_id)
                } else {
                    old(self).files()
                }).insert(new_id as u64, fv)
                &&& final(self).root_dirs() == old(self).root_dirs()
                &&& (parent is None ==> final(self).dirs() == old(self).dirs())
                &&& (parent is Some ==> final(self).root_files() == old(self).root_files())
                &&& (parent matches Some(d) ==> final(self).dirs() == old(self).dirs().insert(
                    d,
                    (DirView {
                        children_files: old(self).dirs()[d].children_files.insert(
                            leaf,
                            new_id as u64,
                        ),
                        ..old(self).dirs()[d]
                    }),
                ))
            }),
    {
        match validate_path(path) {
            Err(e) => {
                return Err(e);
            },
            Ok(_) => {},
        }
        match validate_tags(&tags) {
            Err(e) => {
                return Err(e);
            },
            Ok(_) => {},
        }
        match validate_string_len(walrus_blob_id.as_str()) {
            Err(e) => {
                return Err(e);
            },
            Ok(_) => {},
        }
        let resolved = self.internal_resolve_parent_id_and_name(path);
        let (parent, file_name) = match resolved {
            Ok(pn) => pn,
            Err(e) => {
                return Err(e);
            },
        };
        let ghost leaf = file_name@;
        let existing = self.child_file_lookup(parent, file_name.as_str());
        let ghost existed = existing is Some;
        if let Some(existing_id) = existing {
            if !overwrite {
                match find_u64_key(&self.file_arena, existing_id) {
                    None => {
                        proof {
                            lemma_amap_contains(self.file_arena@, existing_id);
                        }
                        return Err(WalrusFsError::ArenaMismatchError);
                    },
                    Some(_) => {
                        proof {
                            lemma_amap_contains(self.file_arena@, existing_id);
                        }
                        return Err(WalrusFsError::FileAlreadyExists);
                    },
                }
            } else {
                remove_from_arena(&mut self.file_arena, existing_id);
            }
        }
        self.obj_id_counter = self.obj_id_counter + 1;
        let new_file_id = self.obj_id_counter;
        let new_file = FileObjectAnchor {
            create_ts: now_ms,
            tags: tags,
            size: size,
            walrus_blob_id: walrus_blob_id,
            walrus_epoch_till: end_epoch,
        };
        insert_into_arena(&mut self.file_arena, new_file_id, new_file);
        proof {
            lemma_uniq_same_dirs(*old(self), *self);
        }
        self.child_file_bind(parent, file_name, new_file_id);
        proof {
            lemma_add_file_wf(*old(self), *self, parent, leaf, new_file_id, existed);
        }
        Ok(())
    }
}

/// What `add_dir` decides: either an error, or the owner and leaf name
/// under which the new directory will be bound.
pub open spec fn add_dir_decision(fs: WalrusFs, path: Seq<char>, tags: Seq<Seq<char>>) -> Result<
    (Option<u64>, Seq<char>),
    WalrusFsError,
> {
    let clean = strip_trailing(path);
    if !valid_path(clean) {
        Err(WalrusFsError::PathError)
    } else {
        match spec_validate_tags(tags) {
            Err(e) => Err(e),
            Ok(_) => {
                match spec_resolve(fs, clean) {
                    Err(e) => Err(e),
                    Ok((parent, leaf)) => {
                        let idx = fs.dir_index_at(parent);
                        if idx.contains_key(leaf) {
                            if fs.dirs().contains_key(idx[leaf]) {
                                Err(WalrusFsError::DirectoryAlreadyExists)
                            } else {
                                Err(WalrusFsError::ArenaMismatchError)
                            }
                        } else {
                            Ok((parent, leaf))
                        }
                    },
                }
            },
        }
    }
}

impl WalrusFs {
    /// Create the directory at `path` (a trailing separator is accepted),
    /// with empty child indexes.  `now_ms` is the creation timestamp the
    /// host supplies.
    pub fn add_dir(&mut self, path: &str, tags: Vec<String>, now_ms: u64) -> (r: Result<
        (),
        WalrusFsError,
    >)
        requires
            old(self).wf(),
            old(self).obj_id_counter < u64::MAX,
        ensures
            final(self).wf(),
            r is Err ==> *final(self) == *old(self),
            r is Ok <==> add_dir_decision(*old(self), path@, tags.deep_view()) is Ok,
            r matches Err(e) ==> add_dir_decision(*old(self), path@, tags.deep_view()) == Err::<
                (Option<u64>, Seq<char>),
                WalrusFsError,
            >(e),
            add_dir_decision(*old(self), path@, tags.deep_view()) matches Ok(pl) ==> ({
                let parent = pl.0;
                let leaf = pl.1;
                let new_id = old(self).obj_id_counter + 1;
                let newv = (DirView {
                    create_ts: now_ms,
                    tags: tags.deep_view(),
                    children_files: Map::empty(),
                    children_directories: Map::empty(),
                });
                &&& final(self).obj_id_counter == new_id
                &&& final(self).current_epoch == old(self).current_epoch
                &&& final(self).dir_index_at(parent) == old(self).dir_index_at(parent).insert(
                    leaf,
                    new_id as u64,
                )
                &&& final(self).files() == old(self).files()
                &&& final(self).root_files() == old(self).root_files()
                &&& final(self).dirs().contains_key(new_id as u64)
                &&& final(self).dirs()[new_id as u64] == newv
                &&& (parent is None ==> final(self).dirs() == old(self).dirs().insert(
                    new_id as u64,
                    newv,
                ))
                &&& (parent is Some ==> final(self).root_dirs() == old(self).root_dirs())
                &&& (parent matches Some(d) ==> final(self).dirs() == old(self).dirs().insert(
                    d,
                    (DirView {
                        children_directories: old(self).dirs()[d].children_directories.insert(
                            leaf,
                            new_id as u64,
                        ),
                        ..old(self).dirs()[d]
                    }),
                ).insert(new_id as u64, newv))
            }),
    {
        let clean_path = remove_trailing_slash(path);
        match validate_path(clean_path.as_str()) {
            Err(e) => {
                return Err(e);
            },
            Ok(_) => {},
        }
        match validate_tags(&tags) {
            Err(e) => {
                return Err(e);
            },
            Ok(_) => {},
        }
        let resolved = self.internal_resolve_parent_id_and_name(clean_path.as_str());
        let (parent, dir_name) = match resolved {
            Ok(pn) => pn,
            Err(e) => {
                return Err(e);
            },
        };
        let ghost leaf = dir_name@;
        let existing = self.child_dir_lookup(parent, dir_name.as_str());
        if let Some(existing_id) = existing {
            match find_u64_key(&self.dir_arena, existing_id) {
                None => {
                    proof {
                        lemma_amap_contains(self.dir_arena@, existing_id);
                    }
                    return Err(WalrusFsError::ArenaMismatchError);
                },
                Some(_) => {
                    proof {
                        lemma_amap_contains(self.dir_arena@, existing_id);
                    }
                    return Err(WalrusFsError::DirectoryAlreadyExists);
                },
            }
        }
        self.obj_id_counter = self.obj_id_counter + 1;
        let new_dir_id = self.obj_id_counter;
        self.child_dir_bind(parent, dir_name, new_dir_id);
        let ghost mid = *self;
        let new_dir = DirObjectAnchor {
            create_ts: now_ms,
            tags: tags,
            children_files: Vec::new(),
            children_directories: Vec::new(),
        };
        insert_into_arena(&mut self.dir_arena, new_dir_id, new_dir);
        proof {
            assert(smap(Seq::<KeyValueStringU64>::empty()) =~= Map::<
                Seq<char>,
                u64,
            >::empty());
            lemma_uniq_dir_elements(mid, *self, new_dir);
            lemma_add_dir_wf(
                *old(self),
                *self,
                parent,
                leaf,
                new_dir_id,
                (DirView {
                    create_ts: now_ms,
                    tags: tags.deep_view(),
                    children_files: Map::empty(),
                    children_directories: Map::empty(),
                }),
            );
        }
        Ok(())
    }
}

/// `uniq` holds again when the directory arena's records are old records or
/// one new record with unique child indexes.
proof fn lemma_uniq_dir_elements(fs0: WalrusFs, fs1: WalrusFs, rec: DirObjectAnchor)
    requires
        fs0.uniq(),
        fs1.root_children_files@ == fs0.root_children_files@,
        fs1.root_children_directories@ == fs0.root_children_directories@,
        fs1.file_arena@ == fs0.file_arena@,
        unique_ids(fs1.dir_arena@),
        forall|i: int|
            0 <= i < fs1.dir_arena@.len() ==> (exists|j: int|
                0 <= j < fs0.dir_arena@.len() && (#[trigger] fs1.dir_arena@[i]).value
                    == fs0.dir_arena@[j].value) || fs1.dir_arena@[i].value == rec,
        unique_keys(rec.children_files@),
        unique_keys(rec.children_directories@),
    ensures
        fs1.uniq(),
{
    assert forall|i: int| 0 <= i < fs1.dir_arena@.len() implies unique_keys(
        (#[trigger] fs1.dir_arena@[i]).value.children_files@,
    ) && unique_keys(fs1.dir_arena@[i].value.children_directories@) by {
        if fs1.dir_arena@[i].value == rec {
        } else {
            let j = choose|j: int|
                0 <= j < fs0.dir_arena@.len() && fs1.dir_arena@[i].value
                    == fs0.dir_arena@[j].value;
            assert(unique_keys((fs0.dir_arena@[j]).value.children_files@));
            assert(unique_keys((fs0.dir_arena@[j]).value.children_directories@));
        }
    }
}

/// After `add_dir`'s writes, the full invariant holds again.
proof fn lemma_add_dir_wf(
    fs0: WalrusFs,
    fs1: WalrusFs,
    parent: Option<u64>,
    leaf: Seq<char>,
    new_id: u64,
    newv: DirView,
)
    requires
        fs0.wf(),
        fs1.uniq(),
        fs0.obj_id_counter < u64::MAX,
        new_id == fs0.obj_id_counter + 1,
        fs1.obj_id_counter == new_id,
        fs0.owner_ok(parent),
        !fs0.dir_index_at(parent).contains_key(leaf),
        newv.children_files == Map::<Seq<char>, u64>::empty(),
        newv.children_directories == Map::<Seq<char>, u64>::empty(),
        fs1.files() == fs0.files(),
        fs1.root_files() == fs0.root_files(),
        fs1.dir_index_at(parent) == fs0.dir_index_at(parent).insert(leaf, new_id),
        parent is None ==> fs1.dirs() == fs0.dirs().insert(new_id, newv),
        parent is Some ==> fs1.root_dirs() == fs0.root_dirs(),
        parent matches Some(d) ==> fs1.dirs() == fs0.dirs().insert(
            d,
            (DirView {
                children_directories: fs0.dirs()[d].children_directories.insert(leaf, new_id),
                ..fs0.dirs()[d]
            }),
        ).insert(new_id, newv),
    ensures
        fs1.wf(),
{
    // Owners: the old ones plus the new directory.
    assert forall|o: Option<u64>| #[trigger] fs1.owner_ok(o) implies fs0.owner_ok(o) || o == Some(
        new_id,
    ) by {
        if parent is Some {
            assert(fs0.dirs().contains_key(parent.unwrap()));
        }
    }
    assert(fs0.dirs().contains_key(new_id) ==> new_id <= fs0.obj_id_counter);
    assert(!fs0.dirs().contains_key(new_id));

    // Index transfers.
    assert forall|o: Option<u64>| fs0.owner_ok(o) implies #[trigger] fs1.file_index_at(o)
        == fs0.file_index_at(o) by {}
    assert forall|o: Option<u64>| fs0.owner_ok(o) && o != parent implies #[trigger] fs1.dir_index_at(o)
        == fs0.dir_index_at(o) by {}

    // Old directory references are backed and counter-bounded.
    assert forall|o: Option<u64>, n: Seq<char>, id: u64| #[trigger] fs0.dir_ref_at(o, n, id) implies fs0.dirs().contains_key(
        id,
    ) && 1 <= id <= fs0.obj_id_counter by {
        match o {
            None => {
                assert(fs0.root_dirs().contains_key(n));
            },
            Some(d) => {
                assert(fs0.dirs()[d].children_directories.contains_key(n));
            },
        }
    }

    // Every new-state directory reference is the fresh binding or an old
    // one.
    assert forall|o: Option<u64>, n: Seq<char>, id: u64| #[trigger] fs1.dir_ref_at(o, n, id) implies (o
        == parent && n == leaf && id == new_id) || fs0.dir_ref_at(o, n, id) by {
        if o == Some(new_id) {
            assert(fs1.dir_index_at(o) =~= Map::<Seq<char>, u64>::empty());
        } else if o == parent {
            if n != leaf {
                assert(fs0.dir_index_at(o).contains_key(n));
            }
        }
    }

    // Arena consistency.
    assert forall|n: Seq<char>| #[trigger] fs1.root_files().contains_key(n) implies fs1.files().contains_key(
        fs1.root_files()[n],
    ) by {
        assert(fs0.root_files().contains_key(n));
    }
    assert forall|n: Seq<char>| #[trigger] fs1.root_dirs().contains_key(n) implies fs1.dirs().contains_key(
        fs1.root_dirs()[n],
    ) by {
        if parent is None && n == leaf {
        } else {
            assert(fs0.dir_ref_at(None, n, fs0.root_dirs()[n]));
        }
    }
    assert forall|d: u64, n: Seq<char>|
        fs1.dirs().contains_key(d) && #[trigger] fs1.dirs()[d].children_files.contains_key(
            n,
        ) implies fs1.files().contains_key(fs1.dirs()[d].children_files[n]) by {
        assert(d != new_id);
        assert(fs0.dirs().contains_key(d));
        assert(fs0.dirs()[d].children_files.contains_key(n));
    }
    assert forall|d: u64, n: Seq<char>|
        fs1.dirs().contains_key(d) && #[trigger] fs1.dirs()[d].children_directories.contains_key(
            n,
        ) implies fs1.dirs().contains_key(fs1.dirs()[d].children_directories[n]) by {
        assert(d != new_id);
        assert(fs0.dirs().contains_key(d));
        if parent == Some(d) && n == leaf {
        } else {
            assert(fs0.dir_ref_at(Some(d), n, fs0.dirs()[d].children_directories[n]));
        }
    }

    // Counter bounds.
    assert forall|id: u64| #[trigger] fs1.files().contains_key(id) implies 1 <= id
        <= fs1.obj_id_counter by {
        assert(fs0.files().contains_key(id));
    }
    assert forall|id: u64| #[trigger] fs1.dirs().contains_key(id) implies 1 <= id
        <= fs1.obj_id_counter by {
        if id != new_id {
            assert(fs0.dirs().contains_key(id));
        }
    }

    // Single-parent structure for files.
    assert forall|o1: Option<u64>, n1: Seq<char>, o2: Option<u64>, n2: Seq<char>, id: u64|
        #[trigger] fs1.file_ref_at(o1, n1, id) && #[trigger] fs1.file_ref_at(o2, n2, id) implies o1
        == o2 && n1 == n2 by {
        assert(fs1.file_index_at(Some(new_id)) =~= Map::<Seq<char>, u64>::empty());
        assert(o1 != Some(new_id) && o2 != Some(new_id));
        assert(fs0.file_ref_at(o1, n1, id));
        assert(fs0.file_ref_at(o2, n2, id));
    }

    // Single-parent structure for directories.
    assert forall|o1: Option<u64>, n1: Seq<char>, o2: Option<u64>, n2: Seq<char>, id: u64|
        #[trigger] fs1.dir_ref_at(o1, n1, id) && #[trigger] fs1.dir_ref_at(o2, n2, id) implies o1
        == o2 && n1 == n2 by {}

    // Child directory ids still increase.
    assert forall|d: u64, n: Seq<char>|
        fs1.dirs().contains_key(d) && fs1.dirs()[d].children_directories.contains_key(
            n,
        ) implies #[trigger] fs1.dirs()[d].children_directories[n] > d by {
        assert(d != new_id);
        assert(fs0.dirs().contains_key(d));
        if parent == Some(d) && n == leaf {
            assert(d <= fs0.obj_id_counter);
        } else {
            assert(fs0.dirs()[d].children_directories.contains_key(n));
            assert(fs0.dirs()[d].children_directories[n] > d);
        }
    }
}

/// The directory side of `uniq` transfers between states whose directory
/// arena and root indexes agree.
proof fn lemma_uniq_same_dirs(fs0: WalrusFs, fs1: WalrusFs)
    requires
        fs0.uniq(),
        fs1.root_children_files@ == fs0.root_children_files@,
        fs1.root_children_directories@ == fs0.root_children_directories@,
        fs1.dir_arena@ == fs0.dir_arena@,
        unique_ids(fs1.file_arena@),
    ensures
        fs1.uniq(),
{
}

/// After `add_file`'s writes, the full invariant holds again.
proof fn lemma_add_file_wf(
    fs0: WalrusFs,
    fs1: WalrusFs,
    parent: Option<u64>,
    leaf: Seq<char>,
    new_id: u64,
    existed: bool,
)
    requires
        fs0.wf(),
        fs1.uniq(),
        fs0.obj_id_counter < u64::MAX,
        new_id == fs0.obj_id_counter + 1,
        fs1.obj_id_counter == new_id,
        fs0.owner_ok(parent),
        existed ==> fs0.file_index_at(parent).contains_key(leaf),
        !existed ==> !fs0.file_index_at(parent).contains_key(leaf),
        fs1.files() == (if existed {
            fs0.files().remove(fs0.file_index_at(parent)[leaf])
        } else {
            fs0.files()
        }).insert(new_id, fs1.files()[new_id]),
        fs1.file_index_at(parent) == fs0.file_index_at(parent).insert(leaf, new_id),
        fs1.root_dirs() == fs0.root_dirs(),
        parent is None ==> fs1.dirs() == fs0.dirs(),
        parent is Some ==> fs1.root_files() == fs0.root_files(),
        parent matches Some(d) ==> fs1.dirs() == fs0.dirs().insert(
            d,
            (DirView {
                children_files: fs0.dirs()[d].children_files.insert(leaf, new_id),
                ..fs0.dirs()[d]
            }),
        ),
    ensures
        fs1.wf(),
{
    let files1 = fs1.files();
    let oid = fs0.file_index_at(parent)[leaf];

    // Owners coincide.
    assert forall|o: Option<u64>| #[trigger] fs1.owner_ok(o) <==> fs0.owner_ok(o) by {
        if parent is Some {
            assert(fs0.dirs().contains_key(parent.unwrap()));
        }
    }
    // Directory indexes are untouched.
    assert forall|o: Option<u64>| fs0.owner_ok(o) implies #[trigger] fs1.dir_index_at(o)
        == fs0.dir_index_at(o) by {}
    // File indexes other than the parent's are untouched.
    assert forall|o: Option<u64>| fs0.owner_ok(o) && o != parent implies #[trigger] fs1.file_index_at(o)
        == fs0.file_index_at(o) by {}

    // Every new-state file reference is the fresh binding or an old one.
    assert forall|o: Option<u64>, n: Seq<char>, id: u64| #[trigger] fs1.file_ref_at(o, n, id) implies (o
        == parent && n == leaf && id == new_id) || (fs0.file_ref_at(o, n, id) && !(o == parent && n
        == leaf)) by {
        if o == parent {
            if n != leaf {
                assert(fs0.file_index_at(o).contains_key(n));
            }
        }
    }
    // Old file references have backed, counter-bounded ids.
    assert forall|o: Option<u64>, n: Seq<char>, id: u64| #[trigger] fs0.file_ref_at(o, n, id) implies fs0.files().contains_key(
        id,
    ) && 1 <= id <= fs0.obj_id_counter by {
        match o {
            None => {
                assert(fs0.root_files().contains_key(n));
            },
            Some(d) => {
                assert(fs0.dirs()[d].children_files.contains_key(n));
            },
        }
    }

    // Arena consistency.
    assert forall|n: Seq<char>| #[trigger] fs1.root_files().contains_key(n) implies files1.contains_key(
        fs1.root_files()[n],
    ) by {
        match parent {
            None => {
                if n == leaf {
                } else {
                    assert(fs0.file_ref_at(None, n, fs0.root_files()[n]));
                    if existed {
                        assert(fs0.file_ref_at(parent, leaf, oid));
                    }
                }
            },
            Some(_) => {
                assert(fs0.file_ref_at(None, n, fs0.root_files()[n]));
                if existed {
                    assert(fs0.file_ref_at(parent, leaf, oid));
                }
            },
        }
    }
    assert forall|n: Seq<char>| #[trigger] fs1.root_dirs().contains_key(n) implies fs1.dirs().contains_key(
        fs1.root_dirs()[n],
    ) by {
        assert(fs0.root_dirs().contains_key(n));
    }
    assert forall|d: u64, n: Seq<char>|
        fs1.dirs().contains_key(d) && #[trigger] fs1.dirs()[d].children_files.contains_key(
            n,
        ) implies files1.contains_key(fs1.dirs()[d].children_files[n]) by {
        if parent == Some(d) && n == leaf {
        } else {
            assert(fs0.dirs().contains_key(d));
            assert(fs0.dirs()[d].children_files.contains_key(n));
            assert(fs0.file_ref_at(Some(d), n, fs0.dirs()[d].children_files[n]));
            if existed {
                assert(fs0.file_ref_at(parent, leaf, oid));
            }
        }
    }
    assert forall|d: u64, n: Seq<char>|
        fs1.dirs().contains_key(d) && #[trigger] fs1.dirs()[d].children_directories.contains_key(
            n,
        ) implies fs1.dirs().contains_key(fs1.dirs()[d].children_directories[n]) by {
        assert(fs0.dirs().contains_key(d));
        assert(fs0.dirs()[d].children_directories.contains_key(n));
    }

    // Counter bounds.
    assert forall|id: u64| #[trigger] files1.contains_key(id) implies 1 <= id
        <= fs1.obj_id_counter by {
        if id != new_id {
            assert(fs0.files().contains_key(id));
        }
    }
    assert forall|id: u64| #[trigger] fs1.dirs().contains_key(id) implies 1 <= id
        <= fs1.obj_id_counter by {
        assert(fs0.dirs().contains_key(id));
    }

    // Single-parent structure for files.
    assert forall|o1: Option<u64>, n1: Seq<char>, o2: Option<u64>, n2: Seq<char>, id: u64|
        #[trigger] fs1.file_ref_at(o1, n1, id) && #[trigger] fs1.file_ref_at(o2, n2, id) implies o1
        == o2 && n1 == n2 by {}

    // Single-parent structure for directories.
    assert forall|o1: Option<u64>, n1: Seq<char>, o2: Option<u64>, n2: Seq<char>, id: u64|
        #[trigger] fs1.dir_ref_at(o1, n1, id) && #[trigger] fs1.dir_ref_at(o2, n2, id) implies o1
        == o2 && n1 == n2 by {
        assert(fs0.dir_ref_at(o1, n1, id));
        assert(fs0.dir_ref_at(o2, n2, id));
    }

    // Child directory ids still increase.
    assert forall|d: u64, n: Seq<char>|
        fs1.dirs().contains_key(d) && fs1.dirs()[d].children_directories.contains_key(
            n,
        ) implies #[trigger] fs1.dirs()[d].children_directories[n] > d by {
        assert(fs0.dirs().contains_key(d));
        assert(fs0.dirs()[d].children_directories.contains_key(n));
        assert(fs0.dirs()[d].children_directories[n] > d);
    }
}

} // verus!
