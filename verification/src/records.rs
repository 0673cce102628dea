//! The records the arenas own, the listing records operations return, and
//! their mathematical views.

use vstd::prelude::*;
use crate::arena::KeyValueU64Object;
use crate::index::KeyValueStringU64;
use crate::index::smap;

verus! {

/// A file's metadata.  The content itself lives in an external
/// content-addressed store; `walrus_blob_id` is the opaque reference to it.
#[derive(Clone, Debug)]
pub struct FileObjectAnchor {
    pub create_ts: u64,
    pub tags: Vec<String>,
    pub size: u64,
    pub walrus_blob_id: String,
    pub walrus_epoch_till: u64,
}

/// A directory's metadata and its two child name indexes.
#[derive(Clone, Debug)]
pub struct DirObjectAnchor {
    pub create_ts: u64,
    pub tags: Vec<String>,
    pub children_files: Vec<KeyValueStringU64>,
    pub children_directories: Vec<KeyValueStringU64>,
}

/// An id-to-file-record binding in the file arena.
pub type KeyValueU64FileObject = KeyValueU64Object<FileObjectAnchor>;

/// An id-to-directory-record binding in the directory arena.
pub type KeyValueU64DirObject = KeyValueU64Object<DirObjectAnchor>;

/// What a file record denotes.
pub ghost struct FileView {
    pub create_ts: u64,
    pub tags: Seq<Seq<char>>,
    pub size: u64,
    pub walrus_blob_id: Seq<char>,
    pub walrus_epoch_till: u64,
}

/// What a directory record denotes: metadata plus the two child maps.
pub ghost struct DirView {
    pub create_ts: u64,
    pub tags: Seq<Seq<char>>,
    pub children_files: Map<Seq<char>, u64>,
    pub children_directories: Map<Seq<char>, u64>,
}

impl View for FileObjectAnchor {
    type V = FileView;

    open spec fn view(&self) -> FileView {
        FileView {
            create_ts: self.create_ts,
            tags: self.tags.deep_view(),
            size: self.size,
            walrus_blob_id: self.walrus_blob_id@,
            walrus_epoch_till: self.walrus_epoch_till,
        }
    }
}

impl View for DirObjectAnchor {
    type V = DirView;

    open spec fn view(&self) -> DirView {
        DirView {
            create_ts: self.create_ts,
            tags: self.tags.deep_view(),
            children_files: smap(self.children_files@),
            children_directories: smap(self.children_directories@),
        }
    }
}

/// The uniform listing record `stat` and `list_dir` return; the file-only
/// fields are zeroed for directories.
#[derive(Clone, Debug)]
pub struct DirListObjectAnchor {
    pub name: String,
    pub create_ts: u64,
    pub is_dir: bool,
    pub tags: Vec<String>,
    pub size: u64,
    pub walrus_blob_id: String,
    pub walrus_epoch_till: u64,
}

/// What a listing record denotes.
pub ghost struct ListView {
    pub name: Seq<char>,
    pub create_ts: u64,
    pub is_dir: bool,
    pub tags: Seq<Seq<char>>,
    pub size: u64,
    pub walrus_blob_id: Seq<char>,
    pub walrus_epoch_till: u64,
}

impl View for DirListObjectAnchor {
    type V = ListView;

    open spec fn view(&self) -> ListView {
        ListView {
            name: self.name@,
            create_ts: self.create_ts,
            is_dir: self.is_dir,
            tags: self.tags.deep_view(),
            size: self.size,
            walrus_blob_id: self.walrus_blob_id@,
            walrus_epoch_till: self.walrus_epoch_till,
        }
    }
}

/// The listing a file gets: the stored record's fields under its name.
pub open spec fn file_listing(name: Seq<char>, f: FileView) -> ListView {
    ListView {
        name: name,
        create_ts: f.create_ts,
        is_dir: false,
        tags: f.tags,
        size: f.size,
        walrus_blob_id: f.walrus_blob_id,
        walrus_epoch_till: f.walrus_epoch_till,
    }
}

/// The listing a directory gets: file-only fields zeroed.
pub open spec fn dir_listing(name: Seq<char>, d: DirView) -> ListView {
    ListView {
        name: name,
        create_ts: d.create_ts,
        is_dir: true,
        tags: d.tags,
        size: 0,
        walrus_blob_id: Seq::empty(),
        walrus_epoch_till: 0,
    }
}

/// A file record tagged with its id, as `get_dir_all` exports it.
#[derive(Clone, Debug)]
pub struct FileObjectExAnchor {
    pub id: u64,
    pub obj: FileObjectAnchor,
}

/// A directory in an exported subtree: its id, its metadata, and the
/// explicit name and id lists of both child categories.
#[derive(Clone, Debug)]
pub struct DirObjectExAnchor {
    pub id: u64,
    pub create_ts: u64,
    pub tags: Vec<String>,
    pub children_file_names: Vec<String>,
    pub children_file_ids: Vec<u64>,
    pub children_directory_names: Vec<String>,
    pub children_directory_ids: Vec<u64>,
}

/// A full snapshot export of a subtree: the target directory's id, every
/// descendant file, and every directory of the subtree (the target
/// included).
#[derive(Clone, Debug)]
pub struct RecursiveDirListAnchor {
    pub dirobj: u64,
    pub files: Vec<FileObjectExAnchor>,
    pub dirs: Vec<DirObjectExAnchor>,
}

/// Whether an exported directory entry describes exactly the directory view
/// `d`: same metadata, and its name/id columns enumerate the child maps,
/// pairwise and without repetition.
pub open spec fn dir_export_ok(e: DirObjectExAnchor, id: u64, d: DirView) -> bool {
    &&& e.id == id
    &&& e.create_ts == d.create_ts
    &&& e.tags.deep_view() == d.tags
    &&& names_ids_enumerate(e.children_file_names.deep_view(), e.children_file_ids@, d.children_files)
    &&& names_ids_enumerate(
        e.children_directory_names.deep_view(),
        e.children_directory_ids@,
        d.children_directories,
    )
}

/// Whether parallel name and id columns enumerate a map exactly: equal
/// lengths, one row per key, every binding present.
pub open spec fn names_ids_enumerate(names: Seq<Seq<char>>, ids: Seq<u64>, m: Map<Seq<char>, u64>) -> bool {
    &&& names.len() == ids.len()
    &&& forall|i: int| 0 <= i < names.len() ==> m.contains_key(#[trigger] names[i]) && m[names[i]] == ids[i]
    &&& forall|i: int, j: int| 0 <= i < j < names.len() ==> names[i] != names[j]
    &&& forall|k: Seq<char>| m.contains_key(k) ==> exists|i: int| 0 <= i < names.len() && names[i] == k
}

} // verus!
