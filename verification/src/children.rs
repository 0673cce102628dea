//! Access to the child indexes of an owner: either the root's own indexes
//! or the indexes inside a directory record of the arena.
//!
//! A directory record is updated by taking it out of the arena vector,
//! changing the one child index, and putting it back; only the maps the
//! contracts speak of are preserved, not the vector's order.

use vstd::prelude::*;
use crate::arena::amap;
use crate::arena::find_u64_key;
use crate::arena::get_from_arena;
use crate::arena::lemma_amap_contains;
use crate::arena::lemma_amap_push;
use crate::arena::lemma_amap_remove;
use crate::arena::lemma_amap_value;
use crate::arena::unique_ids;
use crate::fs::WalrusFs;
use crate::index::get_from_vec_str_key;
use crate::index::insert_into_vec_str_key;
use crate::index::remove_from_vec_str_key;
use crate::index::unique_keys;
use crate::records::DirView;
use crate::records::KeyValueU64DirObject;

verus! {

/// Replacing one arena record (same id, child indexes still unique) keeps
/// the arena's id uniqueness and per-record child uniqueness, and denotes a
/// plain map insert.
proof fn lemma_arena_replace(
    arena0: Seq<KeyValueU64DirObject>,
    p: int,
    kv: KeyValueU64DirObject,
    arena2: Seq<KeyValueU64DirObject>,
)
    requires
        unique_ids(arena0),
        0 <= p < arena0.len(),
        kv.key == arena0[p].key,
        arena2 == arena0.remove(p).push(kv),
        forall|i: int|
            0 <= i < arena0.len() ==> unique_keys((#[trigger] arena0[i]).value.children_files@),
        forall|i: int|
            0 <= i < arena0.len() ==> unique_keys(
                (#[trigger] arena0[i]).value.children_directories@,
            ),
        unique_keys(kv.value.children_files@),
        unique_keys(kv.value.children_directories@),
    ensures
        unique_ids(arena2),
        amap(arena2) == amap(arena0).insert(kv.key, kv.value@),
        forall|i: int|
            0 <= i < arena2.len() ==> unique_keys((#[trigger] arena2[i]).value.children_files@),
        forall|i: int|
            0 <= i < arena2.len() ==> unique_keys(
                (#[trigger] arena2[i]).value.children_directories@,
            ),
{
    let arena1 = arena0.remove(p);
    let k = kv.key;
    lemma_amap_remove(arena0, p);
    lemma_amap_push(arena1, kv);
    assert(amap(arena0).remove(k).insert(k, kv.value@) =~= amap(arena0).insert(k, kv.value@));
    lemma_amap_contains(arena1, k);
    assert(!amap(arena1).contains_key(k));
    assert forall|i: int, j: int| 0 <= i < j < arena2.len() implies arena2[i].key
        != arena2[j].key by {
        if j < arena2.len() - 1 {
            let i2: int = if i < p {
                i
            } else {
                i + 1
            };
            let j2: int = if j < p {
                j
            } else {
                j + 1
            };
            assert(arena2[i] == arena0[i2]);
            assert(arena2[j] == arena0[j2]);
        } else {
            assert(arena2[j] == kv);
            assert(arena1[i].key != k);
        }
    }
    assert forall|i: int| 0 <= i < arena2.len() implies unique_keys(
        (#[trigger] arena2[i]).value.children_files@,
    ) && unique_keys(arena2[i].value.children_directories@) by {
        if i < arena2.len() - 1 {
            let i2: int = if i < p {
                i
            } else {
                i + 1
            };
            assert(arena2[i] == arena0[i2]);
        } else {
            assert(arena2[i] == kv);
        }
    }
}

impl WalrusFs {
    /// Look `name` up in the file index owned by `o`.
    pub fn child_file_lookup(&self, o: Option<u64>, name: &str) -> (r: Option<u64>)
        requires
            self.uniq(),
            self.owner_ok(o),
        ensures
            r is Some <==> self.file_index_at(o).contains_key(name@),
            r matches Some(id) ==> self.file_index_at(o)[name@] == id,
    {
        match o {
            None => get_from_vec_str_key(&self.root_children_files, name),
            Some(d) => {
                let rec = get_from_arena(&self.dir_arena, d).unwrap();
                proof {
                    let i = choose|i: int|
                        0 <= i < self.dir_arena@.len() && self.dir_arena@[i].key == d
                            && self.dir_arena@[i].value == *rec;
                    assert(unique_keys((self.dir_arena@[i]).value.children_files@));
                }
                get_from_vec_str_key(&rec.children_files, name)
            },
        }
    }

    /// Look `name` up in the directory index owned by `o`.
    pub fn child_dir_lookup(&self, o: Option<u64>, name: &str) -> (r: Option<u64>)
        requires
            self.uniq(),
            self.owner_ok(o),
        ensures
            r is Some <==> self.dir_index_at(o).contains_key(name@),
            r matches Some(id) ==> self.dir_index_at(o)[name@] == id,
    {
        match o {
            None => get_from_vec_str_key(&self.root_children_directories, name),
            Some(d) => {
                let rec = get_from_arena(&self.dir_arena, d).unwrap();
                proof {
                    let i = choose|i: int|
                        0 <= i < self.dir_arena@.len() && self.dir_arena@[i].key == d
                            && self.dir_arena@[i].value == *rec;
                    assert(unique_keys((self.dir_arena@[i]).value.children_directories@));
                }
                get_from_vec_str_key(&rec.children_directories, name)
            },
        }
    }

    /// Bind `name` to the file id `id` in the file index owned by `o`,
    /// overwriting any existing binding; report the id previously bound.
    pub fn child_file_bind(&mut self, o: Option<u64>, name: String, id: u64) -> (r: Option<u64>)
        requires
            old(self).uniq(),
            old(self).owner_ok(o),
        ensures
            final(self).uniq(),
            final(self).owner_ok(o),
            r is Some <==> old(self).file_index_at(o).contains_key(name@),
            r matches Some(prev) ==> old(self).file_index_at(o)[name@] == prev,
            final(self).file_index_at(o) == old(self).file_index_at(o).insert(name@, id),
            final(self).obj_id_counter == old(self).obj_id_counter,
            final(self).current_epoch == old(self).current_epoch,
            final(self).file_arena@ == old(self).file_arena@,
            final(self).root_children_directories@ == old(self).root_children_directories@,
            o is None ==> final(self).dir_arena@ == old(self).dir_arena@,
            o is Some ==> final(self).root_children_files@ == old(self).root_children_files@,
            o matches Some(d) ==> final(self).dirs() == old(self).dirs().insert(
                d,
                (DirView {
                    children_files: old(self).dirs()[d].children_files.insert(name@, id),
                    ..old(self).dirs()[d]
                }),
            ),
    {
        match o {
            None => insert_into_vec_str_key(&mut self.root_children_files, name, id),
            Some(d) => {
                proof {
                    lemma_amap_contains(self.dir_arena@, d);
                }
                let p = find_u64_key(&self.dir_arena, d).unwrap();
                let ghost arena0 = self.dir_arena@;
                let ghost d0 = old(self).dirs()[d];
                proof {
                    lemma_amap_value(arena0, p as int);
                    assert(unique_keys((arena0[p as int]).value.children_files@));
                    assert(unique_keys((arena0[p as int]).value.children_directories@));
                }
                let mut kv = self.dir_arena.remove(p);
                let r = insert_into_vec_str_key(&mut kv.value.children_files, name, id);
                proof {
                    lemma_arena_replace(arena0, p as int, kv, arena0.remove(p as int).push(kv));
                }
                self.dir_arena.push(kv);
                proof {
                    assert(kv.value@ == (DirView {
                        children_files: d0.children_files.insert(name@, id),
                        ..d0
                    }));
                    assert(self.dirs() == old(self).dirs().insert(
                        d,
                        (DirView { children_files: d0.children_files.insert(name@, id), ..d0 }),
                    ));
                }
                r
            },
        }
    }

    /// Bind `name` to the directory id `id` in the directory index owned by
    /// `o`, overwriting any existing binding; report the id previously
    /// bound.
    pub fn child_dir_bind(&mut self, o: Option<u64>, name: String, id: u64) -> (r: Option<u64>)
        requires
            old(self).uniq(),
            old(self).owner_ok(o),
        ensures
            final(self).uniq(),
            final(self).owner_ok(o),
            r is Some <==> old(self).dir_index_at(o).contains_key(name@),
            r matches Some(prev) ==> old(self).dir_index_at(o)[name@] == prev,
            final(self).dir_index_at(o) == old(self).dir_index_at(o).insert(name@, id),
            final(self).obj_id_counter == old(self).obj_id_counter,
            final(self).current_epoch == old(self).current_epoch,
            final(self).file_arena@ == old(self).file_arena@,
            final(self).root_children_files@ == old(self).root_children_files@,
            o is None ==> final(self).dir_arena@ == old(self).dir_arena@,
            o is Some ==> final(self).root_children_directories@ == old(self).root_children_directories@,
            o matches Some(d) ==> final(self).dirs() == old(self).dirs().insert(
                d,
                (DirView {
                    children_directories: old(self).dirs()[d].children_directories.insert(
                        name@,
                        id,
                    ),
                    ..old(self).dirs()[d]
                }),
            ),
    {
        match o {
            None => insert_into_vec_str_key(&mut self.root_children_directories, name, id),
            Some(d) => {
                proof {
                    lemma_amap_contains(self.dir_arena@, d);
                }
                let p = find_u64_key(&self.dir_arena, d).unwrap();
                let ghost arena0 = self.dir_arena@;
                let ghost d0 = old(self).dirs()[d];
                proof {
                    lemma_amap_value(arena0, p as int);
                    assert(unique_keys((arena0[p as int]).value.children_files@));
                    assert(unique_keys((arena0[p as int]).value.children_directories@));
                }
                let mut kv = self.dir_arena.remove(p);
                let r = insert_into_vec_str_key(&mut kv.value.children_directories, name, id);
                proof {
                    lemma_arena_replace(arena0, p as int, kv, arena0.remove(p as int).push(kv));
                }
                self.dir_arena.push(kv);
                proof {
                    assert(kv.value@ == (DirView {
                        children_directories: d0.children_directories.insert(name@, id),
                        ..d0
                    }));
                    assert(self.dirs() == old(self).dirs().insert(
                        d,
                        (DirView {
                            children_directories: d0.children_directories.insert(name@, id),
                            ..d0
                        }),
                    ));
                }
                r
            },
        }
    }

    /// Drop the binding of `name` from the file index owned by `o`; report
    /// the id it carried.
    pub fn child_file_unbind(&mut self, o: Option<u64>, name: &str) -> (r: Option<u64>)
        requires
            old(self).uniq(),
            old(self).owner_ok(o),
        ensures
            final(self).uniq(),
            final(self).owner_ok(o),
            r is Some <==> old(self).file_index_at(o).contains_key(name@),
            r matches Some(prev) ==> old(self).file_index_at(o)[name@] == prev,
            final(self).file_index_at(o) == old(self).file_index_at(o).remove(name@),
            final(self).obj_id_counter == old(self).obj_id_counter,
            final(self).current_epoch == old(self).current_epoch,
            final(self).file_arena@ == old(self).file_arena@,
            final(self).root_children_directories@ == old(self).root_children_directories@,
            o is None ==> final(self).dir_arena@ == old(self).dir_arena@,
            o is Some ==> final(self).root_children_files@ == old(self).root_children_files@,
            o matches Some(d) ==> final(self).dirs() == old(self).dirs().insert(
                d,
                (DirView {
                    children_files: old(self).dirs()[d].children_files.remove(name@),
                    ..old(self).dirs()[d]
                }),
            ),
    {
        match o {
            None => remove_from_vec_str_key(&mut self.root_children_files, name),
            Some(d) => {
                proof {
                    lemma_amap_contains(self.dir_arena@, d);
                }
                let p = find_u64_key(&self.dir_arena, d).unwrap();
                let ghost arena0 = self.dir_arena@;
                let ghost d0 = old(self).dirs()[d];
                proof {
                    lemma_amap_value(arena0, p as int);
                    assert(unique_keys((arena0[p as int]).value.children_files@));
                    assert(unique_keys((arena0[p as int]).value.children_directories@));
                }
                let mut kv = self.dir_arena.remove(p);
                let r = remove_from_vec_str_key(&mut kv.value.children_files, name);
                proof {
                    lemma_arena_replace(arena0, p as int, kv, arena0.remove(p as int).push(kv));
                }
                self.dir_arena.push(kv);
                proof {
                    assert(kv.value@ == (DirView {
                        children_files: d0.children_files.remove(name@),
                        ..d0
                    }));
                    assert(self.dirs() == old(self).dirs().insert(
                        d,
                        (DirView { children_files: d0.children_files.remove(name@), ..d0 }),
                    ));
                }
                r
            },
        }
    }

    /// Drop the binding of `name` from the directory index owned by `o`;
    /// report the id it carried.
    pub fn child_dir_unbind(&mut self, o: Option<u64>, name: &str) -> (r: Option<u64>)
        requires
            old(self).uniq(),
            old(self).owner_ok(o),
        ensures
            final(self).uniq(),
            final(self).owner_ok(o),
            r is Some <==> old(self).dir_index_at(o).contains_key(name@),
            r matches Some(prev) ==> old(self).dir_index_at(o)[name@] == prev,
            final(self).dir_index_at(o) == old(self).dir_index_at(o).remove(name@),
            final(self).obj_id_counter == old(self).obj_id_counter,
            final(self).current_epoch == old(self).current_epoch,
            final(self).file_arena@ == old(self).file_arena@,
            final(self).root_children_files@ == old(self).root_children_files@,
            o is None ==> final(self).dir_arena@ == old(self).dir_arena@,
            o is Some ==> final(self).root_children_directories@ == old(self).root_children_directories@,
            o matches Some(d) ==> final(self).dirs() == old(self).dirs().insert(
                d,
                (DirView {
                    children_directories: old(self).dirs()[d].children_directories.remove(name@),
                    ..old(self).dirs()[d]
                }),
            ),
    {
        match o {
            None => remove_from_vec_str_key(&mut self.root_children_directories, name),
            Some(d) => {
                proof {
                    lemma_amap_contains(self.dir_arena@, d);
                }
                let p = find_u64_key(&self.dir_arena, d).unwrap();
                let ghost arena0 = self.dir_arena@;
                let ghost d0 = old(self).dirs()[d];
                proof {
                    lemma_amap_value(arena0, p as int);
                    assert(unique_keys((arena0[p as int]).value.children_files@));
                    assert(unique_keys((arena0[p as int]).value.children_directories@));
                }
                let mut kv = self.dir_arena.remove(p);
                let r = remove_from_vec_str_key(&mut kv.value.children_directories, name);
                proof {
                    lemma_arena_replace(arena0, p as int, kv, arena0.remove(p as int).push(kv));
                }
                self.dir_arena.push(kv);
                proof {
                    assert(kv.value@ == (DirView {
                        children_directories: d0.children_directories.remove(name@),
                        ..d0
                    }));
                    assert(self.dirs() == old(self).dirs().insert(
                        d,
                        (DirView {
                            children_directories: d0.children_directories.remove(name@),
                            ..d0
                        }),
                    ));
                }
                r
            },
        }
    }
}

} // verus!
