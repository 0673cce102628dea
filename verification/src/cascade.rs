//! `delete_dir`: removing a directory together with its entire descendant
//! subtree, leaving no dangling reference behind.

use vstd::prelude::*;
use crate::arena::remove_from_arena;
use crate::arena::unique_ids;
use crate::errors::WalrusFsError;
use crate::fs::WalrusFs;
use crate::index::unique_keys;
use crate::pathutil::remove_trailing_slash;
use crate::pathutil::strip_trailing;
use crate::pathutil::valid_path;
use crate::pathutil::validate_path;
use crate::records::DirView;
use crate::resolve::spec_resolve;
use crate::walk::dir_has_child;
use crate::walk::dir_has_file_child;
use crate::walk::lemma_push_contains;
use crate::walk::lemma_reachable_in_closed;
use crate::walk::reach;
use crate::walk::reachable;
use crate::walk::step;
use crate::walk::subtree_file;

verus! {

/// What `delete_dir` decides: either an error, or the owner and leaf name
/// of the directory whose subtree goes away.
pub open spec fn delete_dir_decision(fs: WalrusFs, path: Seq<char>) -> Result<
    (Option<u64>, Seq<char>),
    WalrusFsError,
> {
    let clean = strip_trailing(path);
    if !valid_path(clean) {
        Err(WalrusFsError::PathError)
    } else {
        match spec_resolve(fs, clean) {
            Err(e) => Err(e),
            Ok((parent, leaf)) => {
                if !fs.dir_index_at(parent).contains_key(leaf) {
                    Err(WalrusFsError::PathNotFound)
                } else {
                    Ok((parent, leaf))
                }
            },
        }
    }
}

/// Along a child chain ids only grow, so nothing in a subtree reaches back
/// above its root.
proof fn lemma_reach_monotone(fs: WalrusFs, start: u64, x: u64, k: nat)
    requires
        fs.child_dir_ids_increase(),
        reach(fs.dirs(), start, x, k),
    ensures
        x >= start,
    decreases k,
{
    if k > 0 {
        let c = choose|c: u64| #[trigger] step(fs.dirs(), c, x) && reach(
            fs.dirs(),
            start,
            c,
            (k - 1) as nat,
        );
        lemma_reach_monotone(fs, start, c, (k - 1) as nat);
        let n = choose|n: Seq<char>| #[trigger] fs.dirs()[c].children_directories.contains_key(n)
            && fs.dirs()[c].children_directories[n] == x;
        assert(fs.dirs()[c].children_directories[n] > c);
    }
}

impl WalrusFs {
    /// Delete the directory at `path` and, with it, every descendant file
    /// and directory.
    #[verifier::loop_isolation(false)]
    #[verifier::rlimit(30)]
    pub fn delete_dir(&mut self, path: &str) -> (r: Result<(), WalrusFsError>)
        requires
            old(self).wf(),
        ensures
            final(self).wf(),
            r is Err ==> *final(self) == *old(self),
            r is Ok <==> delete_dir_decision(*old(self), path@) is Ok,
            r matches Err(e) ==> delete_dir_decision(*old(self), path@) == Err::<
                (Option<u64>, Seq<char>),
                WalrusFsError,
            >(e),
            delete_dir_decision(*old(self), path@) matches Ok(pl) ==> ({
                let fs0 = *old(self);
                let fs1 = *final(self);
                let parent = pl.0;
                let leaf = pl.1;
                let start = fs0.dir_index_at(parent)[leaf];
                let dirs0 = fs0.dirs();
                &&& fs1.obj_id_counter == fs0.obj_id_counter
                &&& fs1.current_epoch == fs0.current_epoch
                &&& fs1.root_files() == fs0.root_files()
                &&& (parent is None ==> fs1.root_dirs() == fs0.root_dirs().remove(leaf))
                &&& (parent is Some ==> fs1.root_dirs() == fs0.root_dirs())
                &&& forall|id: u64| #[trigger]
                    fs1.dirs().contains_key(id) <==> (dirs0.contains_key(id) && !reachable(
                        dirs0,
                        start,
                        id,
                    ))
                &&& forall|id: u64|
                    #[trigger] fs1.dirs().contains_key(id) && parent != Some(id)
                        ==> fs1.dirs()[id] == dirs0[id]
                &&& (parent matches Some(p) ==> fs1.dirs().contains_key(p) && fs1.dirs()[p]
                    == (DirView {
                    children_directories: dirs0[p].children_directories.remove(leaf),
                    ..dirs0[p]
                }))
                &&& forall|f: u64| #[trigger]
                    fs1.files().contains_key(f) <==> (fs0.files().contains_key(f) && !subtree_file(
                        dirs0,
                        start,
                        f,
                    ))
                &&& forall|f: u64| #[trigger]
                    fs1.files().contains_key(f) ==> fs1.files()[f] == fs0.files()[f]
            }),
    {
        let clean_path = remove_trailing_slash(path);
        match validate_path(clean_path.as_str()) {
            Err(e) => {
                return Err(e);
            },
            Ok(_) => {},
        }
        let (parent, dir_name) = match self.internal_resolve_parent_id_and_name(
            clean_path.as_str(),
        ) {
            Ok(pn) => pn,
            Err(e) => {
                return Err(e);
            },
        };
        let start = match self.child_dir_lookup(parent, dir_name.as_str()) {
            None => {
                return Err(WalrusFsError::PathNotFound);
            },
            Some(id) => id,
        };
        proof {
            self.lemma_dir_lookup_backed(parent, dir_name@);
        }
        let (files_to_delete, dirs_to_delete) = self.internal_recursive_get_dir_obj_ids(start);
        let ghost fdel = files_to_delete@;
        let ghost rd = dirs_to_delete@;

        self.child_dir_unbind(parent, dir_name.as_str());
        let ghost mid = *self;

        let mut i: usize = 0;
        while i < files_to_delete.len()
            invariant
                0 <= i <= fdel.len(),
                self.dir_arena@ == mid.dir_arena@,
                self.root_children_files@ == mid.root_children_files@,
                self.root_children_directories@ == mid.root_children_directories@,
                self.obj_id_counter == mid.obj_id_counter,
                self.current_epoch == mid.current_epoch,
                unique_ids(self.file_arena@),
                forall|f: u64| #[trigger]
                    self.files().contains_key(f) <==> (mid.files().contains_key(f)
                        && !fdel.subrange(0, i as int).contains(f)),
                forall|f: u64| #[trigger]
                    self.files().contains_key(f) ==> self.files()[f] == mid.files()[f],
            decreases fdel.len() - i,
        {
            let fid = files_to_delete[i];
            // Mentioning the loop-head file map lets the solver relate the
            // removal's effect to the loop invariant.
            let ghost head_files = self.files();
            remove_from_arena(&mut self.file_arena, fid);
            proof {
                assert(fdel.subrange(0, i as int + 1) =~= fdel.subrange(0, i as int).push(
                    fdel[i as int],
                ));
                lemma_push_contains(fdel.subrange(0, i as int), fdel[i as int]);
            }
            i = i + 1;
        }
        proof {
            assert(fdel.subrange(0, fdel.len() as int) =~= fdel);
        }

        let ghost mid2 = *self;
        let mut i2: usize = 0;
        while i2 < dirs_to_delete.len()
            invariant
                0 <= i2 <= rd.len(),
                self.file_arena@ == mid2.file_arena@,
                self.root_children_files@ == mid2.root_children_files@,
                self.root_children_directories@ == mid2.root_children_directories@,
                self.obj_id_counter == mid2.obj_id_counter,
                self.current_epoch == mid2.current_epoch,
                unique_ids(self.dir_arena@),
                forall|j: int|
                    0 <= j < self.dir_arena@.len() ==> unique_keys(
                        (#[trigger] self.dir_arena@[j]).value.children_files@,
                    ) && unique_keys(self.dir_arena@[j].value.children_directories@),
                forall|d: u64| #[trigger]
                    self.dirs().contains_key(d) <==> (mid2.dirs().contains_key(d) && !rd.subrange(
                        0,
                        i2 as int,
                    ).contains(d)),
                forall|d: u64| #[trigger]
                    self.dirs().contains_key(d) ==> self.dirs()[d] == mid2.dirs()[d],
            decreases rd.len() - i2,
        {
            let did = dirs_to_delete[i2];
            let ghost head = *self;
            remove_from_arena(&mut self.dir_arena, did);
            proof {
                assert(rd.subrange(0, i2 as int + 1) =~= rd.subrange(0, i2 as int).push(
                    rd[i2 as int],
                ));
                lemma_push_contains(rd.subrange(0, i2 as int), rd[i2 as int]);
                assert(self.dirs() == head.dirs().remove(did));
                assert(did == rd[i2 as int]);
                assert forall|d: u64| #[trigger] self.dirs().contains_key(d) <==> (
                mid2.dirs().contains_key(d) && !rd.subrange(0, i2 as int + 1).contains(d)) by {
                    assert(rd.subrange(0, i2 as int + 1).contains(d) <==> rd.subrange(
                        0,
                        i2 as int,
                    ).contains(d) || d == rd[i2 as int]);
                    assert(head.dirs().contains_key(d) <==> (mid2.dirs().contains_key(d)
                        && !rd.subrange(0, i2 as int).contains(d)));
                    assert(self.dirs().contains_key(d) <==> head.dirs().contains_key(d) && d
                        != did);
                }
                assert forall|d: u64| #[trigger] self.dirs().contains_key(d) implies self.dirs()[d]
                    == mid2.dirs()[d] by {
                    assert(head.dirs().contains_key(d));
                    assert(self.dirs()[d] == head.dirs()[d]);
                }
                assert forall|j: int| 0 <= j < self.dir_arena@.len() implies unique_keys(
                    (#[trigger] self.dir_arena@[j]).value.children_files@,
                ) && unique_keys(self.dir_arena@[j].value.children_directories@) by {
                    let j2 = choose|j2: int|
                        0 <= j2 < head.dir_arena@.len() && self.dir_arena@[j] == head.dir_arena@[j2];
                    assert(unique_keys((head.dir_arena@[j2]).value.children_files@));
                    assert(unique_keys((head.dir_arena@[j2]).value.children_directories@));
                }
            }
            i2 = i2 + 1;
        }
        proof {
            assert(rd.subrange(0, rd.len() as int) =~= rd);
        }

        let ghost arena_before2 = self.dir_arena@;
        let ghost mid3 = *self;
        remove_from_arena(&mut self.dir_arena, start);
        proof {
            assert forall|j: int| 0 <= j < self.dir_arena@.len() implies unique_keys(
                (#[trigger] self.dir_arena@[j]).value.children_files@,
            ) && unique_keys(self.dir_arena@[j].value.children_directories@) by {
                let j2 = choose|j2: int|
                    0 <= j2 < arena_before2.len() && self.dir_arena@[j] == arena_before2[j2];
                assert(unique_keys((arena_before2[j2]).value.children_files@));
                assert(unique_keys((arena_before2[j2]).value.children_directories@));
            }
            assert(mid2.dirs() == mid.dirs());
            assert(mid.files() == old(self).files());
            assert(self.files() == mid2.files());
            assert forall|id: u64| #[trigger] mid.dirs().contains_key(id) <==> old(
                self,
            ).dirs().contains_key(id) by {
                if parent is Some {
                    assert(old(self).dirs().contains_key(parent.unwrap()));
                }
            }
            assert forall|id: u64| mid.dirs().contains_key(id) && parent != Some(id) implies
                #[trigger] mid.dirs()[id] == old(self).dirs()[id] by {}
            assert forall|id: u64| #[trigger] self.dirs().contains_key(id) <==> (old(
                self,
            ).dirs().contains_key(id) && !rd.contains(id) && id != start) by {
                assert(self.dirs() == mid3.dirs().remove(start));
                assert(mid3.dirs().contains_key(id) <==> (mid2.dirs().contains_key(id)
                    && !rd.contains(id)));
            }
            assert forall|id: u64|
                #[trigger] self.dirs().contains_key(id) && parent != Some(id) implies self.dirs()[id]
                == old(self).dirs()[id] by {
                assert(self.dirs()[id] == mid3.dirs()[id]);
                assert(mid3.dirs()[id] == mid2.dirs()[id]);
            }
            if parent is Some {
                let p = parent.unwrap();
                if self.dirs().contains_key(p) {
                    assert(self.dirs()[p] == mid3.dirs()[p]);
                    assert(mid3.dirs()[p] == mid2.dirs()[p]);
                    assert(mid.dirs()[p] == (DirView {
                        children_directories: old(self).dirs()[p].children_directories.remove(
                            dir_name@,
                        ),
                        ..old(self).dirs()[p]
                    }));
                }
            }
            lemma_delete_dir_wf(*old(self), *self, parent, dir_name@, start, rd, fdel);
        }
        Ok(())
    }
}

/// After the cascade, the full invariant holds again, and the surviving
/// records are exactly those outside the deleted subtree.
proof fn lemma_delete_dir_wf(
    fs0: WalrusFs,
    fs1: WalrusFs,
    parent: Option<u64>,
    leaf: Seq<char>,
    start: u64,
    rd: Seq<u64>,
    rf: Seq<u64>,
)
    requires
        fs0.wf(),
        fs1.uniq(),
        fs0.owner_ok(parent),
        fs0.dir_index_at(parent).contains_key(leaf),
        start == fs0.dir_index_at(parent)[leaf],
        fs0.dirs().contains_key(start),
        !rd.contains(start),
        forall|x: u64| #[trigger]
            rd.contains(x) ==> fs0.dirs().contains_key(x) && reachable(fs0.dirs(), start, x) && x
                != start,
        forall|d: u64, c: u64|
            (rd.contains(d) || d == start) && #[trigger] step(fs0.dirs(), d, c) ==> rd.contains(c)
                || c == start,
        forall|f: u64| #[trigger] rf.contains(f) <==> subtree_file(fs0.dirs(), start, f),
        fs1.obj_id_counter == fs0.obj_id_counter,
        fs1.root_files() == fs0.root_files(),
        parent is None ==> fs1.root_dirs() == fs0.root_dirs().remove(leaf),
        parent is Some ==> fs1.root_dirs() == fs0.root_dirs(),
        forall|id: u64| #[trigger]
            fs1.dirs().contains_key(id) <==> (fs0.dirs().contains_key(id) && !rd.contains(id) && id
                != start),
        forall|id: u64|
            #[trigger] fs1.dirs().contains_key(id) && parent != Some(id) ==> fs1.dirs()[id]
                == fs0.dirs()[id],
        parent matches Some(p) ==> (fs1.dirs().contains_key(p) ==> fs1.dirs()[p] == (DirView {
            children_directories: fs0.dirs()[p].children_directories.remove(leaf),
            ..fs0.dirs()[p]
        })),
        forall|f: u64| #[trigger]
            fs1.files().contains_key(f) <==> (fs0.files().contains_key(f) && !rf.contains(f)),
        forall|f: u64| #[trigger] fs1.files().contains_key(f) ==> fs1.files()[f] == fs0.files()[f],
    ensures
        fs1.wf(),
        forall|id: u64| #[trigger]
            fs1.dirs().contains_key(id) <==> (fs0.dirs().contains_key(id) && !reachable(
                fs0.dirs(),
                start,
                id,
            )),
        parent matches Some(p) ==> fs1.dirs().contains_key(p),
    {
    let dirs0 = fs0.dirs();
    // The deleted set is exactly the reachable set.
    assert forall|x: u64| rd.contains(x) || x == start implies reachable(dirs0, start, x) by {
        if x == start {
            assert(reach(dirs0, start, x, 0nat));
        }
    }
    assert forall|x: u64| reachable(dirs0, start, x) && dirs0.contains_key(x) implies rd.contains(
        x,
    ) || x == start by {
        let k = choose|k: nat| reach(dirs0, start, x, k);
        lemma_reachable_in_closed(dirs0, start, rd, x, k);
    }
    // A reachable id that the arena lacks cannot be referenced anyway; for
    // the contains-iff we also need: reachable implies deleted-or-start.
    assert forall|id: u64| #[trigger] fs1.dirs().contains_key(id) implies (dirs0.contains_key(id)
        && !reachable(dirs0, start, id)) by {
        if reachable(dirs0, start, id) {
            let k = choose|k: nat| reach(dirs0, start, id, k);
            lemma_reachable_in_closed(dirs0, start, rd, id, k);
        }
    }
    assert(reach(dirs0, start, start, 0nat));
    assert(reachable(dirs0, start, start));

    // The parent is never inside the subtree it names.
    if parent is Some {
        let p = parent.unwrap();
        assert(fs0.dir_ref_at(parent, leaf, start));
        assert(dir_has_child(dirs0[p], start)) by {
            assert(dirs0[p].children_directories.contains_key(leaf));
        }
        assert(dirs0[p].children_directories[leaf] > p);
        if reachable(dirs0, start, p) {
            let k = choose|k: nat| reach(dirs0, start, p, k);
            lemma_reach_monotone(fs0, start, p, k);
            assert(false);
        }
        assert(fs1.dirs().contains_key(p));
    }

    // Deleted directories and files are referenced only from inside the
    // subtree.
    assert forall|o: Option<u64>, n: Seq<char>, id: u64|
        #[trigger] fs0.dir_ref_at(o, n, id) && (rd.contains(id) || id == start) && !(o == parent
        && n == leaf) implies (o matches Some(c) && (rd.contains(c) || c == start)) by {
        if id == start {
            assert(fs0.dir_ref_at(parent, leaf, start));
            assert(false);
        } else {
            let k = choose|k: nat| reach(dirs0, start, id, k);
            assert(k != 0);
            let c = choose|c: u64| #[trigger] step(dirs0, c, id) && reach(
                dirs0,
                start,
                c,
                (k - 1) as nat,
            );
            lemma_reachable_in_closed(dirs0, start, rd, c, (k - 1) as nat);
            let n2 = choose|n2: Seq<char>| #[trigger] dirs0[c].children_directories.contains_key(n2)
                && dirs0[c].children_directories[n2] == id;
            assert(fs0.dir_ref_at(Some(c), n2, id));
        }
    }
    assert forall|o: Option<u64>, n: Seq<char>, f: u64|
        #[trigger] fs0.file_ref_at(o, n, f) && rf.contains(f) implies (o matches Some(c) && (
    rd.contains(c) || c == start)) by {
        let d = choose|d: u64| #[trigger] reachable(dirs0, start, d) && dirs0.contains_key(d)
            && dir_has_file_child(dirs0[d], f);
        let n2 = choose|n2: Seq<char>| #[trigger] dirs0[d].children_files.contains_key(n2)
            && dirs0[d].children_files[n2] == f;
        assert(fs0.file_ref_at(Some(d), n2, f));
        let k = choose|k: nat| reach(dirs0, start, d, k);
        lemma_reachable_in_closed(dirs0, start, rd, d, k);
    }

    // Transfers.
    assert forall|o: Option<u64>| #[trigger] fs1.owner_ok(o) implies fs0.owner_ok(o) by {}
    assert forall|o: Option<u64>| fs1.owner_ok(o) implies #[trigger] fs1.file_index_at(o)
        == fs0.file_index_at(o) by {}
    assert forall|o: Option<u64>| fs1.owner_ok(o) && o != parent implies #[trigger] fs1.dir_index_at(o)
        == fs0.dir_index_at(o) by {}
    assert forall|o: Option<u64>, n: Seq<char>, id: u64| #[trigger] fs1.file_ref_at(o, n, id) implies fs0.file_ref_at(
        o,
        n,
        id,
    ) by {}
    assert forall|o: Option<u64>, n: Seq<char>, id: u64| #[trigger] fs1.dir_ref_at(o, n, id) implies fs0.dir_ref_at(
        o,
        n,
        id,
    ) && !(o == parent && n == leaf) by {
        if o == parent {
            if parent is Some {
                assert(fs1.dir_index_at(o) == fs0.dir_index_at(o).remove(leaf));
            }
        }
    }

    // Arena consistency.
    assert forall|n: Seq<char>| #[trigger] fs1.root_files().contains_key(n) implies fs1.files().contains_key(
        fs1.root_files()[n],
    ) by {
        assert(fs1.file_ref_at(None, n, fs1.root_files()[n]));
        assert(fs0.file_ref_at(None, n, fs1.root_files()[n]));
    }
    assert forall|n: Seq<char>| #[trigger] fs1.root_dirs().contains_key(n) implies fs1.dirs().contains_key(
        fs1.root_dirs()[n],
    ) by {
        assert(fs1.dir_ref_at(None, n, fs1.root_dirs()[n]));
        assert(fs0.dir_ref_at(None, n, fs1.root_dirs()[n]));
    }
    assert forall|d: u64, n: Seq<char>|
        fs1.dirs().contains_key(d) && #[trigger] fs1.dirs()[d].children_files.contains_key(
            n,
        ) implies fs1.files().contains_key(fs1.dirs()[d].children_files[n]) by {
        assert(fs1.file_ref_at(Some(d), n, fs1.dirs()[d].children_files[n]));
        assert(fs0.file_ref_at(Some(d), n, fs1.dirs()[d].children_files[n]));
    }
    assert forall|d: u64, n: Seq<char>|
        fs1.dirs().contains_key(d) && #[trigger] fs1.dirs()[d].children_directories.contains_key(
            n,
        ) implies fs1.dirs().contains_key(fs1.dirs()[d].children_directories[n]) by {
        assert(fs1.dir_ref_at(Some(d), n, fs1.dirs()[d].children_directories[n]));
        assert(fs0.dir_ref_at(Some(d), n, fs1.dirs()[d].children_directories[n]));
    }

    // Counter bounds.
    assert forall|id: u64| #[trigger] fs1.files().contains_key(id) implies 1 <= id
        <= fs1.obj_id_counter by {
        assert(fs0.files().contains_key(id));
    }
    assert forall|id: u64| #[trigger] fs1.dirs().contains_key(id) implies 1 <= id
        <= fs1.obj_id_counter by {
        assert(fs0.dirs().contains_key(id));
    }

    // Single-parent structure.
    assert forall|o1: Option<u64>, n1: Seq<char>, o2: Option<u64>, n2: Seq<char>, id: u64|
        #[trigger] fs1.file_ref_at(o1, n1, id) && #[trigger] fs1.file_ref_at(o2, n2, id) implies o1
        == o2 && n1 == n2 by {}
    assert forall|o1: Option<u64>, n1: Seq<char>, o2: Option<u64>, n2: Seq<char>, id: u64|
        #[trigger] fs1.dir_ref_at(o1, n1, id) && #[trigger] fs1.dir_ref_at(o2, n2, id) implies o1
        == o2 && n1 == n2 by {}

    // Child directory ids still increase.
    assert forall|d: u64, n: Seq<char>|
        fs1.dirs().contains_key(d) && fs1.dirs()[d].children_directories.contains_key(
            n,
        ) implies #[trigger] fs1.dirs()[d].children_directories[n] > d by {
        assert(fs0.dirs().contains_key(d));
        assert(fs1.dir_ref_at(Some(d), n, fs1.dirs()[d].children_directories[n]));
        assert(fs0.dir_ref_at(Some(d), n, fs1.dirs()[d].children_directories[n]));
        assert(fs0.dirs()[d].children_directories.contains_key(n));
        assert(fs0.dirs()[d].children_directories[n] > d);
    }
}

} // verus!
