//! The recursive subtree walk shared by `delete_dir` and `get_dir_all`: an
//! explicit work list with a visited set (defensive against cycles, which
//! the invariant rules out), collecting every descendant file id and
//! directory id.

use vstd::prelude::*;
use crate::arena::amap;
use crate::arena::get_from_arena;
use crate::arena::unique_ids;
use crate::fs::WalrusFs;
use crate::index::lemma_smap_contains;
use crate::index::lemma_smap_value;
use crate::index::unique_keys;
use crate::records::DirView;
use crate::records::KeyValueU64DirObject;

verus! {

/// `d` binds some name to the directory id `c`.
pub open spec fn dir_has_child(d: DirView, c: u64) -> bool {
    exists|n: Seq<char>| #[trigger] d.children_directories.contains_key(n)
        && d.children_directories[n] == c
}

/// `d` binds some name to the file id `f`.
pub open spec fn dir_has_file_child(d: DirView, f: u64) -> bool {
    exists|n: Seq<char>| #[trigger] d.children_files.contains_key(n) && d.children_files[n] == f
}

/// One parent-to-child edge of the directory graph.
pub open spec fn step(dirs: Map<u64, DirView>, a: u64, c: u64) -> bool {
    dirs.contains_key(a) && dir_has_child(dirs[a], c)
}

/// `start` reaches `x` in exactly `k` edges.
pub open spec fn reach(dirs: Map<u64, DirView>, start: u64, x: u64, k: nat) -> bool
    decreases k,
{
    if k == 0 {
        x == start
    } else {
        exists|c: u64| #[trigger] step(dirs, c, x) && reach(dirs, start, c, (k - 1) as nat)
    }
}

/// `x` lies in the subtree rooted at `start` (the root itself included).
pub open spec fn reachable(dirs: Map<u64, DirView>, start: u64, x: u64) -> bool {
    exists|k: nat| reach(dirs, start, x, k)
}

/// `f` is a file child of some directory of the subtree rooted at `start`.
pub open spec fn subtree_file(dirs: Map<u64, DirView>, start: u64, f: u64) -> bool {
    exists|d: u64| #[trigger] reachable(dirs, start, d) && dirs.contains_key(d)
        && dir_has_file_child(dirs[d], f)
}

/// Whatever `start` reaches lies in any child-closed set around `start`.
pub proof fn lemma_reachable_in_closed(
    dirs: Map<u64, DirView>,
    start: u64,
    rd: Seq<u64>,
    x: u64,
    k: nat,
)
    requires
        forall|d: u64, c: u64|
            (rd.contains(d) || d == start) && #[trigger] step(dirs, d, c) ==> rd.contains(c) || c
                == start,
        reach(dirs, start, x, k),
    ensures
        rd.contains(x) || x == start,
    decreases k,
{
    if k > 0 {
        let c = choose|c: u64| #[trigger] step(dirs, c, x) && reach(dirs, start, c, (k - 1) as nat);
        lemma_reachable_in_closed(dirs, start, rd, c, (k - 1) as nat);
    }
}

/// Appending a fresh element keeps a sequence duplicate-free.
pub proof fn lemma_push_nodup(s: Seq<u64>, x: u64)
    requires
        s.no_duplicates(),
        !s.contains(x),
    ensures
        s.push(x).no_duplicates(),
{
    assert forall|i: int| 0 <= i < s.len() implies s[i] != x by {
        if s[i] == x {
            assert(s.contains(x));
        }
    }
    assert forall|i: int, j: int| 0 <= i < j < s.push(x).len() implies s.push(x)[i] != s.push(x)[j] by {
        if j < s.len() {
            assert(s[i] != s[j]);
        } else {
            assert(s.push(x)[j] == x);
            assert(s.push(x)[i] == s[i]);
        }
    }
}

/// What `push` does to membership.
pub proof fn lemma_push_contains(s: Seq<u64>, x: u64)
    ensures
        forall|y: u64| #[trigger] s.push(x).contains(y) <==> s.contains(y) || y == x,
{
    assert forall|y: u64| #[trigger] s.push(x).contains(y) implies s.contains(y) || y == x by {
        let i = choose|i: int| 0 <= i < s.push(x).len() && s.push(x)[i] == y;
        if i < s.len() {
            assert(s[i] == y);
        }
    }
    assert forall|y: u64| s.contains(y) || y == x implies #[trigger] s.push(x).contains(y) by {
        if s.contains(y) {
            let i = choose|i: int| 0 <= i < s.len() && s[i] == y;
            assert(s.push(x)[i] == y);
        } else {
            assert(s.push(x)[s.len() as int] == y);
        }
    }
}

/// A duplicate-free sequence of ids drawn from an arena is no longer than
/// the arena.
proof fn lemma_nodup_len_bound(s: Seq<u64>, arena: Seq<KeyValueU64DirObject>)
    requires
        s.no_duplicates(),
        unique_ids(arena),
        forall|x: u64| #[trigger] s.contains(x) ==> amap(arena).contains_key(x),
    ensures
        s.len() <= arena.len(),
{
    s.unique_seq_to_set();
    crate::arena::lemma_amap_card(arena);
    assert(s.to_set().subset_of(amap(arena).dom()));
    vstd::set_lib::lemma_len_subset(s.to_set(), amap(arena).dom());
}

/// Linear-scan membership in a vector of ids.
pub fn vec_contains_u64(v: &Vec<u64>, x: u64) -> (r: bool)
    ensures
        r == v@.contains(x),
{
    let mut i: usize = 0;
    while i < v.len()
        invariant
            0 <= i <= v@.len(),
            forall|j: int| 0 <= j < i ==> v@[j] != x,
        decreases v@.len() - i,
    {
        if v[i] == x {
            return true;
        }
        i = i + 1;
    }
    proof {
        if v@.contains(x) {
            let j = choose|j: int| 0 <= j < v@.len() && v@[j] == x;
            assert(false);
        }
    }
    false
}

impl WalrusFs {
    /// Collect the subtree rooted at `dir_id`: every descendant file id,
    /// and every descendant directory id other than the root of the walk
    /// itself.
    #[verifier::loop_isolation(false)]
    pub fn internal_recursive_get_dir_obj_ids(&self, dir_id: u64) -> (r: (Vec<u64>, Vec<u64>))
        requires
            self.wf(),
            self.dirs().contains_key(dir_id),
        ensures
            r.0@.no_duplicates(),
            r.1@.no_duplicates(),
            !r.1@.contains(dir_id),
            forall|x: u64| #[trigger]
                r.1@.contains(x) ==> self.dirs().contains_key(x) && reachable(
                    self.dirs(),
                    dir_id,
                    x,
                ) && x != dir_id,
            forall|d: u64, c: u64|
                (r.1@.contains(d) || d == dir_id) && #[trigger] step(self.dirs(), d, c)
                    ==> r.1@.contains(c) || c == dir_id,
            forall|f: u64| #[trigger] r.0@.contains(f) <==> subtree_file(self.dirs(), dir_id, f),
    {
        let ghost dirs = self.dirs();
        let mut file_ids: Vec<u64> = Vec::new();
        let mut dir_ids: Vec<u64> = Vec::new();
        let mut visited: Vec<u64> = Vec::new();
        let mut work: Vec<u64> = Vec::new();
        work.push(dir_id);
        proof {
            assert(reach(dirs, dir_id, dir_id, 0nat));
            assert(work@[0] == dir_id);
            assert(work@.contains(dir_id));
        }
        while work.len() > 0
            invariant
                visited@.no_duplicates(),
                file_ids@.no_duplicates(),
                dir_ids@.no_duplicates(),
                visited@.len() <= self.dir_arena@.len(),
                forall|x: u64| #[trigger]
                    visited@.contains(x) ==> dirs.contains_key(x) && reachable(dirs, dir_id, x),
                forall|x: u64| #[trigger]
                    work@.contains(x) ==> dirs.contains_key(x) && reachable(dirs, dir_id, x),
                forall|x: u64| #[trigger]
                    dir_ids@.contains(x) ==> dirs.contains_key(x) && reachable(dirs, dir_id, x)
                        && x != dir_id,
                forall|x: u64| #[trigger]
                    dir_ids@.contains(x) ==> visited@.contains(x) || work@.contains(x),
                visited@.contains(dir_id) || work@.contains(dir_id),
                forall|v: u64, c: u64|
                    visited@.contains(v) && #[trigger] step(dirs, v, c) ==> dir_ids@.contains(c)
                        || c == dir_id,
                forall|f: u64| #[trigger] file_ids@.contains(f) ==> subtree_file(dirs, dir_id, f),
                forall|v: u64, f: u64|
                    visited@.contains(v) && #[trigger] dir_has_file_child(dirs[v], f)
                        ==> file_ids@.contains(f),
            decreases self.dir_arena@.len() - visited@.len(), work@.len(),
        {
            let ghost work0 = work@;
            let cur = work.pop().unwrap();
            proof {
                assert(work0[work0.len() - 1] == cur);
                assert(work0.contains(cur));
                assert forall|x: u64| #[trigger] work@.contains(x) implies work0.contains(x) by {
                    let i = choose|i: int| 0 <= i < work@.len() && work@[i] == x;
                    assert(work0[i] == x);
                }
                assert forall|x: u64| #[trigger] work0.contains(x) implies work@.contains(x) || x
                    == cur by {
                    let i = choose|i: int| 0 <= i < work0.len() && work0[i] == x;
                    if i < work0.len() - 1 {
                        assert(work@[i] == x);
                    }
                }
            }
            if !vec_contains_u64(&visited, cur) {
                let rec = get_from_arena(&self.dir_arena, cur).unwrap();
                proof {
                    let i = choose|i: int|
                        0 <= i < self.dir_arena@.len() && self.dir_arena@[i].key == cur
                            && self.dir_arena@[i].value == *rec;
                    assert(unique_keys((self.dir_arena@[i]).value.children_files@));
                    assert(unique_keys((self.dir_arena@[i]).value.children_directories@));
                }
                let ghost curk = choose|k: nat| reach(dirs, dir_id, cur, k);

                let mut j: usize = 0;
                while j < rec.children_files.len()
                    invariant
                        0 <= j <= rec.children_files@.len(),
                        file_ids@.no_duplicates(),
                        forall|f: u64| #[trigger]
                            file_ids@.contains(f) ==> subtree_file(dirs, dir_id, f),
                        forall|v: u64, f: u64|
                            visited@.contains(v) && #[trigger] dir_has_file_child(dirs[v], f)
                                ==> file_ids@.contains(f),
                        forall|jj: int|
                            0 <= jj < j ==> file_ids@.contains(
                                (#[trigger] rec.children_files@[jj]).value,
                            ),
                    decreases rec.children_files@.len() - j,
                {
                    let f = rec.children_files[j].value;
                    proof {
                        lemma_smap_value(rec.children_files@, j as int);
                        assert(dirs[cur].children_files.contains_key(
                            rec.children_files@[j as int].key@,
                        ));
                        assert(dir_has_file_child(dirs[cur], f));
                        assert(reach(dirs, dir_id, cur, curk));
                        assert(reachable(dirs, dir_id, cur));
                        assert(subtree_file(dirs, dir_id, f));
                    }
                    if !vec_contains_u64(&file_ids, f) {
                        proof {
                            lemma_push_nodup(file_ids@, f);
                            lemma_push_contains(file_ids@, f);
                        }
                        file_ids.push(f);
                    }
                    j = j + 1;
                }

                let mut j2: usize = 0;
                while j2 < rec.children_directories.len()
                    invariant
                        0 <= j2 <= rec.children_directories@.len(),
                        dir_ids@.no_duplicates(),
                        forall|x: u64| #[trigger]
                            dir_ids@.contains(x) ==> dirs.contains_key(x) && reachable(
                                dirs,
                                dir_id,
                                x,
                            ) && x != dir_id,
                        forall|x: u64| #[trigger]
                            work@.contains(x) ==> dirs.contains_key(x) && reachable(
                                dirs,
                                dir_id,
                                x,
                            ),
                        forall|x: u64| #[trigger]
                            dir_ids@.contains(x) ==> visited@.contains(x) || work@.contains(x)
                                || x == cur,
                        visited@.contains(dir_id) || work@.contains(dir_id) || cur == dir_id,
                        forall|v: u64, c: u64|
                            visited@.contains(v) && #[trigger] step(dirs, v, c)
                                ==> dir_ids@.contains(c) || c == dir_id,
                        forall|jj: int|
                            0 <= jj < j2 ==> dir_ids@.contains(
                                (#[trigger] rec.children_directories@[jj]).value,
                            ) || rec.children_directories@[jj].value == dir_id,
                    decreases rec.children_directories@.len() - j2,
                {
                    let c = rec.children_directories[j2].value;
                    proof {
                        lemma_smap_value(rec.children_directories@, j2 as int);
                        assert(dirs[cur].children_directories.contains_key(
                            rec.children_directories@[j2 as int].key@,
                        ));
                        assert(dir_has_child(dirs[cur], c));
                        assert(step(dirs, cur, c));
                        assert(dirs.contains_key(c));
                        assert(reach(dirs, dir_id, cur, curk));
                        assert(reach(dirs, dir_id, c, curk + 1));
                        assert(reachable(dirs, dir_id, c));
                    }
                    if c != dir_id {
                        if !vec_contains_u64(&dir_ids, c) {
                            proof {
                                lemma_push_nodup(dir_ids@, c);
                                lemma_push_contains(dir_ids@, c);
                            }
                            dir_ids.push(c);
                        }
                    }
                    if !vec_contains_u64(&visited, c) {
                        proof {
                            lemma_push_contains(work@, c);
                        }
                        work.push(c);
                    } else {
                        proof {
                            if c != dir_id {
                                assert(dir_ids@.contains(c) || c == dir_id);
                            }
                        }
                    }
                    j2 = j2 + 1;
                }

                proof {
                    lemma_push_nodup(visited@, cur);
                    lemma_push_contains(visited@, cur);
                }
                visited.push(cur);
                proof {
                    lemma_nodup_len_bound(visited@, self.dir_arena@);
                    // The freshly visited directory's children are all
                    // accounted for.
                    assert forall|c: u64| #[trigger] step(dirs, cur, c) implies dir_ids@.contains(c)
                        || c == dir_id by {
                        let n = choose|n: Seq<char>| #[trigger]
                            dirs[cur].children_directories.contains_key(n)
                                && dirs[cur].children_directories[n] == c;
                        lemma_smap_contains(rec.children_directories@, n);
                        let jj = choose|jj: int|
                            0 <= jj < rec.children_directories@.len()
                                && rec.children_directories@[jj].key@ == n;
                        lemma_smap_value(rec.children_directories@, jj);
                    }
                    assert forall|f: u64| #[trigger] dir_has_file_child(dirs[cur], f) implies file_ids@.contains(
                        f,
                    ) by {
                        let n = choose|n: Seq<char>| #[trigger]
                            dirs[cur].children_files.contains_key(n) && dirs[cur].children_files[n]
                                == f;
                        lemma_smap_contains(rec.children_files@, n);
                        let jj = choose|jj: int|
                            0 <= jj < rec.children_files@.len() && rec.children_files@[jj].key@
                                == n;
                        lemma_smap_value(rec.children_files@, jj);
                    }
                }
            }
        }
        proof {
            assert(visited@.contains(dir_id));
            // Work is drained, so every recorded directory was visited, and
            // the closure property follows.
            assert forall|d: u64, c: u64|
                (dir_ids@.contains(d) || d == dir_id) && #[trigger] step(dirs, d, c) implies dir_ids@.contains(
                c,
            ) || c == dir_id by {
                assert(visited@.contains(d));
            }
            // Every subtree file was collected.
            assert forall|f: u64| subtree_file(dirs, dir_id, f) implies #[trigger] file_ids@.contains(
                f,
            ) by {
                let d = choose|d: u64| #[trigger] reachable(dirs, dir_id, d) && dirs.contains_key(d)
                    && dir_has_file_child(dirs[d], f);
                let k = choose|k: nat| reach(dirs, dir_id, d, k);
                lemma_reachable_in_closed(dirs, dir_id, dir_ids@, d, k);
                assert(visited@.contains(d));
            }
        }
        (file_ids, dir_ids)
    }
}

} // verus!
