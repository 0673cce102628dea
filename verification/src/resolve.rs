//! Path resolution: walking a path's components through the chain of
//! directory name indexes, starting from the root.

use vstd::prelude::*;
use crate::arena::find_u64_key;
use crate::arena::lemma_amap_contains;
use crate::errors::WalrusFsError;
use crate::fs::WalrusFs;
use crate::index::str_eq;
use crate::pathutil::components_of;
use crate::pathutil::remove_trailing_slash;
use crate::pathutil::root_path;
use crate::pathutil::split_components;
use crate::pathutil::strip_trailing;
use crate::records::DirView;

verus! {

/// Walk `comps` one directory at a time: `cur` is the directory index of
/// the owner reached so far (`parent`).  A missing name is `PathNotFound`;
/// a name whose id has no arena record is the internal-consistency fault.
pub open spec fn walk_dirs(
    dirs: Map<u64, DirView>,
    cur: Map<Seq<char>, u64>,
    parent: Option<u64>,
    comps: Seq<Seq<char>>,
) -> Result<Option<u64>, WalrusFsError>
    decreases comps.len(),
{
    if comps.len() == 0 {
        Ok(parent)
    } else if !cur.contains_key(comps[0]) {
        Err(WalrusFsError::PathNotFound)
    } else if !dirs.contains_key(cur[comps[0]]) {
        Err(WalrusFsError::ArenaMismatchError)
    } else {
        walk_dirs(
            dirs,
            dirs[cur[comps[0]]].children_directories,
            Some(cur[comps[0]]),
            comps.drop_first(),
        )
    }
}

/// What resolving a point-operation path yields: the owner of the leaf's
/// indexes (`None` for the root) and the leaf name.
pub open spec fn spec_resolve(fs: WalrusFs, path: Seq<char>) -> Result<
    (Option<u64>, Seq<char>),
    WalrusFsError,
> {
    let p = strip_trailing(path);
    if p == root_path() {
        Err(WalrusFsError::InvalidPathOperationOnRoot)
    } else {
        let comps = components_of(p);
        if comps.len() == 0 {
            Err(WalrusFsError::PathError)
        } else {
            match walk_dirs(fs.dirs(), fs.root_dirs(), None, comps.drop_last()) {
                Ok(parent) => Ok((parent, comps.last())),
                Err(e) => Err(e),
            }
        }
    }
}

/// What resolving an enumeration path yields: the owner whose child
/// indexes are listed (`None` for the root path).
pub open spec fn spec_resolve_listing(fs: WalrusFs, path: Seq<char>) -> Result<
    Option<u64>,
    WalrusFsError,
> {
    if path == root_path() {
        Ok(None)
    } else {
        match walk_dirs(fs.dirs(), fs.root_dirs(), None, components_of(path)) {
            Ok(None) => Err(WalrusFsError::PathNotFound),
            Ok(Some(t)) => Ok(Some(t)),
            Err(e) => Err(e),
        }
    }
}

impl WalrusFs {
    /// Split a cleaned path into the identity of the leaf's immediate
    /// parent and the leaf name; `None` as parent means the leaf lives
    /// directly under the root.
    #[verifier::loop_isolation(false)]
    pub fn internal_resolve_parent_id_and_name(&self, full_path: &str) -> (r: Result<
        (Option<u64>, String),
        WalrusFsError,
    >)
        requires
            self.uniq(),
        ensures
            r matches Ok(pn) ==> spec_resolve(*self, full_path@) matches Ok(sn) && pn.0 == sn.0
                && pn.1@ == sn.1,
            r matches Err(e) ==> spec_resolve(*self, full_path@) == Err::<
                (Option<u64>, Seq<char>),
                WalrusFsError,
            >(e),
            r matches Ok(pn) ==> self.owner_ok(pn.0),
    {
        let path = remove_trailing_slash(full_path);
        proof {
            reveal_strlit("/");
            assert("/"@ =~= root_path());
        }
        if str_eq(path.as_str(), "/") {
            return Err(WalrusFsError::InvalidPathOperationOnRoot);
        }
        let mut components = split_components(path.as_str());
        let ghost allcomps = components.deep_view();
        if components.len() == 0 {
            return Err(WalrusFsError::PathError);
        }
        let name = components.pop().unwrap();
        let ghost walkcomps = components.deep_view();
        proof {
            assert(walkcomps =~= allcomps.drop_last());
            assert(name@ == allcomps.last());
        }
        let mut parent: Option<u64> = None;
        let mut i: usize = 0;
        proof {
            assert(walkcomps.skip(0) =~= walkcomps);
        }
        while i < components.len()
            invariant
                self.owner_ok(parent),
                0 <= i <= components@.len(),
                walk_dirs(
                    self.dirs(),
                    self.dir_index_at(parent),
                    parent,
                    walkcomps.skip(i as int),
                ) == walk_dirs(self.dirs(), self.root_dirs(), None, walkcomps),
            decreases components@.len() - i,
        {
            proof {
                assert(walkcomps.skip(i as int)[0] == walkcomps[i as int]);
                assert(walkcomps.skip(i as int).drop_first() =~= walkcomps.skip(i as int + 1));
                assert(components.deep_view()[i as int] == components@[i as int]@);
            }
            let comp = &components[i];
            match self.child_dir_lookup(parent, comp.as_str()) {
                None => {
                    return Err(WalrusFsError::PathNotFound);
                },
                Some(id) => {
                    match find_u64_key(&self.dir_arena, id) {
                        None => {
                            proof {
                                lemma_amap_contains(self.dir_arena@, id);
                            }
                            return Err(WalrusFsError::ArenaMismatchError);
                        },
                        Some(_) => {
                            proof {
                                lemma_amap_contains(self.dir_arena@, id);
                            }
                            parent = Some(id);
                        },
                    }
                },
            }
            i = i + 1;
        }
        proof {
            assert(walkcomps.skip(i as int) =~= Seq::<Seq<char>>::empty());
        }
        Ok((parent, name))
    }

    /// Resolve an enumeration path (with its trailing separator) to the
    /// owner whose child indexes are to be listed.
    #[verifier::loop_isolation(false)]
    pub fn resolve_listing_owner(&self, path: &str) -> (r: Result<Option<u64>, WalrusFsError>)
        requires
            self.uniq(),
        ensures
            r == spec_resolve_listing(*self, path@),
            r matches Ok(o) ==> self.owner_ok(o),
    {
        proof {
            reveal_strlit("/");
            assert("/"@ =~= root_path());
        }
        if str_eq(path, "/") {
            return Ok(None);
        }
        let components = split_components(path);
        let ghost allcomps = components.deep_view();
        let mut parent: Option<u64> = None;
        let mut i: usize = 0;
        proof {
            assert(allcomps.skip(0) =~= allcomps);
        }
        while i < components.len()
            invariant
                self.owner_ok(parent),
                0 <= i <= components@.len(),
                i == 0 ==> parent is None,
                i > 0 ==> parent is Some,
                walk_dirs(
                    self.dirs(),
                    self.dir_index_at(parent),
                    parent,
                    allcomps.skip(i as int),
                ) == walk_dirs(self.dirs(), self.root_dirs(), None, allcomps),
            decreases components@.len() - i,
        {
            proof {
                assert(allcomps.skip(i as int)[0] == allcomps[i as int]);
                assert(allcomps.skip(i as int).drop_first() =~= allcomps.skip(i as int + 1));
                assert(components.deep_view()[i as int] == components@[i as int]@);
            }
            let comp = &components[i];
            match self.child_dir_lookup(parent, comp.as_str()) {
                None => {
                    return Err(WalrusFsError::PathNotFound);
                },
                Some(id) => {
                    match find_u64_key(&self.dir_arena, id) {
                        None => {
                            proof {
                                lemma_amap_contains(self.dir_arena@, id);
                            }
                            return Err(WalrusFsError::ArenaMismatchError);
                        },
                        Some(_) => {
                            proof {
                                lemma_amap_contains(self.dir_arena@, id);
                            }
                            parent = Some(id);
                        },
                    }
                },
            }
            i = i + 1;
        }
        proof {
            assert(allcomps.skip(i as int) =~= Seq::<Seq<char>>::empty());
        }
        match parent {
            None => Err(WalrusFsError::PathNotFound),
            Some(t) => Ok(Some(t)),
        }
    }
}

} // verus!
