//! Arenas: association lists from object id to record.
//!
//! An arena is the sole owner of record contents; every id in a name index
//! is a non-owning reference into an arena.  Like the name indexes, an arena
//! is a plain vector of bindings; callers rely on the map of record views it
//! denotes ([`amap`]) and the uniqueness of its ids ([`unique_ids`]).

use vstd::prelude::*;

verus! {

/// One id-to-record binding inside an arena.
#[derive(Clone, Debug)]
pub struct KeyValueU64Object<V> {
    pub key: u64,
    pub value: V,
}

/// The map of record views an arena denotes.
pub open spec fn amap<V: View>(s: Seq<KeyValueU64Object<V>>) -> Map<u64, V::V>
    decreases s.len(),
{
    if s.len() == 0 {
        Map::empty()
    } else {
        amap(s.drop_last()).insert(s.last().key, s.last().value@)
    }
}

/// Id uniqueness: no two bindings of one arena share an id.
pub open spec fn unique_ids<V>(s: Seq<KeyValueU64Object<V>>) -> bool {
    forall|i: int, j: int| 0 <= i < j < s.len() ==> s[i].key != s[j].key
}

/// An id is in the denoted map exactly when some binding carries it.
pub proof fn lemma_amap_contains<V: View>(s: Seq<KeyValueU64Object<V>>, k: u64)
    ensures
        amap(s).contains_key(k) <==> exists|i: int| 0 <= i < s.len() && s[i].key == k,
    decreases s.len(),
{
    if s.len() > 0 {
        lemma_amap_contains(s.drop_last(), k);
        if amap(s).contains_key(k) {
            if s.last().key == k {
                assert(s[s.len() - 1].key == k);
            } else {
                let i = choose|i: int| 0 <= i < s.drop_last().len() && s.drop_last()[i].key == k;
                assert(s[i].key == k);
            }
        }
        if exists|i: int| 0 <= i < s.len() && s[i].key == k {
            let i = choose|i: int| 0 <= i < s.len() && s[i].key == k;
            if i < s.len() - 1 {
                assert(s.drop_last()[i].key == k);
            }
        }
    }
}

/// With unique ids, the binding at any position gives the map's value.
pub proof fn lemma_amap_value<V: View>(s: Seq<KeyValueU64Object<V>>, i: int)
    requires
        unique_ids(s),
        0 <= i < s.len(),
    ensures
        amap(s).contains_key(s[i].key),
        amap(s)[s[i].key] == s[i].value@,
    decreases s.len(),
{
    if i < s.len() - 1 {
        assert(s.drop_last()[i] == s[i]);
        lemma_amap_value(s.drop_last(), i);
        assert(s[i].key != s.last().key);
    }
}

/// Appending a binding inserts its record's view into the denoted map.
pub proof fn lemma_amap_push<V: View>(s: Seq<KeyValueU64Object<V>>, kv: KeyValueU64Object<V>)
    ensures
        amap(s.push(kv)) == amap(s).insert(kv.key, kv.value@),
{
    assert(s.push(kv).drop_last() =~= s);
    assert(s.push(kv).last() == kv);
}

/// Overwriting the binding at `i` with one of the same id updates the map.
pub proof fn lemma_amap_update<V: View>(s: Seq<KeyValueU64Object<V>>, i: int, kv: KeyValueU64Object<
    V,
>)
    requires
        unique_ids(s),
        0 <= i < s.len(),
        kv.key == s[i].key,
    ensures
        amap(s.update(i, kv)) == amap(s).insert(kv.key, kv.value@),
        unique_ids(s.update(i, kv)),
    decreases s.len(),
{
    let t = s.update(i, kv);
    if i == s.len() - 1 {
        assert(t.drop_last() =~= s.drop_last());
        assert(t.last() == kv);
        assert(amap(s.drop_last()).insert(s.last().key, s.last().value@).insert(kv.key, kv.value@)
            =~= amap(s.drop_last()).insert(kv.key, kv.value@));
    } else {
        assert(t.drop_last() =~= s.drop_last().update(i, kv));
        assert(s.drop_last()[i] == s[i]);
        lemma_amap_update(s.drop_last(), i, kv);
        assert(kv.key != s.last().key);
        assert(t.last() == s.last());
        assert(amap(s.drop_last()).insert(kv.key, kv.value@).insert(s.last().key, s.last().value@)
            =~= amap(s.drop_last()).insert(s.last().key, s.last().value@).insert(
                kv.key,
                kv.value@,
            ));
    }
}

/// Removing the binding at `i` removes its id from the denoted map.
pub proof fn lemma_amap_remove<V: View>(s: Seq<KeyValueU64Object<V>>, i: int)
    requires
        unique_ids(s),
        0 <= i < s.len(),
    ensures
        amap(s.remove(i)) == amap(s).remove(s[i].key),
        unique_ids(s.remove(i)),
    decreases s.len(),
{
    let t = s.remove(i);
    let k = s[i].key;
    assert forall|p: int, q: int| 0 <= p < q < t.len() implies t[p].key != t[q].key by {
        let p2: int = if p < i { p } else { p + 1 };
        let q2: int = if q < i { q } else { q + 1 };
        assert(t[p] == s[p2]);
        assert(t[q] == s[q2]);
    }
    if i == s.len() - 1 {
        assert(t =~= s.drop_last());
        lemma_amap_contains(s.drop_last(), k);
        assert(!amap(s.drop_last()).contains_key(k));
        assert(amap(s.drop_last()) =~= amap(s.drop_last()).insert(k, s[i].value@).remove(k));
    } else {
        assert(t.drop_last() =~= s.drop_last().remove(i));
        lemma_amap_remove(s.drop_last(), i);
        assert(t.last() == s.last());
        assert(s[i].key != s.last().key);
        assert(amap(s.drop_last()).remove(k).insert(s.last().key, s.last().value@)
            =~= amap(s.drop_last()).insert(s.last().key, s.last().value@).remove(k));
    }
}

/// With unique ids, the denoted map has exactly one entry per binding.
pub proof fn lemma_amap_card<V: View>(s: Seq<KeyValueU64Object<V>>)
    requires
        unique_ids(s),
    ensures
        amap(s).dom().finite(),
        amap(s).dom().len() == s.len(),
    decreases s.len(),
{
    if s.len() > 0 {
        lemma_amap_card(s.drop_last());
        lemma_amap_contains(s.drop_last(), s.last().key);
        assert(!amap(s.drop_last()).contains_key(s.last().key));
        assert(amap(s).dom() =~= amap(s.drop_last()).dom().insert(s.last().key));
    }
}

/// Position of the binding for id `key`, if any.
pub fn find_u64_key<V>(v: &Vec<KeyValueU64Object<V>>, key: u64) -> (r: Option<usize>)
    ensures
        r matches Some(i) ==> i < v@.len() && v@[i as int].key == key,
        r is None ==> forall|i: int| 0 <= i < v@.len() ==> v@[i].key != key,
{
    let mut i: usize = 0;
    while i < v.len()
        invariant
            0 <= i <= v@.len(),
            forall|j: int| 0 <= j < i ==> v@[j].key != key,
        decreases v@.len() - i,
    {
        if v[i].key == key {
            return Some(i);
        }
        i = i + 1;
    }
    None
}

/// `get`: a reference to the record with id `key`, if any.
pub fn get_from_arena<V: View>(v: &Vec<KeyValueU64Object<V>>, key: u64) -> (r: Option<&V>)
    requires
        unique_ids(v@),
    ensures
        r is Some <==> amap(v@).contains_key(key),
        r matches Some(obj) ==> amap(v@)[key] == obj@,
        r matches Some(obj) ==> exists|i: int|
            0 <= i < v@.len() && v@[i].key == key && v@[i].value == *obj,
{
    proof {
        lemma_amap_contains(v@, key);
    }
    match find_u64_key(v, key) {
        Some(i) => {
            proof {
                lemma_amap_value(v@, i as int);
            }
            let obj = &v[i].value;
            proof {
                assert(v@[i as int].key == key && v@[i as int].value == *obj);
            }
            Some(obj)
        },
        None => None,
    }
}

/// `insert`: bind id `key` to `obj`, overwriting any record it had.
pub fn insert_into_arena<V: View>(v: &mut Vec<KeyValueU64Object<V>>, key: u64, obj: V)
    requires
        unique_ids(old(v)@),
    ensures
        unique_ids(final(v)@),
        amap(final(v)@) == amap(old(v)@).insert(key, obj@),
        forall|i: int|
            0 <= i < final(v)@.len() ==> (exists|j: int|
                0 <= j < old(v)@.len() && (#[trigger] final(v)@[i]).value == old(v)@[j].value)
                || final(v)@[i].value == obj,
{
    let kv = KeyValueU64Object { key, value: obj };
    match find_u64_key(v, key) {
        Some(i) => {
            proof {
                lemma_amap_update(v@, i as int, kv);
            }
            v[i] = kv;
            proof {
                assert forall|m: int| 0 <= m < v@.len() implies (exists|j: int|
                    0 <= j < old(v)@.len() && (#[trigger] v@[m]).value == old(v)@[j].value)
                    || v@[m].value == obj by {
                    if m != i {
                        assert(v@[m].value == old(v)@[m].value);
                    }
                }
            }
        },
        None => {
            proof {
                lemma_amap_push(v@, kv);
            }
            v.push(kv);
            proof {
                assert forall|m: int| 0 <= m < v@.len() implies (exists|j: int|
                    0 <= j < old(v)@.len() && (#[trigger] v@[m]).value == old(v)@[j].value)
                    || v@[m].value == obj by {
                    if m < v@.len() - 1 {
                        assert(v@[m].value == old(v)@[m].value);
                    }
                }
            }
        },
    }
}

/// `remove`: drop the record with id `key`, reporting whether one was there.
pub fn remove_from_arena<V: View>(v: &mut Vec<KeyValueU64Object<V>>, key: u64) -> (r: Option<V>)
    requires
        unique_ids(old(v)@),
    ensures
        unique_ids(final(v)@),
        amap(final(v)@) == amap(old(v)@).remove(key),
        r is Some <==> amap(old(v)@).contains_key(key),
        r matches Some(obj) ==> amap(old(v)@)[key] == obj@,
        forall|i: int|
            0 <= i < final(v)@.len() ==> exists|j: int|
                0 <= j < old(v)@.len() && (#[trigger] final(v)@[i]) == old(v)@[j],
{
    proof {
        lemma_amap_contains(v@, key);
    }
    match find_u64_key(v, key) {
        Some(i) => {
            proof {
                lemma_amap_value(v@, i as int);
                lemma_amap_remove(v@, i as int);
            }
            let kv = v.remove(i);
            proof {
                assert forall|m: int| 0 <= m < v@.len() implies exists|j: int|
                    0 <= j < old(v)@.len() && (#[trigger] v@[m]) == old(v)@[j] by {
                    let j: int = if m < i {
                        m
                    } else {
                        m + 1
                    };
                    assert(v@[m] == old(v)@[j]);
                }
            }
            Some(kv.value)
        },
        None => {
            proof {
                assert(amap(v@) =~= amap(v@).remove(key));
            }
            None
        },
    }
}

} // verus!
