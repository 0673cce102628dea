//! Name indexes: association lists from child name to object id.
//!
//! The backing store offers no hashing, so an index is a plain vector of
//! bindings scanned linearly.  Callers rely only on the map it denotes
//! ([`smap`]) together with the uniqueness of its keys ([`unique_keys`]).

use vstd::prelude::*;

verus! {

/// One name-to-id binding inside a name index.
#[derive(Clone, Debug, PartialEq)]
pub struct KeyValueStringU64 {
    pub key: String,
    pub value: u64,
}

/// The map a name index denotes: later bindings shadow earlier ones, which
/// is irrelevant once keys are unique.
pub open spec fn smap(s: Seq<KeyValueStringU64>) -> Map<Seq<char>, u64>
    decreases s.len(),
{
    if s.len() == 0 {
        Map::empty()
    } else {
        smap(s.drop_last()).insert(s.last().key@, s.last().value)
    }
}

/// Name uniqueness: no two bindings of one index share a name.
pub open spec fn unique_keys(s: Seq<KeyValueStringU64>) -> bool {
    forall|i: int, j: int| 0 <= i < j < s.len() ==> s[i].key@ != s[j].key@
}

/// A name is in the denoted map exactly when some binding carries it.
pub proof fn lemma_smap_contains(s: Seq<KeyValueStringU64>, k: Seq<char>)
    ensures
        smap(s).contains_key(k) <==> exists|i: int| 0 <= i < s.len() && s[i].key@ == k,
    decreases s.len(),
{
    if s.len() > 0 {
        lemma_smap_contains(s.drop_last(), k);
        if smap(s).contains_key(k) {
            if s.last().key@ == k {
                assert(s[s.len() - 1].key@ == k);
            } else {
                let i = choose|i: int| 0 <= i < s.drop_last().len() && s.drop_last()[i].key@ == k;
                assert(s[i].key@ == k);
            }
        }
        if exists|i: int| 0 <= i < s.len() && s[i].key@ == k {
            let i = choose|i: int| 0 <= i < s.len() && s[i].key@ == k;
            if i < s.len() - 1 {
                assert(s.drop_last()[i].key@ == k);
            }
        }
    }
}

/// With unique keys, the binding at any position gives the map's value.
pub proof fn lemma_smap_value(s: Seq<KeyValueStringU64>, i: int)
    requires
        unique_keys(s),
        0 <= i < s.len(),
    ensures
        smap(s).contains_key(s[i].key@),
        smap(s)[s[i].key@] == s[i].value,
    decreases s.len(),
{
    if i < s.len() - 1 {
        assert(s.drop_last()[i] == s[i]);
        lemma_smap_value(s.drop_last(), i);
        assert(s[i].key@ != s.last().key@);
    }
}

/// Appending a binding inserts it into the denoted map.
pub proof fn lemma_smap_push(s: Seq<KeyValueStringU64>, kv: KeyValueStringU64)
    ensures
        smap(s.push(kv)) == smap(s).insert(kv.key@, kv.value),
{
    assert(s.push(kv).drop_last() =~= s);
    assert(s.push(kv).last() == kv);
}

/// Overwriting the binding at `i` with one of the same name updates the map.
pub proof fn lemma_smap_update(s: Seq<KeyValueStringU64>, i: int, kv: KeyValueStringU64)
    requires
        unique_keys(s),
        0 <= i < s.len(),
        kv.key@ == s[i].key@,
    ensures
        smap(s.update(i, kv)) == smap(s).insert(kv.key@, kv.value),
        unique_keys(s.update(i, kv)),
    decreases s.len(),
{
    let t = s.update(i, kv);
    if i == s.len() - 1 {
        assert(t.drop_last() =~= s.drop_last());
        assert(t.last() == kv);
        assert(smap(s.drop_last()).insert(s.last().key@, s.last().value).insert(kv.key@, kv.value)
            =~= smap(s.drop_last()).insert(kv.key@, kv.value));
    } else {
        assert(t.drop_last() =~= s.drop_last().update(i, kv));
        assert(s.drop_last()[i] == s[i]);
        lemma_smap_update(s.drop_last(), i, kv);
        assert(kv.key@ != s.last().key@);
        assert(t.last() == s.last());
        assert(smap(s.drop_last()).insert(kv.key@, kv.value).insert(s.last().key@, s.last().value)
            =~= smap(s.drop_last()).insert(s.last().key@, s.last().value).insert(kv.key@, kv.value));
    }
}

/// Removing the binding at `i` removes its name from the denoted map.
pub proof fn lemma_smap_remove(s: Seq<KeyValueStringU64>, i: int)
    requires
        unique_keys(s),
        0 <= i < s.len(),
    ensures
        smap(s.remove(i)) == smap(s).remove(s[i].key@),
        unique_keys(s.remove(i)),
    decreases s.len(),
{
    let t = s.remove(i);
    let k = s[i].key@;
    assert forall|p: int, q: int| 0 <= p < q < t.len() implies t[p].key@ != t[q].key@ by {
        let p2: int = if p < i { p } else { p + 1 };
        let q2: int = if q < i { q } else { q + 1 };
        assert(t[p] == s[p2]);
        assert(t[q] == s[q2]);
    }
    if i == s.len() - 1 {
        assert(t =~= s.drop_last());
        lemma_smap_contains(s.drop_last(), k);
        assert(!smap(s.drop_last()).contains_key(k));
        assert(smap(s.drop_last()) =~= smap(s.drop_last()).insert(k, s[i].value).remove(k));
    } else {
        assert(t.drop_last() =~= s.drop_last().remove(i));
        lemma_smap_remove(s.drop_last(), i);
        assert(t.last() == s.last());
        assert(s[i].key@ != s.last().key@);
        assert(smap(s.drop_last()).remove(k).insert(s.last().key@, s.last().value)
            =~= smap(s.drop_last()).insert(s.last().key@, s.last().value).remove(k));
    }
}

/// With unique keys, the denoted map has exactly one entry per binding.
pub proof fn lemma_smap_card(s: Seq<KeyValueStringU64>)
    requires
        unique_keys(s),
    ensures
        smap(s).dom().finite(),
        smap(s).dom().len() == s.len(),
    decreases s.len(),
{
    if s.len() > 0 {
        lemma_smap_card(s.drop_last());
        lemma_smap_contains(s.drop_last(), s.last().key@);
        assert(!smap(s.drop_last()).contains_key(s.last().key@));
        assert(smap(s).dom() =~= smap(s.drop_last()).dom().insert(s.last().key@));
    }
}

/// Character-by-character string equality, proved against the views.
pub fn str_eq(a: &str, b: &str) -> (r: bool)
    ensures
        r == (a@ == b@),
{
    let alen = a.unicode_len();
    let blen = b.unicode_len();
    if alen != blen {
        return false;
    }
    let mut i: usize = 0;
    while i < alen
        invariant
            0 <= i <= alen,
            alen == a@.len(),
            alen == b@.len(),
            forall|j: int| 0 <= j < i ==> a@[j] == b@[j],
        decreases alen - i,
    {
        if a.get_char(i) != b.get_char(i) {
            return false;
        }
        i = i + 1;
    }
    proof {
        assert(a@ =~= b@);
    }
    true
}

/// Position of the binding named `key`, if any.
pub fn find_str_key(v: &Vec<KeyValueStringU64>, key: &str) -> (r: Option<usize>)
    ensures
        r matches Some(i) ==> i < v@.len() && v@[i as int].key@ == key@,
        r is None ==> forall|i: int| 0 <= i < v@.len() ==> v@[i].key@ != key@,
{
    let mut i: usize = 0;
    while i < v.len()
        invariant
            0 <= i <= v@.len(),
            forall|j: int| 0 <= j < i ==> v@[j].key@ != key@,
        decreases v@.len() - i,
    {
        if str_eq(v[i].key.as_str(), key) {
            return Some(i);
        }
        i = i + 1;
    }
    None
}

/// `get`: the id bound to `key`, if any.
pub fn get_from_vec_str_key(v: &Vec<KeyValueStringU64>, key: &str) -> (r: Option<u64>)
    requires
        unique_keys(v@),
    ensures
        r is Some <==> smap(v@).contains_key(key@),
        r matches Some(id) ==> smap(v@)[key@] == id,
{
    proof {
        lemma_smap_contains(v@, key@);
    }
    match find_str_key(v, key) {
        Some(i) => {
            proof {
                lemma_smap_value(v@, i as int);
            }
            Some(v[i].value)
        },
        None => None,
    }
}

/// `contains`: whether `key` is bound.
pub fn contains_key_in_vec_str(v: &Vec<KeyValueStringU64>, key: &str) -> (r: bool)
    requires
        unique_keys(v@),
    ensures
        r == smap(v@).contains_key(key@),
{
    match get_from_vec_str_key(v, key) {
        Some(_) => true,
        None => false,
    }
}

/// `insert`: bind `key` to `value`, overwriting any existing binding, and
/// report the id previously bound.
pub fn insert_into_vec_str_key(v: &mut Vec<KeyValueStringU64>, key: String, value: u64) -> (r:
    Option<u64>)
    requires
        unique_keys(old(v)@),
    ensures
        unique_keys(final(v)@),
        smap(final(v)@) == smap(old(v)@).insert(key@, value),
        r is Some <==> smap(old(v)@).contains_key(key@),
        r matches Some(id) ==> smap(old(v)@)[key@] == id,
{
    proof {
        lemma_smap_contains(v@, key@);
    }
    match find_str_key(v, key.as_str()) {
        Some(i) => {
            proof {
                lemma_smap_value(v@, i as int);
                lemma_smap_update(v@, i as int, KeyValueStringU64 { key, value });
            }
            let old_value = v[i].value;
            v[i] = KeyValueStringU64 { key, value };
            Some(old_value)
        },
        None => {
            proof {
                lemma_smap_push(v@, KeyValueStringU64 { key, value });
            }
            v.push(KeyValueStringU64 { key, value });
            None
        },
    }
}

/// `remove`: drop the binding named `key`, reporting the id it carried.
pub fn remove_from_vec_str_key(v: &mut Vec<KeyValueStringU64>, key: &str) -> (r: Option<u64>)
    requires
        unique_keys(old(v)@),
    ensures
        unique_keys(final(v)@),
        smap(final(v)@) == smap(old(v)@).remove(key@),
        r is Some <==> smap(old(v)@).contains_key(key@),
        r matches Some(id) ==> smap(old(v)@)[key@] == id,
{
    proof {
        lemma_smap_contains(v@, key@);
    }
    match find_str_key(v, key) {
        Some(i) => {
            proof {
                lemma_smap_value(v@, i as int);
                lemma_smap_remove(v@, i as int);
            }
            let kv = v.remove(i);
            Some(kv.value)
        },
        None => {
            proof {
                assert(smap(v@) =~= smap(v@).remove(key@));
            }
            None
        },
    }
}

} // verus!
