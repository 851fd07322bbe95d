//! Association sequences seen as finite maps.
//!
//! The caches hold their entries in vectors of key/value pairs with
//! no key repeated. Contracts speak of the finite map such a sequence
//! describes; the lemmas here connect the vector operations the
//! executable code performs (update one entry, push a fresh one) to
//! `insert` on that map.

use vstd::prelude::*;

verus! {

/// The finite map described by an association sequence: later entries
/// win over earlier ones.
pub open spec fn assoc_map<K, V>(s: Seq<(K, V)>) -> Map<K, V>
    decreases s.len(),
{
    if s.len() == 0 {
        Map::empty()
    } else {
        assoc_map(s.drop_last()).insert(s.last().0, s.last().1)
    }
}

/// No key occurs twice in the sequence.
pub open spec fn distinct_keys<K, V>(s: Seq<(K, V)>) -> bool {
    forall|i: int, j: int| 0 <= i < j < s.len() ==> s[i].0 != s[j].0
}

/// A key is in the map exactly when some entry carries it.
pub proof fn lemma_assoc_map_contains<K, V>(s: Seq<(K, V)>, k: K)
    ensures
        assoc_map(s).contains_key(k) <==> exists|i: int| 0 <= i < s.len() && s[i].0 == k,
    decreases s.len(),
{
    if s.len() == 0 {
    } else {
        lemma_assoc_map_contains(s.drop_last(), k);
        if s.last().0 == k {
            assert(s[s.len() - 1].0 == k);
        } else if assoc_map(s).contains_key(k) {
            let i = choose|i: int| 0 <= i < s.drop_last().len() && s.drop_last()[i].0 == k;
            assert(s[i].0 == k);
        } else if exists|i: int| 0 <= i < s.len() && s[i].0 == k {
            let i = choose|i: int| 0 <= i < s.len() && s[i].0 == k;
            assert(s.drop_last()[i].0 == k);
        }
    }
}

/// With distinct keys, the entry at any index gives that key's value.
pub proof fn lemma_assoc_map_index<K, V>(s: Seq<(K, V)>, i: int)
    requires
        distinct_keys(s),
        0 <= i < s.len(),
    ensures
        assoc_map(s).contains_key(s[i].0),
        assoc_map(s)[s[i].0] == s[i].1,
    decreases s.len(),
{
    if i < s.len() - 1 {
        assert(distinct_keys(s.drop_last()));
        assert(s.drop_last()[i] == s[i]);
        lemma_assoc_map_index(s.drop_last(), i);
        assert(s.last().0 != s[i].0);
    }
}

/// Replacing the value of the entry at an index acts as `insert` of
/// that entry's key on the map.
pub proof fn lemma_assoc_map_update<K, V>(s: Seq<(K, V)>, i: int, v: V)
    requires
        distinct_keys(s),
        0 <= i < s.len(),
    ensures
        assoc_map(s.update(i, (s[i].0, v))) == assoc_map(s).insert(s[i].0, v),
        distinct_keys(s.update(i, (s[i].0, v))),
    decreases s.len(),
{
    let t = s.update(i, (s[i].0, v));
    assert(forall|j: int| 0 <= j < s.len() && j != i ==> t[j] == s[j]);
    assert(distinct_keys(t));
    if i == s.len() - 1 {
        assert(t.drop_last() =~= s.drop_last());
        assert(assoc_map(t) =~= assoc_map(s).insert(s[i].0, v));
    } else {
        assert(t.drop_last() =~= s.drop_last().update(i, (s[i].0, v)));
        assert(distinct_keys(s.drop_last()));
        assert(s.drop_last()[i] == s[i]);
        lemma_assoc_map_update(s.drop_last(), i, v);
        assert(s.last().0 != s[i].0);
        assert(t.last() == s.last());
        assert(assoc_map(t) =~= assoc_map(s).insert(s[i].0, v));
    }
}

/// Appending an entry acts as `insert` of its key on the map.
pub proof fn lemma_assoc_map_push<K, V>(s: Seq<(K, V)>, k: K, v: V)
    ensures
        assoc_map(s.push((k, v))) == assoc_map(s).insert(k, v),
{
    assert(s.push((k, v)).drop_last() =~= s);
    assert(s.push((k, v)).last() == (k, v));
    assert(assoc_map(s.push((k, v))) =~= assoc_map(s).insert(k, v));
}

} // verus!
