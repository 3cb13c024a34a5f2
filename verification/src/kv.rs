//! Association-list reasoning shared by the store models: the finite map
//! denoted by a sequence of key/value pairs, and the lemmas the stores'
//! removal loops rely on.

use vstd::prelude::*;
use vstd::map::*;

verus! {

/// The finite map denoted by an association list; a later entry wins.
pub open spec fn map_of<K, V>(s: Seq<(K, V)>) -> Map<K, V>
    decreases s.len(),
{
    if s.len() == 0 {
        Map::empty()
    } else {
        map_of(s.drop_last()).insert(s.last().0, s.last().1)
    }
}

/// No key occurs twice.
pub open spec fn distinct_keys<K, V>(s: Seq<(K, V)>) -> bool {
    forall|i: int, j: int| 0 <= i < j < s.len() ==> (#[trigger] s[i]).0 != (#[trigger] s[j]).0
}

/// The set of elements of a sequence.
pub open spec fn elems<A>(s: Seq<A>) -> Set<A> {
    Set::new(|a: A| s.contains(a))
}

/// A key is in the map exactly when some entry carries it.
pub proof fn lemma_map_of_key<K, V>(s: Seq<(K, V)>, k: K)
    ensures
        map_of(s).contains_key(k) <==> exists|i: int| 0 <= i < s.len() && (#[trigger] s[i]).0 == k,
    decreases s.len(),
{
    if s.len() > 0 {
        lemma_map_of_key(s.drop_last(), k);
        if s.last().0 == k {
            assert(s[s.len() - 1].0 == k);
        } else if map_of(s).contains_key(k) {
            let i = choose|i: int| 0 <= i < s.drop_last().len() && (#[trigger] s.drop_last()[i]).0 == k;
            assert(s[i].0 == k);
        } else {
            assert forall|i: int| 0 <= i < s.len() implies (#[trigger] s[i]).0 != k by {
                if i < s.len() - 1 {
                    assert(s.drop_last()[i] == s[i]);
                }
            }
        }
    }
}

/// With distinct keys, each entry is exactly the map's value at its key.
pub proof fn lemma_map_of_index<K, V>(s: Seq<(K, V)>, i: int)
    requires
        distinct_keys(s),
        0 <= i < s.len(),
    ensures
        map_of(s).contains_key(s[i].0),
        map_of(s)[s[i].0] == s[i].1,
    decreases s.len(),
{
    if i == s.len() - 1 {
        assert(map_of(s) == map_of(s.drop_last()).insert(s.last().0, s.last().1));
    } else {
        assert(distinct_keys(s.drop_last())) by {
            assert forall|a: int, b: int|
                0 <= a < b < s.drop_last().len() implies (#[trigger] s.drop_last()[a]).0
                != (#[trigger] s.drop_last()[b]).0 by {
                assert(s.drop_last()[a] == s[a]);
                assert(s.drop_last()[b] == s[b]);
            }
        }
        assert(s.drop_last()[i] == s[i]);
        lemma_map_of_index(s.drop_last(), i);
        assert(s[i].0 != s.last().0);
    }
}

/// Pushing keeps every element, and adds the pushed one.
pub proof fn lemma_push_preserves_contains<A>(s: Seq<A>, e: A)
    ensures
        forall|x: A| s.contains(x) ==> #[trigger] s.push(e).contains(x),
        s.push(e).contains(e),
{
    assert forall|x: A| s.contains(x) implies #[trigger] s.push(e).contains(x) by {
        let j = choose|j: int| 0 <= j < s.len() && s[j] == x;
        assert(s.push(e)[j] == x);
    }
    assert(s.push(e)[s.len() as int] == e);
}

/// Inserting a key that the removal set holds changes nothing after removal.
pub proof fn lemma_insert_then_remove_keys_absorbed<K, V>(m: Map<K, V>, k: K, v: V, ks: Set<K>)
    requires
        ks.contains(k),
    ensures
        m.insert(k, v).remove_keys(ks) == m.remove_keys(ks),
{
    assert(m.insert(k, v).remove_keys(ks) =~= m.remove_keys(ks));
}

/// Inserting a key outside the removal set commutes with removal.
pub proof fn lemma_insert_then_remove_keys_commutes<K, V>(m: Map<K, V>, k: K, v: V, ks: Set<K>)
    requires
        !ks.contains(k),
    ensures
        m.insert(k, v).remove_keys(ks) == m.remove_keys(ks).insert(k, v),
{
    assert(m.insert(k, v).remove_keys(ks) =~= m.remove_keys(ks).insert(k, v));
}

} // verus!
