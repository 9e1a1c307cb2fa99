//! Association sequences read as finite maps.
//!
//! The in-memory store and the auth-session table keep their entries in
//! vectors; their contracts speak of the [`Map`] such a sequence denotes.
//! Later entries win, though every holder below keeps its keys unique.

use vstd::prelude::*;

verus! {

/// The finite map an association sequence denotes; a later entry for a key
/// overrides an earlier one.
pub open spec fn assoc_map<K, V>(s: Seq<(K, V)>) -> Map<K, V>
    decreases s.len(),
{
    if s.len() == 0 {
        Map::empty()
    } else {
        assoc_map(s.drop_last()).insert(s.last().0, s.last().1)
    }
}

/// No two entries share a key.
pub open spec fn unique_keys<K, V>(s: Seq<(K, V)>) -> bool {
    forall|i: int, j: int|
        0 <= i < j < s.len() ==> (#[trigger] s[i]).0 != (#[trigger] s[j]).0
}

/// Every entry's key is in the map's domain.
pub proof fn lemma_assoc_contains<K, V>(s: Seq<(K, V)>, i: int)
    requires
        0 <= i < s.len(),
    ensures
        assoc_map(s).dom().contains(s[i].0),
    decreases s.len(),
{
    if i < s.len() - 1 {
        lemma_assoc_contains(s.drop_last(), i);
        assert(s.drop_last()[i] == s[i]);
    }
}

/// A key no entry carries is outside the map's domain.
pub proof fn lemma_assoc_absent<K, V>(s: Seq<(K, V)>, k: K)
    requires
        forall|i: int| 0 <= i < s.len() ==> (#[trigger] s[i]).0 != k,
    ensures
        !assoc_map(s).dom().contains(k),
    decreases s.len(),
{
    if s.len() > 0 {
        assert forall|i: int|
            0 <= i < s.drop_last().len() implies (#[trigger] s.drop_last()[i]).0 != k by {
            assert(s.drop_last()[i] == s[i]);
        }
        lemma_assoc_absent(s.drop_last(), k);
    }
}

/// With unique keys, the map sends each entry's key to that entry's value.
pub proof fn lemma_assoc_index<K, V>(s: Seq<(K, V)>, i: int)
    requires
        unique_keys(s),
        0 <= i < s.len(),
    ensures
        assoc_map(s).dom().contains(s[i].0),
        assoc_map(s)[s[i].0] == s[i].1,
    decreases s.len(),
{
    lemma_assoc_contains(s, i);
    if i < s.len() - 1 {
        assert forall|x: int, y: int|
            0 <= x < y < s.drop_last().len() implies (#[trigger] s.drop_last()[x]).0 != (
        #[trigger] s.drop_last()[y]).0 by {
            assert(s.drop_last()[x] == s[x]);
            assert(s.drop_last()[y] == s[y]);
        }
        lemma_assoc_index(s.drop_last(), i);
        assert(s.drop_last()[i] == s[i]);
        assert(s.last().0 != s[i].0);
    }
}

/// Appending an entry inserts its binding.
pub proof fn lemma_assoc_push<K, V>(s: Seq<(K, V)>, p: (K, V))
    ensures
        assoc_map(s.push(p)) == assoc_map(s).insert(p.0, p.1),
{
    assert(s.push(p).drop_last() =~= s);
    assert(s.push(p).last() == p);
}

/// With unique keys, deleting an entry removes exactly its binding.
pub proof fn lemma_assoc_remove<K, V>(s: Seq<(K, V)>, i: int)
    requires
        unique_keys(s),
        0 <= i < s.len(),
    ensures
        assoc_map(s.remove(i)) == assoc_map(s).remove(s[i].0),
    decreases s.len(),
{
    let k = s[i].0;
    if i == s.len() - 1 {
        assert(s.remove(i) =~= s.drop_last());
        assert forall|j: int|
            0 <= j < s.drop_last().len() implies (#[trigger] s.drop_last()[j]).0 != k by {
            assert(s.drop_last()[j] == s[j]);
        }
        lemma_assoc_absent(s.drop_last(), k);
        assert(assoc_map(s.remove(i)) =~= assoc_map(s).remove(k));
    } else {
        let d = s.drop_last();
        assert forall|x: int, y: int|
            0 <= x < y < d.len() implies (#[trigger] d[x]).0 != (#[trigger] d[y]).0 by {
            assert(d[x] == s[x]);
            assert(d[y] == s[y]);
        }
        assert(d[i] == s[i]);
        lemma_assoc_remove(d, i);
        assert(s.remove(i).drop_last() =~= d.remove(i));
        assert(s.remove(i).last() == s.last());
        assert(s.last().0 != k);
        assert(assoc_map(s.remove(i)) == assoc_map(d.remove(i)).insert(s.last().0, s.last().1));
        assert(assoc_map(s.remove(i)) =~= assoc_map(s).remove(k));
    }
}

} // verus!
