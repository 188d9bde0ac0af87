//! Association sequences seen as maps.
//!
//! Both the variable mapping and the key-value cache keep their entries in a
//! vector; their contracts speak of the `Map` those entries denote.  The
//! lemmas here relate pushes, in-place updates and removals on the sequence
//! to `insert` and `remove` on the map.

use vstd::prelude::*;

verus! {

/// The map denoted by a sequence of key-value pairs; a later pair wins.
pub open spec fn pairs_to_map<V>(s: Seq<(Seq<char>, V)>) -> Map<Seq<char>, V>
    decreases s.len(),
{
    if s.len() == 0 {
        Map::empty()
    } else {
        pairs_to_map(s.drop_last()).insert(s.last().0, s.last().1)
    }
}

/// No two pairs share a key.
pub open spec fn unique_keys<V>(s: Seq<(Seq<char>, V)>) -> bool {
    forall|i: int, j: int| 0 <= i < j < s.len() ==> s[i].0 != s[j].0
}

/// The domain of the denoted map is exactly the set of keys.
pub proof fn lemma_pairs_to_map_dom<V>(s: Seq<(Seq<char>, V)>)
    ensures
        forall|k: Seq<char>|
            pairs_to_map(s).dom().contains(k) <==> exists|i: int| 0 <= i < s.len() && s[i].0 == k,
    decreases s.len(),
{
    if s.len() > 0 {
        lemma_pairs_to_map_dom(s.drop_last());
        assert forall|k: Seq<char>| #![auto]
            pairs_to_map(s).dom().contains(k) implies exists|i: int|
            0 <= i < s.len() && s[i].0 == k by {
            if k == s.last().0 {
                assert(s[s.len() - 1].0 == k);
            } else {
                assert(pairs_to_map(s.drop_last()).dom().contains(k));
                let i = choose|i: int| 0 <= i < s.drop_last().len() && s.drop_last()[i].0 == k;
                assert(s.drop_last()[i] == s[i]);
                assert(s[i].0 == k);
            }
        }
        assert forall|k: Seq<char>| #![auto]
            (exists|i: int| 0 <= i < s.len() && s[i].0 == k) implies pairs_to_map(s).dom().contains(
            k,
        ) by {
            let i = choose|i: int| 0 <= i < s.len() && s[i].0 == k;
            if i < s.len() - 1 {
                assert(s.drop_last()[i].0 == k);
                assert(exists|j: int|
                    0 <= j < s.drop_last().len() && s.drop_last()[j].0 == k);
                assert(pairs_to_map(s.drop_last()).dom().contains(k));
            } else {
                assert(s.last().0 == k);
            }
        }
    }
}

/// With unique keys, each pair's value is the map's value at its key.
pub proof fn lemma_pairs_to_map_index<V>(s: Seq<(Seq<char>, V)>, i: int)
    requires
        unique_keys(s),
        0 <= i < s.len(),
    ensures
        pairs_to_map(s).dom().contains(s[i].0),
        pairs_to_map(s)[s[i].0] == s[i].1,
    decreases s.len(),
{
    lemma_pairs_to_map_dom(s);
    if i == s.len() - 1 {
    } else {
        assert(unique_keys(s.drop_last()));
        lemma_pairs_to_map_index(s.drop_last(), i);
        assert(s.drop_last()[i] == s[i]);
        assert(s[i].0 != s.last().0);
    }
}

/// Updating the pair at `i` in place updates the map at that key.
pub proof fn lemma_pairs_to_map_update<V>(s: Seq<(Seq<char>, V)>, i: int, v: V)
    requires
        unique_keys(s),
        0 <= i < s.len(),
    ensures
        pairs_to_map(s.update(i, (s[i].0, v))) =~= pairs_to_map(s).insert(s[i].0, v),
        unique_keys(s.update(i, (s[i].0, v))),
    decreases s.len(),
{
    let s2 = s.update(i, (s[i].0, v));
    assert(unique_keys(s2));
    if i == s.len() - 1 {
        assert(s2.drop_last() =~= s.drop_last());
    } else {
        assert(unique_keys(s.drop_last()));
        lemma_pairs_to_map_update(s.drop_last(), i, v);
        assert(s2.drop_last() =~= s.drop_last().update(i, (s[i].0, v)));
        assert(s2.last() == s.last());
        assert(s[i].0 != s.last().0);
    }
}

/// Removing the pair at `i` removes exactly its key from the map.
pub proof fn lemma_pairs_to_map_remove<V>(s: Seq<(Seq<char>, V)>, i: int)
    requires
        unique_keys(s),
        0 <= i < s.len(),
    ensures
        pairs_to_map(s.remove(i)) =~= pairs_to_map(s).remove(s[i].0),
        unique_keys(s.remove(i)),
    decreases s.len(),
{
    let s2 = s.remove(i);
    assert forall|a: int, b: int| 0 <= a < b < s2.len() implies s2[a].0 != s2[b].0 by {
        let a2 = if a < i {
            a
        } else {
            a + 1
        };
        let b2 = if b < i {
            b
        } else {
            b + 1
        };
        assert(s2[a] == s[a2] && s2[b] == s[b2]);
    }
    lemma_pairs_to_map_dom(s);
    lemma_pairs_to_map_dom(s2);
    if i == s.len() - 1 {
        assert(s2 =~= s.drop_last());
        lemma_pairs_to_map_dom(s.drop_last());
        assert forall|k: Seq<char>| #![auto] pairs_to_map(s.drop_last()).dom().contains(k) implies k
            != s[i].0 by {
            let j = choose|j: int| 0 <= j < s.drop_last().len() && s.drop_last()[j].0 == k;
            assert(s[j].0 == k);
        }
        assert(pairs_to_map(s2) =~= pairs_to_map(s).remove(s[i].0));
    } else {
        assert(unique_keys(s.drop_last()));
        lemma_pairs_to_map_remove(s.drop_last(), i);
        assert(s2.drop_last() =~= s.drop_last().remove(i));
        assert(s2.last() == s.last());
        assert(s[i].0 != s.last().0);
        assert(pairs_to_map(s2) =~= pairs_to_map(s.drop_last()).remove(s[i].0).insert(
            s.last().0,
            s.last().1,
        ));
        assert(pairs_to_map(s2) =~= pairs_to_map(s).remove(s[i].0));
    }
}

/// Inserting a pair with a fresh key at any position inserts it in the map.
pub proof fn lemma_pairs_to_map_insert_at<V>(s: Seq<(Seq<char>, V)>, i: int, k: Seq<char>, v: V)
    requires
        unique_keys(s),
        0 <= i <= s.len(),
        forall|j: int| 0 <= j < s.len() ==> s[j].0 != k,
    ensures
        pairs_to_map(s.insert(i, (k, v))) =~= pairs_to_map(s).insert(k, v),
        unique_keys(s.insert(i, (k, v))),
    decreases s.len(),
{
    let s2 = s.insert(i, (k, v));
    assert forall|a: int, b: int| 0 <= a < b < s2.len() implies s2[a].0 != s2[b].0 by {
        if a != i && b != i {
            let a2 = if a < i {
                a
            } else {
                a - 1
            };
            let b2 = if b < i {
                b
            } else {
                b - 1
            };
            assert(s2[a] == s[a2] && s2[b] == s[b2]);
        } else if a == i {
            assert(s2[b] == s[b - 1]);
        } else {
            assert(s2[a] == s[a]);
        }
    }
    if i == s.len() {
        assert(s2.drop_last() =~= s);
    } else {
        assert(unique_keys(s.drop_last()));
        lemma_pairs_to_map_insert_at(s.drop_last(), i, k, v);
        assert(s2.drop_last() =~= s.drop_last().insert(i, (k, v)));
        assert(s2.last() == s.last());
        assert(s.last().0 != k);
        assert(pairs_to_map(s2) =~= pairs_to_map(s.drop_last()).insert(k, v).insert(
            s.last().0,
            s.last().1,
        ));
        assert(pairs_to_map(s2) =~= pairs_to_map(s).insert(k, v));
    }
}

} // verus!
