//! Association lists with unique keys, viewed as maps.
//!
//! The server's tables — filehandles, open-state identifiers, and the
//! modeled export tree — all store their entries as vectors of
//! key/value pairs. These lemmas relate the vector operations (push,
//! update, remove) to the map each list denotes.

use vstd::prelude::*;
use vstd::map::*;
use vstd::assert_seqs_equal;

verus! {

/// The map an association list denotes; a later entry wins, though the
/// tables keep their keys unique.
pub open spec fn assoc_map<K, V>(s: Seq<(K, V)>) -> Map<K, V>
    decreases s.len(),
{
    if s.len() == 0 {
        Map::<K, V>::empty()
    } else {
        assoc_map(s.drop_last()).insert(s.last().0, s.last().1)
    }
}

/// No two entries share a key.
pub open spec fn assoc_unique<K, V>(s: Seq<(K, V)>) -> bool {
    forall|i: int, j: int| 0 <= i < j < s.len() ==> (#[trigger] s[i]).0 != (#[trigger] s[j]).0
}

pub proof fn lemma_assoc_contains<K, V>(s: Seq<(K, V)>, k: K)
    ensures
        assoc_map(s).contains_key(k) <==> exists|i: int| 0 <= i < s.len() && (#[trigger] s[i]).0
            == k,
    decreases s.len(),
{
    if s.len() > 0 {
        lemma_assoc_contains(s.drop_last(), k);
        if s.last().0 == k {
            assert(s[s.len() - 1].0 == k);
        } else {
            if assoc_map(s).contains_key(k) {
                let i = choose|i: int| 0 <= i < s.drop_last().len() && (#[trigger] s.drop_last()[
                    i]).0 == k;
                assert(s[i].0 == k);
            }
            if exists|i: int| 0 <= i < s.len() && (#[trigger] s[i]).0 == k {
                let i = choose|i: int| 0 <= i < s.len() && (#[trigger] s[i]).0 == k;
                assert(i < s.len() - 1);
                assert(s.drop_last()[i].0 == k);
            }
        }
    }
}

pub proof fn lemma_assoc_index<K, V>(s: Seq<(K, V)>, i: int)
    requires
        assoc_unique(s),
        0 <= i < s.len(),
    ensures
        assoc_map(s).contains_key(s[i].0),
        assoc_map(s)[s[i].0] == s[i].1,
    decreases s.len(),
{
    if i == s.len() - 1 {
    } else {
        assert(assoc_unique(s.drop_last())) by {
            assert(forall|a: int, b: int|
                0 <= a < b < s.drop_last().len() ==> (#[trigger] s.drop_last()[a]).0 != (
                #[trigger] s.drop_last()[b]).0);
        }
        assert(s.drop_last()[i] == s[i]);
        lemma_assoc_index(s.drop_last(), i);
        assert(s[i].0 != s.last().0);
    }
}

/// Appending an entry with a fresh key inserts it into the map.
pub proof fn lemma_assoc_push<K, V>(s: Seq<(K, V)>, k: K, v: V)
    ensures
        assoc_map(s.push((k, v))) == assoc_map(s).insert(k, v),
        !assoc_map(s).contains_key(k) && assoc_unique(s) ==> assoc_unique(s.push((k, v))),
{
    let p = s.push((k, v));
    assert_seqs_equal!(p.drop_last() == s);
    assert(p.last() == (k, v));
    lemma_assoc_contains(s, k);
    if !assoc_map(s).contains_key(k) && assoc_unique(s) {
        assert(forall|i: int, j: int|
            0 <= i < j < p.len() ==> (#[trigger] p[i]).0 != (#[trigger] p[j]).0) by {
            assert(forall|i: int| 0 <= i < s.len() ==> (#[trigger] p[i]) == s[i]);
            assert(p[p.len() - 1].0 == k);
        }
    }
}

/// Replacing the value of the entry at `i` updates the key's image.
pub proof fn lemma_assoc_update<K, V>(s: Seq<(K, V)>, i: int, v: V)
    requires
        assoc_unique(s),
        0 <= i < s.len(),
    ensures
        assoc_map(s.update(i, (s[i].0, v))) == assoc_map(s).insert(s[i].0, v),
        assoc_unique(s.update(i, (s[i].0, v))),
    decreases s.len(),
{
    let k = s[i].0;
    let u = s.update(i, (k, v));
    assert(forall|a: int, b: int|
        0 <= a < b < u.len() ==> (#[trigger] u[a]).0 != (#[trigger] u[b]).0) by {
        assert(forall|a: int| 0 <= a < u.len() ==> (#[trigger] u[a]).0 == s[a].0);
    }
    if i == s.len() - 1 {
        assert_seqs_equal!(u.drop_last() == s.drop_last());
        assert(u.last() == (k, v));
        assert(assoc_map(u) == assoc_map(s.drop_last()).insert(k, v));
        assert_maps_equal!(assoc_map(s.drop_last()).insert(k, v), assoc_map(s).insert(k, v));
    } else {
        assert(assoc_unique(s.drop_last())) by {
            assert(forall|a: int, b: int|
                0 <= a < b < s.drop_last().len() ==> (#[trigger] s.drop_last()[a]).0 != (
                #[trigger] s.drop_last()[b]).0);
        }
        assert(s.drop_last()[i] == s[i]);
        lemma_assoc_update(s.drop_last(), i, v);
        assert_seqs_equal!(u.drop_last() == s.drop_last().update(i, (s[i].0, v)));
        assert(u.last() == s.last());
        assert(k != s.last().0);
        assert_maps_equal!(
            assoc_map(s.drop_last()).insert(k, v).insert(s.last().0, s.last().1),
            assoc_map(s.drop_last()).insert(s.last().0, s.last().1).insert(k, v)
        );
    }
}

/// Removing the entry at `i` removes its key from the map.
pub proof fn lemma_assoc_remove<K, V>(s: Seq<(K, V)>, i: int)
    requires
        assoc_unique(s),
        0 <= i < s.len(),
    ensures
        assoc_map(s.remove(i)) == assoc_map(s).remove(s[i].0),
        assoc_unique(s.remove(i)),
    decreases s.len(),
{
    let k = s[i].0;
    let u = s.remove(i);
    assert(forall|a: int, b: int|
        0 <= a < b < u.len() ==> (#[trigger] u[a]).0 != (#[trigger] u[b]).0) by {
        assert(forall|a: int|
            0 <= a < u.len() ==> (#[trigger] u[a]) == (if a < i {
                s[a]
            } else {
                s[a + 1]
            }));
    }
    if i == s.len() - 1 {
        assert_seqs_equal!(u == s.drop_last());
        lemma_assoc_contains(s.drop_last(), k);
        assert(forall|a: int|
            0 <= a < s.drop_last().len() ==> (#[trigger] s.drop_last()[a]) == s[a]);
        assert(!assoc_map(s.drop_last()).contains_key(k));
        assert_maps_equal!(assoc_map(s.drop_last()), assoc_map(s).remove(k));
    } else {
        assert(assoc_unique(s.drop_last())) by {
            assert(forall|a: int, b: int|
                0 <= a < b < s.drop_last().len() ==> (#[trigger] s.drop_last()[a]).0 != (
                #[trigger] s.drop_last()[b]).0);
        }
        assert(s.drop_last()[i] == s[i]);
        lemma_assoc_remove(s.drop_last(), i);
        assert_seqs_equal!(u.drop_last() == s.drop_last().remove(i));
        assert(u.last() == s.last());
        assert(k != s.last().0);
        assert_maps_equal!(
            assoc_map(s.drop_last()).remove(k).insert(s.last().0, s.last().1),
            assoc_map(s.drop_last()).insert(s.last().0, s.last().1).remove(k)
        );
    }
}

} // verus!
