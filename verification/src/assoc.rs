//! Association lists with mathematical map views.
//!
//! The engine's keyed collections (a spec's attributes, an agent's equipped
//! skills, the catalog's per-skill tables) are small vectors of key-value
//! pairs with pairwise-distinct keys. Their contracts speak of the abstract
//! [`Map`] each list denotes; the lemmas here relate the list operations to
//! that map.

use vstd::prelude::*;

use crate::skill::Skill;
use crate::values::Attribute;

verus! {

/// The map an association list denotes; later entries win, though a
/// well-formed list has no repeated keys.
pub open spec fn assoc_map<K, V>(s: Seq<(K, V)>) -> Map<K, V>
    decreases s.len(),
{
    if s.len() == 0 {
        Map::empty()
    } else {
        assoc_map(s.drop_last()).insert(s.last().0, s.last().1)
    }
}

/// Well-formedness: keys are pairwise distinct.
pub open spec fn assoc_wf<K, V>(s: Seq<(K, V)>) -> bool {
    forall|i: int, j: int|
        0 <= i < j < s.len() ==> (#[trigger] s[i]).0 != (#[trigger] s[j]).0
}

/// A key is in the denoted map exactly when some entry carries it.
pub proof fn lemma_assoc_map_contains<K, V>(s: Seq<(K, V)>, k: K)
    ensures
        assoc_map(s).contains_key(k) <==> (exists|i: int|
            0 <= i < s.len() && (#[trigger] s[i]).0 == k),
    decreases s.len(),
{
    if s.len() > 0 {
        lemma_assoc_map_contains(s.drop_last(), k);
        assert(forall|i: int|
            0 <= i < s.len() - 1 ==> #[trigger] s.drop_last()[i] == s[i]);
        if s.last().0 == k {
            assert(s[s.len() - 1].0 == k);
        } else {
            if exists|i: int| 0 <= i < s.len() && (#[trigger] s[i]).0 == k {
                let i = choose|i: int| 0 <= i < s.len() && (#[trigger] s[i]).0 == k;
                assert(i < s.len() - 1);
                assert(s.drop_last()[i].0 == k);
            }
        }
    }
}

/// In a well-formed list, each entry gives the denoted map's value at its key.
pub proof fn lemma_assoc_map_index<K, V>(s: Seq<(K, V)>, i: int)
    requires
        assoc_wf(s),
        0 <= i < s.len(),
    ensures
        assoc_map(s).contains_key(s[i].0),
        assoc_map(s)[s[i].0] == s[i].1,
    decreases s.len(),
{
    if i < s.len() - 1 {
        assert(forall|m: int|
            0 <= m < s.len() - 1 ==> #[trigger] s.drop_last()[m] == s[m]);
        lemma_assoc_map_index(s.drop_last(), i);
        assert(s[s.len() - 1].0 != s[i].0);
    }
}

/// Removing an entry of a well-formed list removes its key from the denoted
/// map and keeps the list well-formed.
pub proof fn lemma_assoc_map_remove<K, V>(s: Seq<(K, V)>, i: int)
    requires
        assoc_wf(s),
        0 <= i < s.len(),
    ensures
        assoc_map(s.remove(i)) == assoc_map(s).remove(s[i].0),
        assoc_wf(s.remove(i)),
    decreases s.len(),
{
    assert(forall|m: int|
        0 <= m < s.len() - 1 ==> #[trigger] s.drop_last()[m] == s[m]);
    if i == s.len() - 1 {
        assert(s.remove(i) =~= s.drop_last());
        lemma_assoc_map_contains(s.drop_last(), s[i].0);
        assert(forall|m: int| 0 <= m < s.len() - 1 ==> s[m].0 != s[i].0);
        assert(assoc_map(s.drop_last()) =~= assoc_map(s).remove(s[i].0));
    } else {
        let t = s.remove(i);
        assert(t.len() == s.len() - 1);
        assert(t.last() == s.last());
        assert(t.drop_last() =~= s.drop_last().remove(i));
        lemma_assoc_map_remove(s.drop_last(), i);
        assert(s[i] == s.drop_last()[i]);
        assert(s[i].0 != s.last().0);
        assert(assoc_map(t) == assoc_map(s.drop_last().remove(i)).insert(
            s.last().0,
            s.last().1,
        ));
        assert(assoc_map(t) =~= assoc_map(s).remove(s[i].0));
        assert(assoc_wf(t));
    }
}

/// Appending a fresh key keeps a well-formed list well-formed; the denoted
/// map gains the new entry by definition.
pub proof fn lemma_assoc_push_fresh<K, V>(s: Seq<(K, V)>, k: K, v: V)
    requires
        assoc_wf(s),
        forall|i: int| 0 <= i < s.len() ==> (#[trigger] s[i]).0 != k,
    ensures
        assoc_wf(s.push((k, v))),
        assoc_map(s.push((k, v))) == assoc_map(s).insert(k, v),
{
    let t = s.push((k, v));
    assert(forall|m: int| 0 <= m < s.len() ==> #[trigger] t[m] == s[m]);
    assert(t.drop_last() =~= s);
}

/// Position of a skill key in an association list, if any.
pub fn find_skill<V>(entries: &Vec<(Skill, V)>, key: Skill) -> (r: Option<usize>)
    ensures
        match r {
            Some(i) => i < entries@.len() && entries@[i as int].0 == key,
            None => forall|i: int|
                0 <= i < entries@.len() ==> (#[trigger] entries@[i]).0 != key,
        },
{
    let mut i: usize = 0;
    while i < entries.len()
        invariant
            i <= entries@.len(),
            forall|m: int| 0 <= m < i ==> (#[trigger] entries@[m]).0 != key,
        decreases entries@.len() - i,
    {
        if entries[i].0 == key {
            return Some(i);
        }
        i = i + 1;
    }
    None
}

/// Position of an attribute key in an association list, if any.
pub fn find_attribute<V>(entries: &Vec<(Attribute, V)>, key: Attribute) -> (r: Option<usize>)
    ensures
        match r {
            Some(i) => i < entries@.len() && entries@[i as int].0 == key,
            None => forall|i: int|
                0 <= i < entries@.len() ==> (#[trigger] entries@[i]).0 != key,
        },
{
    let mut i: usize = 0;
    while i < entries.len()
        invariant
            i <= entries@.len(),
            forall|m: int| 0 <= m < i ==> (#[trigger] entries@[m]).0 != key,
        decreases entries@.len() - i,
    {
        if entries[i].0 == key {
            return Some(i);
        }
        i = i + 1;
    }
    None
}

} // verus!
