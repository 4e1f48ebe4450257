//! Reading the keys out of a hash map, so a pass over a map's entries can be a
//! plain walk over a vector whose contents are known exactly.

use std::collections::HashMap;
use std::collections::HashSet;
use vstd::prelude::*;
use vstd::std_specs::iter::IteratorSpec;

verus! {

broadcast use vstd::std_specs::hash::group_hash_axioms;

/// Every key of `m`, each once, in the map's own iteration order.
pub fn map_keys<K: Copy + std::hash::Hash + Eq, V>(m: &HashMap<K, V>) -> (r: Vec<K>)
    requires
        vstd::std_specs::hash::obeys_key_model::<K>(),
    ensures
        r@.no_duplicates(),
        forall|k: K| r@.contains(k) <==> m@.contains_key(k),
{
    let mut r: Vec<K> = Vec::new();
    let ghost s = vstd::std_specs::hash::spec_keys_iter(m).remaining();
    for k in it: m.keys()
        invariant
            it.seq() == s,
            s.unref().to_set() == m@.dom(),
            s.no_duplicates(),
            r@ == s.take(it.index() as int).unref(),
    {
        assert(s[it.index() as int] == k);
        r.push(*k);
        assert(r@ =~= s.take(it.index() + 1).unref());
    }
    proof {
        assert(s.take(s.len() as int) =~= s);
        assert forall|k: K| r@.contains(k) <==> m@.contains_key(k) by {
            assert(s.unref().to_set().contains(k) <==> s.unref().contains(k));
        }
        assert forall|i: int, j: int|
            0 <= i < r.len() && 0 <= j < r.len() && i != j implies r@[i] != r@[j] by {
            assert(r@[i] == *s[i]);
            assert(r@[j] == *s[j]);
        }
    }
    r
}

/// Every element of `set`, each once, in the set's own iteration order.
pub fn set_elements<K: Copy + std::hash::Hash + Eq>(set: &HashSet<K>) -> (r: Vec<K>)
    requires
        vstd::std_specs::hash::obeys_key_model::<K>(),
    ensures
        r@.no_duplicates(),
        forall|k: K| r@.contains(k) <==> set@.contains(k),
{
    let mut r: Vec<K> = Vec::new();
    let ghost s = vstd::std_specs::hash::spec_hash_keys_iter(set).remaining();
    for k in it: set.iter()
        invariant
            it.seq() == s,
            s.unref().to_set() == set@,
            s.no_duplicates(),
            r@ == s.take(it.index() as int).unref(),
    {
        assert(s[it.index() as int] == k);
        r.push(*k);
        assert(r@ =~= s.take(it.index() + 1).unref());
    }
    proof {
        assert(s.take(s.len() as int) =~= s);
        assert forall|k: K| r@.contains(k) <==> set@.contains(k) by {
            assert(s.unref().to_set().contains(k) <==> s.unref().contains(k));
        }
        assert forall|i: int, j: int|
            0 <= i < r.len() && 0 <= j < r.len() && i != j implies r@[i] != r@[j] by {
            assert(r@[i] == *s[i]);
            assert(r@[j] == *s[j]);
        }
    }
    r
}

} // verus!
