//! The members of a `BTreeSet` of addresses and the entries of a
//! `BTreeMap` by key, in increasing order.
use vstd::prelude::*;
use vstd::std_specs::btree::{increasing_seq, spec_btree_keys_iter, spec_btree_map_iter};
use vstd::std_specs::cmp::OrdSpec;
use vstd::std_specs::iter::IteratorSpec;
use std::collections::{BTreeMap, BTreeSet};

use crate::addressed_container::{lemma_sorted_set, sorted_set, strictly_increasing};
use crate::sorted_table::{keys_increasing, lemma_is_sorted_pairs, lemma_pairs_map_contents, pairs_map, sorted_pairs};

verus! {

broadcast use vstd::std_specs::btree::group_btree_axioms, vstd::laws_cmp::group_laws_cmp;

proof fn lemma_increasing_refs(seq: Seq<&usize>)
    requires
        increasing_seq(seq),
    ensures
        strictly_increasing(seq.unref()),
{
    assert(vstd::laws_cmp::obeys_cmp::<usize>());
    assert(vstd::laws_cmp::obeys_cmp::<&usize>());
    vstd::std_specs::btree::axiom_increasing_seq_meaning(seq);
    assert forall|i: int, j: int| 0 <= i < j < seq.len() implies seq.unref()[i] < seq.unref()[j] by {
        assert(OrdSpec::cmp_spec(&seq[i], &seq[j]) is Less);
    }
}

/// Puts an address into a set; `BTreeSet::insert`.
pub fn set_insert(set: &mut BTreeSet<usize>, a: usize)
    ensures
        final(set)@ == old(set)@.insert(a),
{
    set.insert(a);
}

/// The members of a set in increasing order.
pub fn sorted_members(set: &BTreeSet<usize>) -> (v: Vec<usize>)
    ensures
        v@ == sorted_set(set@),
        strictly_increasing(v@),
{
    let mut v: Vec<usize> = Vec::new();
    for x in it: set.iter()
        invariant
            v@ == it.seq().subrange(0, it.index() as int).map_values(|r: &usize| *r),
            it.seq() == spec_btree_keys_iter(set).remaining(),
    {
        v.push(*x);
        assert(it.seq().subrange(0, it.index() + 1).map_values(|r: &usize| *r) =~= v@);
    }
    let ghost seq = spec_btree_keys_iter(set).remaining();
    assert(v@ =~= seq.unref());
    proof { lemma_increasing_refs(seq); }
    proof { lemma_sorted_set(v@); }
    v
}

proof fn lemma_increasing_keys<V>(seq: Seq<(&u32, &V)>)
    requires
        increasing_seq(seq.map_values(|kv: (&u32, &V)| *kv.0)),
    ensures
        keys_increasing(seq.unref()),
{
    let ks = seq.map_values(|kv: (&u32, &V)| *kv.0);
    assert(vstd::laws_cmp::obeys_cmp::<u32>());
    vstd::std_specs::btree::axiom_increasing_seq_meaning(ks);
    assert forall|i: int, j: int| 0 <= i < j < seq.len() implies seq.unref()[i].0 < seq.unref()[j].0 by {
        assert(OrdSpec::cmp_spec(&ks[i], &ks[j]) is Less);
    }
}

/// Puts an entry into a map; `BTreeMap::insert`.
pub fn map_insert<V>(m: &mut BTreeMap<u32, V>, k: u32, v: V)
    ensures
        final(m)@ == old(m)@.insert(k, v),
{
    m.insert(k, v);
}

/// Looks an entry up by index; `BTreeMap::get`.
pub fn index_get<V>(m: &BTreeMap<usize, V>, k: usize) -> (r: Option<&V>)
    ensures
        match r {
            Some(v) => m@.contains_key(k) && *v == m@[k],
            None => !m@.contains_key(k),
        },
{
    m.get(&k)
}

/// Puts an entry under an index; `BTreeMap::insert`.
pub fn index_insert<V>(m: &mut BTreeMap<usize, V>, k: usize, v: V)
    ensures
        final(m)@ == old(m)@.insert(k, v),
{
    m.insert(k, v);
}

/// Takes the entry of an index out of a map; `BTreeMap::remove`.
pub fn index_remove<V>(m: &mut BTreeMap<usize, V>, k: usize) -> (r: Option<V>)
    ensures
        final(m)@ == old(m)@.remove(k),
        match r {
            Some(v) => old(m)@.contains_key(k) && v == old(m)@[k],
            None => !old(m)@.contains_key(k),
        },
{
    m.remove(&k)
}

/// The entries of a map in increasing key order.
pub fn sorted_entries<V: Copy>(m: &BTreeMap<u32, V>) -> (v: Vec<(u32, V)>)
    ensures
        keys_increasing(v@),
        pairs_map(v@) == m@,
        v@ == sorted_pairs(m@),
{
    let mut v: Vec<(u32, V)> = Vec::new();
    for e in it: m.iter()
        invariant
            v@ == it.seq().subrange(0, it.index() as int).unref(),
            it.seq() == spec_btree_map_iter(m).remaining(),
    {
        let (k, x) = e;
        v.push((*k, *x));
        assert(it.seq().subrange(0, it.index() + 1).unref() =~= v@);
    }
    let ghost seq = spec_btree_map_iter(m).remaining();
    assert(v@ =~= seq.unref());
    proof {
        lemma_increasing_keys(seq);
        lemma_pairs_map_contents(v@);
        assert forall|k: u32| pairs_map(v@).contains_key(k) <==> m@.contains_key(k) by {
            if m@.contains_key(k) {
                assert(seq.contains((&k, &m@[k])));
                let i = choose|i: int| 0 <= i < seq.len() && seq[i] == (&k, &m@[k]);
                assert(v@[i].0 == k);
            }
            if pairs_map(v@).contains_key(k) {
                let i = choose|i: int| 0 <= i < v@.len() && v@[i].0 == k;
                assert(m@.contains_key(*seq[i].0));
            }
        }
        assert forall|k: u32| #[trigger] pairs_map(v@).contains_key(k) implies pairs_map(v@)[k] == m@[k] by {
            let i = choose|i: int| 0 <= i < v@.len() && v@[i].0 == k;
            assert(pairs_map(v@)[v@[i].0] == v@[i].1);
            assert(m@[*seq[i].0] == *seq[i].1);
        }
        assert(pairs_map(v@) =~= m@);
        lemma_is_sorted_pairs(v@);
    }
    v
}

/// The pairs with their values dereferenced.
pub open spec fn deref_pairs<V>(s: Seq<(u32, &V)>) -> Seq<(u32, V)> {
    s.map_values(|p: (u32, &V)| (p.0, *p.1))
}

/// The entries of a map in increasing key order, each value by reference.
pub fn sorted_entry_refs<'a, V>(m: &'a BTreeMap<u32, V>) -> (v: Vec<(u32, &'a V)>)
    ensures
        keys_increasing(deref_pairs(v@)),
        pairs_map(deref_pairs(v@)) == m@,
        deref_pairs(v@) == sorted_pairs(m@),
{
    let mut v: Vec<(u32, &'a V)> = Vec::new();
    for e in it: m.iter()
        invariant
            deref_pairs(v@) == it.seq().subrange(0, it.index() as int).unref(),
            it.seq() == spec_btree_map_iter(m).remaining(),
    {
        let ghost before = v@;
        let (k, x) = e;
        v.push((*k, x));
        assert(v@ == before.push((*k, x)));
        assert(deref_pairs(v@) =~= deref_pairs(before).push((*k, *x)));
        assert(it.seq().subrange(0, it.index() + 1).unref() =~= it.seq().subrange(0, it.index() as int).unref().push((*k, *x)));
        assert(it.seq().subrange(0, it.index() + 1).unref() =~= deref_pairs(v@));
    }
    let ghost seq = spec_btree_map_iter(m).remaining();
    assert(deref_pairs(v@) =~= seq.unref());
    proof {
        lemma_increasing_keys(seq);
        lemma_pairs_map_contents(deref_pairs(v@));
        assert forall|k: u32| pairs_map(deref_pairs(v@)).contains_key(k) <==> m@.contains_key(k) by {
            if m@.contains_key(k) {
                assert(seq.contains((&k, &m@[k])));
                let i = choose|i: int| 0 <= i < seq.len() && seq[i] == (&k, &m@[k]);
                assert(deref_pairs(v@)[i].0 == k);
            }
            if pairs_map(deref_pairs(v@)).contains_key(k) {
                let i = choose|i: int| 0 <= i < deref_pairs(v@).len() && deref_pairs(v@)[i].0 == k;
                assert(m@.contains_key(*seq[i].0));
            }
        }
        assert forall|k: u32| #[trigger] pairs_map(deref_pairs(v@)).contains_key(k) implies pairs_map(deref_pairs(v@))[k] == m@[k] by {
            let i = choose|i: int| 0 <= i < deref_pairs(v@).len() && deref_pairs(v@)[i].0 == k;
            assert(pairs_map(deref_pairs(v@))[deref_pairs(v@)[i].0] == deref_pairs(v@)[i].1);
            assert(m@[*seq[i].0] == *seq[i].1);
        }
        assert(pairs_map(deref_pairs(v@)) =~= m@);
        lemma_is_sorted_pairs(deref_pairs(v@));
    }
    v
}

} // verus!
