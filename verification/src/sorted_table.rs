use vstd::prelude::*;

verus! {

/// The keys of an association list are strictly increasing.
pub open spec fn keys_increasing<V>(s: Seq<(u32, V)>) -> bool {
    forall|i: int, j: int| 0 <= i < j < s.len() ==> s[i].0 < s[j].0
}

/// The map that an association list denotes.
pub open spec fn pairs_map<V>(s: Seq<(u32, V)>) -> Map<u32, V>
    decreases s.len(),
{
    if s.len() == 0 {
        Map::empty()
    } else {
        pairs_map(s.drop_last()).insert(s.last().0, s.last().1)
    }
}

/// The entries of a finite map in increasing key order.
pub open spec fn sorted_pairs<V>(m: Map<u32, V>) -> Seq<(u32, V)> {
    choose|s: Seq<(u32, V)>| keys_increasing(s) && pairs_map(s) == m
}

/// In a list with increasing keys, the map holds exactly the listed pairs.
pub proof fn lemma_pairs_map_contents<V>(s: Seq<(u32, V)>)
    requires
        keys_increasing(s),
    ensures
        forall|k: u32| pairs_map(s).contains_key(k) <==> exists|i: int| 0 <= i < s.len() && s[i].0 == k,
        forall|i: int| 0 <= i < s.len() ==> #[trigger] pairs_map(s)[s[i].0] == s[i].1,
    decreases s.len(),
{
    if s.len() > 0 {
        let t = s.drop_last();
        lemma_pairs_map_contents(t);
        assert forall|k: u32| pairs_map(s).contains_key(k) implies exists|i: int| 0 <= i < s.len() && s[i].0 == k by {
            if k != s.last().0 {
                assert(pairs_map(t).contains_key(k));
                assert(exists|i: int| 0 <= i < t.len() && t[i].0 == k);
                let i = choose|i: int| 0 <= i < t.len() && t[i].0 == k;
                assert(t[i] == s[i]);
                assert(s[i].0 == k);
            } else {
                assert(s[s.len() - 1].0 == k);
            }
        }
        assert forall|k: u32| (exists|i: int| 0 <= i < s.len() && s[i].0 == k) implies pairs_map(s).contains_key(k) by {
            let i = choose|i: int| 0 <= i < s.len() && s[i].0 == k;
            if i < s.len() - 1 {
                assert(t[i].0 == k);
                assert(exists|j: int| 0 <= j < t.len() && t[j].0 == k);
                assert(pairs_map(t).contains_key(k));
            }
        }
        assert forall|i: int| 0 <= i < s.len() implies #[trigger] pairs_map(s)[s[i].0] == s[i].1 by {
            if i < s.len() - 1 {
                assert(s[i].0 < s[s.len() - 1].0);
                assert(t[i] == s[i]);
                assert(pairs_map(t)[t[i].0] == t[i].1);
            }
        }
    }
}

/// Two lists with increasing keys that denote the same map are equal.
pub proof fn lemma_sorted_unique<V>(a: Seq<(u32, V)>, b: Seq<(u32, V)>)
    requires
        keys_increasing(a),
        keys_increasing(b),
        pairs_map(a) == pairs_map(b),
    ensures
        a == b,
    decreases a.len() + b.len(),
{
    lemma_pairs_map_contents(a);
    lemma_pairs_map_contents(b);
    if a.len() == 0 {
        if b.len() > 0 {
            assert(pairs_map(b).contains_key(b[0].0));
        }
        assert(a =~= b);
    } else if b.len() == 0 {
        assert(pairs_map(a).contains_key(a[0].0));
    } else {
        let ka = a.last().0;
        let kb = b.last().0;
        assert(pairs_map(a).contains_key(ka));
        assert(pairs_map(b).contains_key(kb));
        let ib = choose|i: int| 0 <= i < b.len() && b[i].0 == ka;
        let ia = choose|i: int| 0 <= i < a.len() && a[i].0 == kb;
        if ib < b.len() - 1 {
            assert(b[ib].0 < kb);
        }
        if ia < a.len() - 1 {
            assert(a[ia].0 < ka);
        }
        assert(ka == kb);
        assert(pairs_map(a)[a[a.len() - 1].0] == a[a.len() - 1].1);
        assert(pairs_map(b)[b[b.len() - 1].0] == b[b.len() - 1].1);
        assert(a.last() == b.last());
        let ta = a.drop_last();
        let tb = b.drop_last();
        lemma_pairs_map_contents(ta);
        lemma_pairs_map_contents(tb);
        assert(!pairs_map(ta).contains_key(ka)) by {
            if pairs_map(ta).contains_key(ka) {
                let i = choose|i: int| 0 <= i < ta.len() && ta[i].0 == ka;
                assert(a[i].0 < a[a.len() - 1].0);
            }
        }
        assert(!pairs_map(tb).contains_key(ka)) by {
            if pairs_map(tb).contains_key(ka) {
                let i = choose|i: int| 0 <= i < tb.len() && tb[i].0 == ka;
                assert(b[i].0 < b[b.len() - 1].0);
            }
        }
        assert(pairs_map(ta) =~= pairs_map(a).remove(ka));
        assert(pairs_map(tb) =~= pairs_map(b).remove(ka));
        lemma_sorted_unique(ta, tb);
        assert(a =~= ta.push(a.last()));
        assert(b =~= tb.push(b.last()));
    }
}

/// A list with increasing keys is the sorted listing of its map.
pub proof fn lemma_is_sorted_pairs<V>(s: Seq<(u32, V)>)
    requires
        keys_increasing(s),
    ensures
        sorted_pairs(pairs_map(s)) == s,
{
    let t = sorted_pairs(pairs_map(s));
    assert(keys_increasing(t) && pairs_map(t) == pairs_map(s));
    lemma_sorted_unique(t, s);
}

/// The abstract values of a list of pairs.
pub open spec fn pairs_view<V: View>(s: Seq<(u32, V)>) -> Seq<(u32, V::V)> {
    s.map_values(|p: (u32, V)| (p.0, p.1@))
}

} // verus!
