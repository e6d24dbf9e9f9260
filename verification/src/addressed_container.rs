use vstd::prelude::*;

use crate::text::{prefixed_decimal, spec_decimal};

verus! {

/// Strictly increasing: sorted, and no key occurs twice.
pub open spec fn strictly_increasing(s: Seq<usize>) -> bool {
    forall|i: int, j: int| 0 <= i < j < s.len() ==> s[i] < s[j]
}

/// The position of `key` in `s`, if it occurs there.
pub open spec fn spec_dense_index(s: Seq<usize>, key: usize) -> Option<usize> {
    if s.contains(key) {
        Some((choose|i: int| 0 <= i < s.len() && s[i] == key) as usize)
    } else {
        None
    }
}

/// The key at position `i` of `s`, if there is one.
pub open spec fn spec_sparse_address(s: Seq<usize>, i: int) -> Option<usize> {
    if 0 <= i < s.len() {
        Some(s[i])
    } else {
        None
    }
}

/// In a strictly increasing sequence, a key's position is the unique one
/// that holds it.
pub proof fn lemma_dense_index_unique(s: Seq<usize>, key: usize, i: int)
    requires
        strictly_increasing(s),
        0 <= i < s.len(),
        s[i] == key,
    ensures
        spec_dense_index(s, key) == Some(i as usize),
{
    assert(s.contains(key));
    let j = choose|j: int| 0 <= j < s.len() && s[j] == key;
    if j < i {
        assert(s[j] < s[i]);
    } else if i < j {
        assert(s[i] < s[j]);
    }
}

/// The elements of a finite set of addresses in increasing order.
pub open spec fn sorted_set(s: Set<usize>) -> Seq<usize> {
    choose|l: Seq<usize>| strictly_increasing(l) && l.to_set() == s
}

/// A set has at most one strictly increasing listing.
pub proof fn lemma_increasing_listing_unique(a: Seq<usize>, b: Seq<usize>)
    requires
        strictly_increasing(a),
        strictly_increasing(b),
        a.to_set() == b.to_set(),
    ensures
        a == b,
    decreases a.len(),
{
    if a.len() == 0 {
        if b.len() > 0 {
            assert(b.contains(b[0]));
            assert(b.to_set().contains(b[0]));
            assert(a.contains(b[0]));
        }
        assert(a =~= b);
    } else {
        assert(a.contains(a[0]));
        assert(a.to_set().contains(a[0]));
        assert(b.contains(a[0]));
        assert(b.len() > 0);
        assert(b.contains(b[0]));
        assert(b.to_set().contains(b[0]));
        assert(a.contains(b[0]));
        let ja = choose|j: int| 0 <= j < a.len() && a[j] == b[0];
        let jb = choose|j: int| 0 <= j < b.len() && b[j] == a[0];
        if ja > 0 {
            assert(a[0] < a[ja]);
        }
        if jb > 0 {
            assert(b[0] < b[jb]);
        }
        assert(a[0] == b[0]);
        let a1 = a.drop_first();
        let b1 = b.drop_first();
        assert forall|x: usize| a1.to_set().contains(x) implies b1.to_set().contains(x) by {
            assert(a1.contains(x));
            let j = choose|j: int| 0 <= j < a1.len() && a1[j] == x;
            assert(a[j + 1] == x);
            assert(a[0] < a[j + 1]);
            assert(a.contains(x));
            assert(a.to_set().contains(x));
            assert(b.contains(x));
            let k = choose|k: int| 0 <= k < b.len() && b[k] == x;
            assert(k != 0);
            assert(b1[k - 1] == x);
            assert(b1.contains(x));
        }
        assert forall|x: usize| b1.to_set().contains(x) implies a1.to_set().contains(x) by {
            assert(b1.contains(x));
            let j = choose|j: int| 0 <= j < b1.len() && b1[j] == x;
            assert(b[j + 1] == x);
            assert(b[0] < b[j + 1]);
            assert(b.contains(x));
            assert(b.to_set().contains(x));
            assert(a.contains(x));
            let k = choose|k: int| 0 <= k < a.len() && a[k] == x;
            assert(k != 0);
            assert(a1[k - 1] == x);
            assert(a1.contains(x));
        }
        assert(a1.to_set() =~= b1.to_set());
        lemma_increasing_listing_unique(a1, b1);
        assert(a1.len() == b1.len());
        assert(a.len() == b.len());
        assert(a =~= b) by {
            assert forall|i: int| 0 <= i < a.len() implies a[i] == b[i] by {
                if i > 0 {
                    assert(a[i] == a1[i - 1]);
                    assert(b[i] == b1[i - 1]);
                    assert(a1[i - 1] == b1[i - 1]);
                }
            }
        }
    }
}

/// A strictly increasing listing of a set is its sorted listing.
pub proof fn lemma_sorted_set(l: Seq<usize>)
    requires
        strictly_increasing(l),
    ensures
        sorted_set(l.to_set()) == l,
{
    let c = sorted_set(l.to_set());
    assert(strictly_increasing(l) && l.to_set() == l.to_set());
    lemma_increasing_listing_unique(c, l);
}

/// `x` put into its place in an increasing sequence.
pub open spec fn insert_sorted(l: Seq<usize>, x: usize) -> Seq<usize>
    decreases l.len(),
{
    if l.len() == 0 {
        seq![x]
    } else if x < l[0] {
        seq![x] + l
    } else {
        seq![l[0]] + insert_sorted(l.drop_first(), x)
    }
}

/// Putting a new element into its place keeps a sequence strictly
/// increasing and adds the element to its set.
pub proof fn lemma_insert_sorted(l: Seq<usize>, x: usize)
    requires
        strictly_increasing(l),
        !l.contains(x),
    ensures
        strictly_increasing(insert_sorted(l, x)),
        insert_sorted(l, x).to_set() == l.to_set().insert(x),
    decreases l.len(),
{
    let r = insert_sorted(l, x);
    if l.len() == 0 {
        assert(r.to_set() =~= l.to_set().insert(x)) by {
            assert(r[0] == x);
            assert(r.contains(x));
        }
    } else if x < l[0] {
        assert forall|i: int, j: int| 0 <= i < j < r.len() implies r[i] < r[j] by {
            if i == 0 {
                assert(r[j] == l[j - 1]);
                if j - 1 > 0 {
                    assert(l[0] < l[j - 1]);
                }
            } else {
                assert(r[i] == l[i - 1] && r[j] == l[j - 1]);
            }
        }
        assert(r.to_set() =~= l.to_set().insert(x)) by {
            assert forall|y: usize| r.contains(y) implies l.to_set().insert(x).contains(y) by {
                let i = choose|i: int| 0 <= i < r.len() && r[i] == y;
                if i > 0 {
                    assert(l[i - 1] == y);
                    assert(l.contains(y));
                }
            }
            assert forall|y: usize| l.to_set().insert(x).contains(y) implies r.contains(y) by {
                if y == x {
                    assert(r[0] == x);
                } else {
                    assert(l.contains(y));
                    let i = choose|i: int| 0 <= i < l.len() && l[i] == y;
                    assert(r[i + 1] == y);
                }
            }
        }
    } else {
        let t = l.drop_first();
        assert(strictly_increasing(t)) by {
            assert forall|i: int, j: int| 0 <= i < j < t.len() implies t[i] < t[j] by {
                assert(t[i] == l[i + 1] && t[j] == l[j + 1]);
            }
        }
        assert(!t.contains(x)) by {
            if t.contains(x) {
                let i = choose|i: int| 0 <= i < t.len() && t[i] == x;
                assert(l[i + 1] == x);
            }
        }
        lemma_insert_sorted(t, x);
        let rt = insert_sorted(t, x);
        assert(x != l[0]) by {
            assert(l[0] == l[0]);
            if x == l[0] {
                assert(l.contains(x));
            }
        }
        assert forall|y: usize| rt.contains(y) implies l[0] < y by {
            assert(rt.to_set().contains(y));
            if y != x {
                assert(t.to_set().contains(y));
                assert(t.contains(y));
                let i = choose|i: int| 0 <= i < t.len() && t[i] == y;
                assert(l[i + 1] == y);
                assert(l[0] < l[i + 1]);
            }
        }
        assert forall|i: int, j: int| 0 <= i < j < r.len() implies r[i] < r[j] by {
            if i == 0 {
                assert(r[j] == rt[j - 1]);
                assert(rt.contains(rt[j - 1]));
            } else {
                assert(r[i] == rt[i - 1] && r[j] == rt[j - 1]);
            }
        }
        assert(r.to_set() =~= l.to_set().insert(x)) by {
            assert forall|y: usize| r.contains(y) implies l.to_set().insert(x).contains(y) by {
                let i = choose|i: int| 0 <= i < r.len() && r[i] == y;
                if i == 0 {
                    assert(l[0] == y);
                    assert(l.contains(y));
                } else {
                    assert(rt[i - 1] == y);
                    assert(rt.contains(y));
                    assert(rt.to_set().contains(y));
                    if y != x {
                        assert(t.to_set().contains(y));
                        assert(t.contains(y));
                        let k = choose|k: int| 0 <= k < t.len() && t[k] == y;
                        assert(l[k + 1] == y);
                        assert(l.contains(y));
                    }
                }
            }
            assert forall|y: usize| l.to_set().insert(x).contains(y) implies r.contains(y) by {
                if y == l[0] {
                    assert(r[0] == y);
                } else {
                    if y != x {
                        assert(l.contains(y));
                        let i = choose|i: int| 0 <= i < l.len() && l[i] == y;
                        assert(i > 0);
                        assert(t[i - 1] == y);
                        assert(t.contains(y));
                        assert(t.to_set().contains(y));
                    }
                    assert(rt.to_set().contains(y));
                    assert(rt.contains(y));
                    let k = choose|k: int| 0 <= k < rt.len() && rt[k] == y;
                    assert(r[k + 1] == y);
                }
            }
        }
    }
}

/// Every finite set of addresses has a strictly increasing listing.
pub proof fn lemma_sorted_listing_exists(s: Set<usize>)
    requires
        s.finite(),
    ensures
        exists|l: Seq<usize>| strictly_increasing(l) && l.to_set() == s,
        strictly_increasing(sorted_set(s)),
        sorted_set(s).to_set() == s,
    decreases s.len(),
{
    if s.len() == 0 {
        let l = Seq::<usize>::empty();
        assert(s =~= Set::<usize>::empty()) by {
            if exists|y: usize| s.contains(y) {
                let y = choose|y: usize| s.contains(y);
                vstd::set::axiom_set_remove_len(s, y);
            }
        }
        assert(l.to_set() =~= s);
        assert(strictly_increasing(l) && l.to_set() == s);
    } else {
        let x = s.choose();
        vstd::set::axiom_set_choose_len(s);
        let t = s.remove(x);
        vstd::set::axiom_set_remove_len(s, x);
        lemma_sorted_listing_exists(t);
        let l = choose|l: Seq<usize>| strictly_increasing(l) && l.to_set() == t;
        assert(!l.contains(x)) by {
            if l.contains(x) {
                assert(l.to_set().contains(x));
            }
        }
        lemma_insert_sorted(l, x);
        let l2 = insert_sorted(l, x);
        assert(l2.to_set() =~= s);
        assert(strictly_increasing(l2) && l2.to_set() == s);
    }
}

/// A bidirectional mapping between a sparse address (the key) and a dense
/// index (its position in the sorted set of keys).
#[derive(PartialEq, Eq)]
pub struct SparseMap {
    data: Vec<usize>,
}

impl View for SparseMap {
    type V = Seq<usize>;

    closed spec fn view(&self) -> Seq<usize> {
        self.data@
    }
}

impl Clone for SparseMap {
    fn clone(&self) -> (m: SparseMap)
        ensures
            m@ == self@,
    {
        proof { use_type_invariant(self); }
        let data = self.data.clone();
        assert(data@ =~= self.data@);
        SparseMap { data }
    }
}

impl SparseMap {
    #[verifier::type_invariant]
    closed spec fn inv(self) -> bool {
        strictly_increasing(self.data@)
    }

    /// A map over the given keys: they are sorted and duplicates removed.
    pub fn new(keys: Vec<usize>) -> (m: SparseMap)
        ensures
            strictly_increasing(m@),
            m@.to_set() == keys@.to_set(),
            m@ == sorted_set(keys@.to_set()),
    {
        let mut data: Vec<usize> = Vec::new();
        let mut i: usize = 0;
        while i < keys.len()
            invariant
                i <= keys.len(),
                strictly_increasing(data@),
                data@.to_set() == keys@.subrange(0, i as int).to_set(),
            decreases keys.len() - i,
        {
            let k = keys[i];
            let ghost before = data@;
            // the first position whose key is not below `k`
            let mut lo: usize = 0;
            let mut hi: usize = data.len();
            while lo < hi
                invariant
                    data@ == before,
                    strictly_increasing(data@),
                    0 <= lo <= hi <= data.len(),
                    forall|j: int| 0 <= j < lo ==> data@[j] < k,
                    forall|j: int| hi <= j < data.len() ==> data@[j] >= k,
                decreases hi - lo,
            {
                let mid = lo + (hi - lo) / 2;
                if data[mid] < k {
                    lo = mid + 1;
                } else {
                    hi = mid;
                }
            }
            if lo < data.len() && data[lo] == k {
                proof {
                    let prefix = keys@.subrange(0, i as int);
                    let next = keys@.subrange(0, i + 1);
                    assert(next =~= prefix.push(k));
                    assert(data@[lo as int] == k);
                    assert(data@.contains(k));
                    assert forall|x: usize| next.to_set().contains(x) implies data@.to_set().contains(x) by {
                        assert(next.contains(x));
                        let q = choose|q: int| 0 <= q < next.len() && next[q] == x;
                        if q < i {
                            assert(prefix[q] == x);
                            assert(prefix.contains(x));
                            assert(prefix.to_set().contains(x));
                        }
                    }
                    assert forall|x: usize| data@.to_set().contains(x) implies next.to_set().contains(x) by {
                        assert(prefix.to_set().contains(x));
                        assert(prefix.contains(x));
                        let q = choose|q: int| 0 <= q < prefix.len() && prefix[q] == x;
                        assert(next[q] == x);
                        assert(next.contains(x));
                    }
                    assert(data@.to_set() =~= next.to_set());
                }
            } else {
                data.insert(lo, k);
                assert(keys@.subrange(0, i + 1) =~= keys@.subrange(0, i as int).push(k));
                assert forall|a: int, b: int| 0 <= a < b < data@.len() implies data@[a] < data@[b] by {
                    if b < lo {
                    } else if a > lo {
                    } else if a == lo {
                        assert(data@[b] == before[b - 1]);
                    } else {
                        assert(data@[a] == before[a]);
                    }
                }
                proof {
                    let prefix = keys@.subrange(0, i as int);
                    let next = keys@.subrange(0, i + 1);
                    assert(next =~= prefix.push(k));
                    assert(next[i as int] == k);
                    assert forall|x: usize| data@.to_set().contains(x) implies next.to_set().contains(x) by {
                        assert(data@.contains(x));
                        let j = choose|j: int| 0 <= j < data@.len() && data@[j] == x;
                        if j == lo {
                            assert(next.contains(k));
                        } else {
                            if j < lo {
                                assert(before[j] == x);
                            } else {
                                assert(before[j - 1] == x);
                            }
                            assert(before.contains(x));
                            assert(before.to_set().contains(x));
                            assert(prefix.to_set().contains(x));
                            assert(prefix.contains(x));
                            let q = choose|q: int| 0 <= q < prefix.len() && prefix[q] == x;
                            assert(next[q] == x);
                            assert(next.contains(x));
                        }
                    }
                    assert forall|x: usize| next.to_set().contains(x) implies data@.to_set().contains(x) by {
                        assert(next.contains(x));
                        let q = choose|q: int| 0 <= q < next.len() && next[q] == x;
                        if q == i {
                            assert(data@[lo as int] == k);
                            assert(data@.contains(x));
                        } else {
                            assert(prefix[q] == x);
                            assert(prefix.contains(x));
                            assert(prefix.to_set().contains(x));
                            assert(before.to_set().contains(x));
                            assert(before.contains(x));
                            let j = choose|j: int| 0 <= j < before.len() && before[j] == x;
                            if j < lo {
                                assert(data@[j] == x);
                            } else {
                                assert(data@[j + 1] == x);
                            }
                            assert(data@.contains(x));
                        }
                    }
                    assert(data@.to_set() =~= next.to_set());
                }
            }
            i = i + 1;
        }
        assert(keys@.subrange(0, keys@.len() as int) =~= keys@);
        proof { lemma_sorted_set(data@); }
        SparseMap { data }
    }

    /// A map over keys that are already strictly increasing.
    pub fn new_presorted(sorted_unique_keys: Vec<usize>) -> (m: SparseMap)
        requires
            strictly_increasing(sorted_unique_keys@),
        ensures
            m@ == sorted_unique_keys@,
    {
        SparseMap { data: sorted_unique_keys }
    }

    /// The sparse address of a dense index.
    pub fn get_sparse_address(&self, dense_index: usize) -> (r: Option<usize>)
        ensures
            r == spec_sparse_address(self@, dense_index as int),
            strictly_increasing(self@),
    {
        proof { use_type_invariant(self); }
        if dense_index < self.data.len() {
            Some(self.data[dense_index])
        } else {
            None
        }
    }

    /// The dense index of a sparse address.
    pub fn get_dense_index(&self, sparse_key: usize) -> (r: Option<usize>)
        ensures
            r == spec_dense_index(self@, sparse_key),
            strictly_increasing(self@),
    {
        proof { use_type_invariant(self); }
        let mut lo: usize = 0;
        let mut hi: usize = self.data.len();
        while lo < hi
            invariant
                0 <= lo <= hi <= self.data@.len(),
                strictly_increasing(self.data@),
                forall|j: int| 0 <= j < lo ==> self.data@[j] < sparse_key,
                forall|j: int| hi <= j < self.data@.len() ==> self.data@[j] > sparse_key,
            decreases hi - lo,
        {
            let mid = lo + (hi - lo) / 2;
            let v = self.data[mid];
            if v == sparse_key {
                proof { lemma_dense_index_unique(self.data@, sparse_key, mid as int); }
                return Some(mid);
            } else if v < sparse_key {
                lo = mid + 1;
            } else {
                hi = mid;
            }
        }
        assert(!self.data@.contains(sparse_key));
        None
    }

    pub fn last_address(&self) -> (r: Option<usize>)
        ensures
            r == (if self@.len() == 0 { None } else { Some(self@.last()) }),
            strictly_increasing(self@),
    {
        proof { use_type_invariant(self); }
        if self.data.len() == 0 {
            None
        } else {
            Some(self.data[self.data.len() - 1])
        }
    }

    pub fn first_address(&self) -> (r: Option<usize>)
        ensures
            r == (if self@.len() == 0 { None } else { Some(self@[0]) }),
            strictly_increasing(self@),
    {
        proof { use_type_invariant(self); }
        if self.data.len() == 0 {
            None
        } else {
            Some(self.data[0])
        }
    }

    pub fn len(&self) -> (n: usize)
        ensures
            n == self@.len(),
            strictly_increasing(self@),
    {
        proof { use_type_invariant(self); }
        self.data.len()
    }

    pub fn is_empty(&self) -> (b: bool)
        ensures
            b == (self@.len() == 0),
    {
        self.data.len() == 0
    }

    pub fn as_slice(&self) -> (s: &[usize])
        ensures
            s@ == self@,
            strictly_increasing(self@),
    {
        proof { use_type_invariant(self); }
        self.data.as_slice()
    }

    /// The map over the keys at the dense indices `start..end`.
    fn clone_from_slice(&self, start: usize, end: usize) -> (m: SparseMap)
        requires
            start <= end <= self@.len(),
        ensures
            m@ == self@.subrange(start as int, end as int),
    {
        proof { use_type_invariant(self); }
        let mut data: Vec<usize> = Vec::new();
        let mut i = start;
        while i < end
            invariant
                start <= i <= end <= self.data@.len(),
                data@ == self.data@.subrange(start as int, i as int),
            decreases end - i,
        {
            data.push(self.data[i]);
            assert(data@ =~= self.data@.subrange(start as int, i + 1));
            i = i + 1;
        }
        SparseMap { data }
    }
}

/// The abstract state of an [`AddressedContainer`]: its items, and the
/// strictly increasing addresses at which they stand.
pub struct ContainerView<T> {
    pub items: Seq<T>,
    pub addrs: Seq<usize>,
}

/// Items (such as instructions) at non-contiguous addresses: the dense index
/// of an item is mapped to its sparse address by a [`SparseMap`].
#[derive(PartialEq, Eq)]
pub struct AddressedContainer<T> {
    items: Vec<T>,
    mapping: SparseMap,
}

impl<T> View for AddressedContainer<T> {
    type V = ContainerView<T>;

    closed spec fn view(&self) -> ContainerView<T> {
        ContainerView { items: self.items@, addrs: self.mapping@ }
    }
}

/// The container is well-formed: one address per item, strictly increasing.
pub open spec fn container_wf<T>(c: ContainerView<T>) -> bool {
    &&& c.items.len() == c.addrs.len()
    &&& strictly_increasing(c.addrs)
}

impl<T: Clone> Clone for AddressedContainer<T> {
    fn clone(&self) -> (c: AddressedContainer<T>)
        ensures
            c@.addrs == self@.addrs,
            c@.items.len() == self@.items.len(),
            forall|i: int| 0 <= i < self@.items.len() ==> cloned(self@.items[i], #[trigger] c@.items[i]),
    {
        proof { use_type_invariant(self); }
        let items = self.items.clone();
        let mapping = self.mapping.clone();
        AddressedContainer { items, mapping }
    }
}

impl<T> AddressedContainer<T> {
    #[verifier::type_invariant]
    closed spec fn inv(self) -> bool {
        self.items@.len() == self.mapping@.len()
    }

    /// A container of `items` at the addresses of `mapping`; both must be of
    /// one length.
    pub fn new(items: Vec<T>, mapping: SparseMap) -> (c: AddressedContainer<T>)
        requires
            items@.len() == mapping@.len(),
        ensures
            c@.items == items@,
            c@.addrs == mapping@,
    {
        AddressedContainer { items, mapping }
    }

    /// Holds for every container.
    pub fn well_formed(&self) -> (b: bool)
        ensures
            b,
            container_wf(self@),
    {
        proof {
            use_type_invariant(self);
            use_type_invariant(&self.mapping);
        }
        true
    }

    /// Each item with its address, in address order.
    pub fn iter(&self) -> (v: Vec<(usize, &T)>)
        ensures
            v@.len() == self@.items.len(),
            forall|i: int| 0 <= i < v@.len() ==> (#[trigger] v@[i]).0 == self@.addrs[i] && *v@[i].1 == self@.items[i],
            container_wf(self@),
    {
        proof {
            use_type_invariant(self);
            use_type_invariant(&self.mapping);
        }
        let mut v: Vec<(usize, &T)> = Vec::new();
        let mut i: usize = 0;
        while i < self.items.len()
            invariant
                i <= self.items@.len(),
                self.items@.len() == self.mapping@.len(),
                v@.len() == i,
                forall|j: int| 0 <= j < i ==> (#[trigger] v@[j]).0 == self.mapping@[j] && *v@[j].1 == self.items@[j],
            decreases self.items@.len() - i,
        {
            let ghost old_v = v@;
            let a = self.mapping.get_sparse_address(i);
            let item = &self.items[i];
            v.push((a.unwrap(), item));
            assert(v@[i as int].0 == self.mapping@[i as int]);
            assert(*v@[i as int].1 == self.items@[i as int]);
            assert(forall|j: int| 0 <= j < i ==> v@[j] == old_v[j]);
            assert forall|j: int| 0 <= j < i + 1 implies v@[j].0 == self.mapping@[j] by {
                if j < i { assert(v@[j] == old_v[j]); }
            }
            assert forall|j: int| 0 <= j < i + 1 implies *v@[j].1 == self.items@[j] by {
                if j < i {
                    assert(*old_v[j].1 == self.items@[j]);
                    assert(v@[j] == old_v[j]);
                    assert(v@[j].1 == old_v[j].1);
                }
            }
            i = i + 1;
        }
        v
    }

    /// A new container holding clones of the items at the dense indices
    /// `start..end`, with their addresses; `None` when the range is not one.
    pub fn slice(&self, start: usize, end: usize) -> (r: Option<AddressedContainer<T>>)
        where T: Clone,
        ensures
            (start <= end && end <= self@.items.len()) <==> r is Some,
            r matches Some(c) ==> {
                &&& c@.addrs == self@.addrs.subrange(start as int, end as int)
                &&& c@.items.len() == end - start
                &&& forall|i: int| 0 <= i < end - start ==> cloned(self@.items[start + i], #[trigger] c@.items[i])
            },
    {
        proof { use_type_invariant(self); }
        if start > end || end > self.items.len() {
            return None;
        }
        let mut items: Vec<T> = Vec::new();
        let mut i = start;
        while i < end
            invariant
                start <= i <= end <= self.items@.len(),
                items@.len() == i - start,
                forall|j: int| 0 <= j < i - start ==> cloned(self.items@[start + j], #[trigger] items@[j]),
            decreases end - i,
        {
            items.push(self.items[i].clone());
            i = i + 1;
        }
        let mapping = self.mapping.clone_from_slice(start, end);
        Some(AddressedContainer { items, mapping })
    }

    pub fn len(&self) -> (n: usize)
        ensures
            n == self@.items.len(),
            container_wf(self@),
    {
        proof {
            use_type_invariant(self);
            use_type_invariant(&self.mapping);
        }
        self.items.len()
    }

    pub fn is_empty(&self) -> (b: bool)
        ensures
            b == (self@.items.len() == 0),
    {
        self.items.len() == 0
    }

    /// The address of the first item.
    pub fn start_addr(&self) -> (r: Option<usize>)
        ensures
            r == (if self@.addrs.len() == 0 { None } else { Some(self@.addrs[0]) }),
            container_wf(self@),
    {
        proof { use_type_invariant(self); }
        self.mapping.first_address()
    }

    /// The address of the last item.
    pub fn end_addr(&self) -> (r: Option<usize>)
        ensures
            r == (if self@.addrs.len() == 0 { None } else { Some(self@.addrs.last()) }),
            container_wf(self@),
    {
        proof { use_type_invariant(self); }
        self.mapping.last_address()
    }

    /// The item at a sparse address.
    pub fn item_at_address(&self, addr: usize) -> (r: Option<&T>)
        ensures
            match spec_dense_index(self@.addrs, addr) {
                Some(i) => r == Some(&self@.items[i as int]),
                None => r is None,
            },
            container_wf(self@),
    {
        proof { use_type_invariant(self); }
        let index = self.mapping.get_dense_index(addr)?;
        proof {
            let j = choose|j: int| 0 <= j < self.mapping@.len() && self.mapping@[j] == addr;
        }
        self.items.get(index)
    }

    /// The item at a dense index.
    pub fn item_at_idx(&self, index: usize) -> (r: Option<&T>)
        ensures
            r == (if index < self@.items.len() { Some(&self@.items[index as int]) } else { None }),
    {
        self.items.get(index)
    }

    /// The dense index of a sparse address.
    pub fn addr_to_idx(&self, addr: usize) -> (r: Option<usize>)
        ensures
            r == spec_dense_index(self@.addrs, addr),
            container_wf(self@),
    {
        proof { use_type_invariant(self); }
        self.mapping.get_dense_index(addr)
    }

    /// The sparse address of a dense index.
    pub fn idx_to_addr(&self, index: usize) -> (r: Option<usize>)
        ensures
            r == spec_sparse_address(self@.addrs, index as int),
            container_wf(self@),
    {
        proof { use_type_invariant(self); }
        self.mapping.get_sparse_address(index)
    }

    /// The address of the item `offset` positions away from the item at
    /// `addr`; a negative offset moves backwards.
    pub fn addr_offset_by_idx(&self, addr: usize, offset: isize) -> (r: Option<usize>)
        ensures
            r == (match spec_dense_index(self@.addrs, addr) {
                Some(i) => if i <= isize::MAX && isize::MIN <= i + offset <= isize::MAX {
                    spec_sparse_address(self@.addrs, i + offset)
                } else {
                    None
                },
                None => None,
            }),
            container_wf(self@),
    {
        proof { use_type_invariant(self); }
        let current = self.addr_to_idx(addr)?;
        if current > isize::MAX as usize {
            return None;
        }
        let current_index = current as isize;
        let target_index = current_index.checked_add(offset)?;
        if target_index < 0 {
            return None;
        }
        self.idx_to_addr(target_index as usize)
    }

    pub fn last(&self) -> (r: Option<&T>)
        ensures
            r == (if self@.items.len() == 0 { None } else { Some(&self@.items.last()) }),
    {
        if self.items.len() == 0 {
            None
        } else {
            Some(&self.items[self.items.len() - 1])
        }
    }
}

/// The mapping between dense indices and sparse addresses goes both ways:
/// the address at an index maps back to that index, and an address found
/// at an index is the address stored there.
pub proof fn lemma_sparse_dense_roundtrip(s: Seq<usize>, i: int, key: usize)
    requires
        strictly_increasing(s),
        s.len() <= usize::MAX,
    ensures
        0 <= i < s.len() ==> spec_dense_index(s, spec_sparse_address(s, i)->0) == Some(i as usize),
        spec_dense_index(s, key) matches Some(j) ==> spec_sparse_address(s, j as int) == Some(key),
{
    if 0 <= i < s.len() {
        assert(spec_sparse_address(s, i) == Some(s[i]));
        lemma_dense_index_unique(s, s[i], i);
    }
    if s.contains(key) {
        let j = choose|j: int| 0 <= j < s.len() && s[j] == key;
        lemma_dense_index_unique(s, key, j);
        assert(spec_dense_index(s, key) == Some(j as usize));
        assert(spec_sparse_address(s, j) == Some(key));
    }
}

/// An optional address as `Debug` writes it.
pub open spec fn optional_text(a: Option<usize>) -> Seq<char> {
    match a {
        Some(x) => "Some("@ + spec_decimal(x as nat) + ")"@,
        None => "None"@,
    }
}

fn optional_address_text(a: Option<usize>) -> (s: String)
    ensures
        s@ == optional_text(a),
{
    match a {
        Some(x) => {
            let mut s = prefixed_decimal("Some(", x);
            s.append(")");
            s
        },
        None => String::from_str("None"),
    }
}

impl SparseMap {
    /// The summary that `Debug` writes: the number of keys and the range
    /// from the first key to the last, 0 for an empty map.
    pub open spec fn spec_debug_text(self) -> Seq<char> {
        let first: usize = if self@.len() == 0 { 0 } else { self@[0] };
        let last: usize = if self@.len() == 0 { 0 } else { self@.last() };
        "SparseMap { len: "@ + spec_decimal(self@.len()) + ", range: "@ + spec_decimal(first as nat)
            + "..="@ + spec_decimal(last as nat) + " }"@
    }

    pub fn debug_text(&self) -> (s: String)
        ensures
            s@ == self.spec_debug_text(),
    {
        let n = self.data.len();
        let first: usize = if n == 0 { 0 } else { self.data[0] };
        let last: usize = if n == 0 { 0 } else { self.data[n - 1] };
        let mut s = prefixed_decimal("SparseMap { len: ", n);
        let a = prefixed_decimal(", range: ", first);
        s.append(a.as_str());
        let b = prefixed_decimal("..=", last);
        s.append(b.as_str());
        s.append(" }");
        s
    }
}

impl<T> AddressedContainer<T> {
    /// The summary that `Debug` writes: the number of items and the first
    /// and last address.
    pub open spec fn spec_debug_text(self) -> Seq<char> {
        let first = if self@.addrs.len() == 0 { None } else { Some(self@.addrs[0]) };
        let last = if self@.addrs.len() == 0 { None } else { Some(self@.addrs.last()) };
        "AddressedContainer { len: "@ + spec_decimal(self@.items.len()) + ", address_range: ("@
            + optional_text(first) + ", "@ + optional_text(last) + ") }"@
    }

    pub fn debug_text(&self) -> (s: String)
        ensures
            s@ == self.spec_debug_text(),
    {
        let mut s = prefixed_decimal("AddressedContainer { len: ", self.len());
        s.append(", address_range: (");
        let a = optional_address_text(self.start_addr());
        s.append(a.as_str());
        s.append(", ");
        let b = optional_address_text(self.end_addr());
        s.append(b.as_str());
        s.append(") }");
        s
    }
}

} // verus!
