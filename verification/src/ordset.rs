//! Finite sets kept as strictly sorted vectors. The view of a set is a
//! mathematical `Set`; the order in which its elements are visited is the
//! sorted enumeration `ordered` of that set.
use vstd::prelude::*;
use crate::order::{Keyed, Order};

verus! {

/// Every element comes strictly before every later one.
pub open spec fn strictly_sorted<K: Keyed>(s: Seq<K::V>) -> bool {
    forall|i: int, j: int| #![trigger s[i], s[j]] 0 <= i < j < s.len() ==> K::before(s[i], s[j])
}

/// The elements of a finite set in increasing order.
pub open spec fn ordered<K: Keyed>(s: Set<K::V>) -> Seq<K::V> {
    choose|q: Seq<K::V>| strictly_sorted::<K>(q) && q.to_set() == s
}

pub proof fn lemma_sorted_no_duplicates<K: Keyed>(q: Seq<K::V>)
    requires
        strictly_sorted::<K>(q),
    ensures
        q.no_duplicates(),
        q.to_set().len() == q.len(),
        q.to_set().finite(),
{
    assert forall|i: int, j: int| 0 <= i < q.len() && 0 <= j < q.len() && i != j implies q[i]
        != q[j] by {
        K::lemma_before_irreflexive(q[i]);
        if i < j {
            assert(K::before(q[i], q[j]));
        } else {
            assert(K::before(q[j], q[i]));
        }
    }
    q.unique_seq_to_set();
    vstd::seq_lib::seq_to_set_is_finite(q);
}

proof fn lemma_sorted_agree_upto<K: Keyed>(q1: Seq<K::V>, q2: Seq<K::V>, i: int)
    requires
        strictly_sorted::<K>(q1),
        strictly_sorted::<K>(q2),
        q1.to_set() == q2.to_set(),
        q1.len() == q2.len(),
        0 <= i <= q1.len(),
    ensures
        forall|j: int| 0 <= j < i ==> q1[j] == q2[j],
    decreases i,
{
    if i > 0 {
        lemma_sorted_agree_upto::<K>(q1, q2, i - 1);
        let k = i - 1;
        let x = q1[k];
        let y = q2[k];
        assert(q1.to_set().contains(x));
        assert(q2.to_set().contains(x));
        let m = choose|m: int| 0 <= m < q2.len() && q2[m] == x;
        assert(q1.to_set().contains(y));
        let n = choose|n: int| 0 <= n < q1.len() && q1[n] == y;
        K::lemma_before_irreflexive(x);
        K::lemma_before_irreflexive(y);
        if x != y {
            if m < k {
                assert(q1[m] == q2[m]);
                assert(K::before(q1[m], q1[k]));
            } else if n < k {
                assert(q1[n] == q2[n]);
                assert(K::before(q2[n], q2[k]));
            } else {
                assert(m != k);
                assert(n != k);
                assert(K::before(q2[k], q2[m]));
                assert(K::before(q1[k], q1[n]));
                K::lemma_before_transitive(x, y, x);
            }
        }
    }
}

/// A finite set has exactly one strictly sorted enumeration.
pub proof fn lemma_sorted_unique<K: Keyed>(q1: Seq<K::V>, q2: Seq<K::V>)
    requires
        strictly_sorted::<K>(q1),
        strictly_sorted::<K>(q2),
        q1.to_set() == q2.to_set(),
    ensures
        q1 == q2,
{
    lemma_sorted_no_duplicates::<K>(q1);
    lemma_sorted_no_duplicates::<K>(q2);
    lemma_sorted_agree_upto::<K>(q1, q2, q1.len() as int);
    assert(q1 =~= q2);
}

pub proof fn lemma_ordered_of<K: Keyed>(q: Seq<K::V>)
    requires
        strictly_sorted::<K>(q),
    ensures
        ordered::<K>(q.to_set()) == q,
{
    let o = ordered::<K>(q.to_set());
    assert(strictly_sorted::<K>(o) && o.to_set() == q.to_set());
    lemma_sorted_unique::<K>(o, q);
}

/// A finite non-empty set has a least element.
proof fn lemma_least_exists<K: Keyed>(s: Set<K::V>) -> (m: K::V)
    requires
        s.finite(),
        s.len() > 0,
    ensures
        s.contains(m),
        forall|x: K::V| #[trigger] s.contains(x) && x != m ==> K::before(m, x),
    decreases s.len(),
{
    let a = s.choose();
    let rest = s.remove(a);
    if rest.len() == 0 {
        assert forall|x: K::V| #[trigger] s.contains(x) && x != a implies K::before(a, x) by {
            assert(rest.contains(x));
        }
        a
    } else {
        let m = lemma_least_exists::<K>(rest);
        K::lemma_before_total(a, m);
        if K::before(a, m) {
            assert forall|x: K::V| #[trigger] s.contains(x) && x != a implies K::before(a, x) by {
                assert(rest.contains(x));
                if x != m {
                    K::lemma_before_transitive(a, m, x);
                }
            }
            a
        } else {
            assert forall|x: K::V| #[trigger] s.contains(x) && x != m implies K::before(m, x) by {
                if x != a {
                    assert(rest.contains(x));
                }
            }
            m
        }
    }
}

/// Every finite set has a strictly sorted enumeration.
proof fn lemma_sorted_enumeration<K: Keyed>(s: Set<K::V>) -> (q: Seq<K::V>)
    requires
        s.finite(),
    ensures
        strictly_sorted::<K>(q),
        q.to_set() == s,
    decreases s.len(),
{
    if s.len() == 0 {
        assert(s =~= Set::<K::V>::empty());
        assert(Seq::<K::V>::empty().to_set() =~= s);
        Seq::empty()
    } else {
        let m = lemma_least_exists::<K>(s);
        let rest = s.remove(m);
        let r = lemma_sorted_enumeration::<K>(rest);
        let q = seq![m] + r;
        assert forall|i: int, j: int| 0 <= i < j < q.len() implies K::before(q[i], q[j]) by {
            if i == 0 {
                assert(q[j] == r[j - 1]);
                assert(rest.contains(r[j - 1]));
            } else {
                assert(q[i] == r[i - 1] && q[j] == r[j - 1]);
            }
        }
        assert forall|x: K::V| #[trigger] q.to_set().contains(x) <==> s.contains(x) by {
            if s.contains(x) && x != m {
                assert(r.to_set().contains(x));
                let k = choose|k: int| 0 <= k < r.len() && r[k] == x;
                assert(q[k + 1] == x);
            }
            if s.contains(x) && x == m {
                assert(q[0] == x);
            }
            if q.to_set().contains(x) {
                let k = choose|k: int| 0 <= k < q.len() && q[k] == x;
                if k > 0 {
                    assert(r[k - 1] == x);
                    assert(r.to_set().contains(x));
                }
            }
        }
        assert(q.to_set() =~= s);
        q
    }
}

/// The sorted enumeration of a finite set is strictly sorted and holds
/// exactly its elements.
pub proof fn lemma_ordered_exists<K: Keyed>(s: Set<K::V>)
    requires
        s.finite(),
    ensures
        strictly_sorted::<K>(ordered::<K>(s)),
        ordered::<K>(s).to_set() == s,
        ordered::<K>(s).len() == s.len(),
        ordered::<K>(s).no_duplicates(),
{
    let q = lemma_sorted_enumeration::<K>(s);
    assert(strictly_sorted::<K>(q) && q.to_set() == s);
    lemma_sorted_no_duplicates::<K>(ordered::<K>(s));
}

/// Membership in a prefix grown by one element.
pub proof fn lemma_take_next<A>(s: Seq<A>, i: int)
    requires
        0 <= i < s.len(),
    ensures
        forall|x: A| #[trigger] s.take(i + 1).contains(x) <==> (s.take(i).contains(x) || x == s[i]),
        s.take(i + 1).to_set() == s.take(i).to_set().insert(s[i]),
{
    let t = s.take(i + 1);
    let u = s.take(i);
    assert(t =~= u.push(s[i]));
    assert forall|x: A| #[trigger] t.contains(x) <==> (u.contains(x) || x == s[i]) by {
        if t.contains(x) {
            let j = choose|j: int| 0 <= j < i + 1 && t[j] == x;
            if j < i {
                assert(u[j] == x);
            }
        }
        if u.contains(x) {
            let j = choose|j: int| 0 <= j < i && u[j] == x;
            assert(t[j] == x);
        }
        if x == s[i] {
            assert(t[i] == x);
        }
    }
    assert(s.take(i + 1).to_set() =~= s.take(i).to_set().insert(s[i]));
}

/// A decision on keys, used to filter sets.
pub trait Selector<K: Keyed> {
    spec fn selects(&self, k: K::V) -> bool;

    fn select(&self, k: &K) -> (b: bool)
        ensures
            b == self.selects(k@),
    ;
}

/// A set of keys, stored in increasing order without repetition.
#[derive(Debug)]
pub struct OrdSet<K: Keyed> {
    items: Vec<K>,
}

impl<K: Keyed> OrdSet<K> {
    spec fn elems(self) -> Seq<K::V> {
        self.items@.map_values(|k: K| k@)
    }

    #[verifier::type_invariant]
    spec fn inv(self) -> bool {
        strictly_sorted::<K>(self.elems())
    }
}

impl<K: Keyed> View for OrdSet<K> {
    type V = Set<K::V>;

    closed spec fn view(&self) -> Set<K::V> {
        self.elems().to_set()
    }
}

impl<K: Keyed> OrdSet<K> {
    proof fn lemma_view(self)
        requires
            self.inv(),
        ensures
            ordered::<K>(self@) == self.elems(),
            self@.len() == self.elems().len(),
            self@.finite(),
            self.elems().no_duplicates(),
            self.elems().len() == self.items@.len(),
            forall|i: int| 0 <= i < self.items@.len() ==> #[trigger] self.elems()[i] == self.items@[i]@,
    {
        lemma_sorted_no_duplicates::<K>(self.elems());
        lemma_ordered_of::<K>(self.elems());
    }

    /// The set held is finite.
    pub proof fn lemma_finite(&self)
        ensures
            self@.finite(),
    {
        vstd::seq_lib::seq_to_set_is_finite(self.elems());
    }

    /// The empty set.
    pub fn new() -> (r: Self)
        ensures
            r@ == Set::<K::V>::empty(),
    {
        let r = OrdSet { items: Vec::new() };
        assert(r.elems() =~= Seq::<K::V>::empty());
        assert(r@ =~= Set::<K::V>::empty());
        r
    }

    /// Number of elements. Also states that the set is finite and that its
    /// sorted enumeration has that many strictly increasing elements.
    pub fn len(&self) -> (n: usize)
        ensures
            n == self@.len(),
            self@.finite(),
            ordered::<K>(self@).len() == n,
            strictly_sorted::<K>(ordered::<K>(self@)),
            ordered::<K>(self@).to_set() == self@,
            ordered::<K>(self@).no_duplicates(),
    {
        proof {
            use_type_invariant(self);
            self.lemma_view();
        }
        self.items.len()
    }

    pub fn is_empty(&self) -> (b: bool)
        ensures
            b == (self@.len() == 0),
            b == (self@ == Set::<K::V>::empty()),
    {
        proof {
            use_type_invariant(self);
            self.lemma_view();
            if self@.len() == 0 {
                assert(self.elems() =~= Seq::<K::V>::empty());
                assert(self@ =~= Set::<K::V>::empty());
            }
        }
        self.items.len() == 0
    }

    /// The element at position `i` of the sorted enumeration.
    pub fn get(&self, i: usize) -> (r: &K)
        requires
            i < self@.len(),
        ensures
            r@ == ordered::<K>(self@)[i as int],
    {
        proof {
            use_type_invariant(self);
            self.lemma_view();
        }
        &self.items[i]
    }

    /// First position whose element does not come before `k`, and whether
    /// that element is `k`.
    fn find_pos(&self, k: &K) -> (r: (usize, bool))
        requires
            self.inv(),
        ensures
            r.0 <= self.items@.len(),
            forall|j: int| 0 <= j < r.0 ==> K::before(#[trigger] self.elems()[j], k@),
            forall|j: int| r.0 <= j < self.items@.len() ==> !K::before(#[trigger] self.elems()[j], k@),
            forall|j: int| r.0 < j < self.items@.len() ==> K::before(k@, #[trigger] self.elems()[j]),
            r.1 == (r.0 < self.items@.len() && self.elems()[r.0 as int] == k@),
            !r.1 ==> forall|j: int| r.0 <= j < self.items@.len() ==> K::before(k@, #[trigger] self.elems()[j]),
    {
        proof {
            self.lemma_view();
        }
        let n = self.items.len();
        let mut i: usize = 0;
        let mut stop = false;
        while i < n && !stop
            invariant
                n == self.items@.len(),
                i <= n,
                self.inv(),
                forall|j: int| 0 <= j < i ==> K::before(#[trigger] self.elems()[j], k@),
                forall|j: int| 0 <= j < n ==> #[trigger] self.elems()[j] == self.items@[j]@,
                stop ==> i < n && !K::before(self.elems()[i as int], k@),
            decreases n - i + (if stop { 0int } else { 1int }),
        {
            match self.items[i].compare_to(k) {
                Order::Less => {
                    i = i + 1;
                },
                _ => {
                    stop = true;
                },
            }
        }
        let found = if i < n {
            match self.items[i].compare_to(k) {
                Order::Equal => true,
                _ => false,
            }
        } else {
            false
        };
        proof {
            if i < n {
                let e = self.elems();
                assert(!K::before(e[i as int], k@));
                K::lemma_before_total(e[i as int], k@);
                assert forall|j: int| i < j < n implies K::before(k@, #[trigger] e[j]) by {
                    assert(K::before(e[i as int], e[j]));
                    if e[i as int] != k@ {
                        K::lemma_before_transitive(k@, e[i as int], e[j]);
                    }
                }
                assert forall|j: int| i <= j < n implies !K::before(#[trigger] e[j], k@) by {
                    K::lemma_before_irreflexive(k@);
                    if j > i && K::before(e[j], k@) {
                        K::lemma_before_transitive(k@, e[j], k@);
                    }
                }
            }
        }
        (i, found)
    }

    pub fn contains(&self, k: &K) -> (b: bool)
        ensures
            b == self@.contains(k@),
    {
        proof {
            use_type_invariant(self);
            self.lemma_view();
        }
        let (i, found) = self.find_pos(k);
        proof {
            let e = self.elems();
            if !found {
                K::lemma_before_irreflexive(k@);
                assert forall|j: int| 0 <= j < e.len() implies e[j] != k@ by {
                    if j < i {
                        assert(K::before(e[j], k@));
                    } else {
                        assert(K::before(k@, e[j]));
                    }
                }
            } else {
                assert(e[i as int] == k@);
            }
        }
        found
    }

    /// Adds `k`.
    pub fn insert(&mut self, k: K)
        ensures
            final(self)@ == old(self)@.insert(k@),
    {
        proof {
            use_type_invariant(&*self);
            self.lemma_view();
        }
        let (i, found) = self.find_pos(&k);
        if !found {
            let ghost e = self.elems();
            let ghost ne = e.insert(i as int, k@);
            proof {
                assert forall|a: int, b: int| 0 <= a < b < ne.len() implies K::before(
                    #[trigger] ne[a],
                    #[trigger] ne[b],
                ) by {
                    if b < i {
                        assert(ne[a] == e[a] && ne[b] == e[b]);
                    } else if b == i {
                        assert(ne[a] == e[a]);
                    } else if a == i {
                        assert(ne[b] == e[b - 1]);
                    } else if a < i {
                        assert(ne[a] == e[a] && ne[b] == e[b - 1]);
                        assert(K::before(e[a], k@));
                        assert(K::before(k@, e[b - 1]));
                        K::lemma_before_transitive(e[a], k@, e[b - 1]);
                    } else {
                        assert(ne[a] == e[a - 1] && ne[b] == e[b - 1]);
                    }
                }
            }
            let mut items: Vec<K> = Vec::new();
            std::mem::swap(&mut items, &mut self.items);
            proof {
                assert(self.elems() =~= Seq::<K::V>::empty());
            }
            items.insert(i, k);
            let ghost nitems = items@;
            assert(nitems.map_values(|x: K| x@) =~= ne);
            self.items = items;
            proof {
                assert(self.elems() =~= ne);
                assert(self@ =~= old(self)@.insert(k@)) by {
                    assert forall|x: K::V| #[trigger] ne.contains(x) <==> (e.contains(x) || x == k@) by {
                        if ne.contains(x) {
                            let j = choose|j: int| 0 <= j < ne.len() && ne[j] == x;
                            if j < i {
                                assert(e[j] == x);
                            } else if j > i {
                                assert(e[j - 1] == x);
                            }
                        }
                        if e.contains(x) {
                            let j = choose|j: int| 0 <= j < e.len() && e[j] == x;
                            if j < i {
                                assert(ne[j] == x);
                            } else {
                                assert(ne[j + 1] == x);
                            }
                        }
                        if x == k@ {
                            assert(ne[i as int] == x);
                        }
                    }
                }
            }
        } else {
            proof {
                assert(self.elems()[i as int] == k@);
                assert(self@.contains(k@));
                assert(self@ =~= old(self)@.insert(k@));
            }
        }
    }

    /// Removes `k` if present.
    pub fn remove(&mut self, k: &K)
        ensures
            final(self)@ == old(self)@.remove(k@),
    {
        proof {
            use_type_invariant(&*self);
            self.lemma_view();
        }
        let (i, found) = self.find_pos(k);
        if found {
            let ghost e = self.elems();
            let ghost ne = e.remove(i as int);
            proof {
                assert forall|a: int, b: int| 0 <= a < b < ne.len() implies K::before(
                    #[trigger] ne[a],
                    #[trigger] ne[b],
                ) by {
                    if b < i {
                        assert(ne[a] == e[a] && ne[b] == e[b]);
                    } else if a < i {
                        assert(ne[a] == e[a] && ne[b] == e[b + 1]);
                    } else {
                        assert(ne[a] == e[a + 1] && ne[b] == e[b + 1]);
                    }
                }
            }
            let mut items: Vec<K> = Vec::new();
            std::mem::swap(&mut items, &mut self.items);
            proof {
                assert(self.elems() =~= Seq::<K::V>::empty());
            }
            items.remove(i);
            assert(items@.map_values(|x: K| x@) =~= ne);
            self.items = items;
            proof {
                assert(self.elems() =~= ne);
                assert forall|x: K::V| #[trigger] ne.contains(x) <==> (e.contains(x) && x != k@) by {
                    if ne.contains(x) {
                        let j = choose|j: int| 0 <= j < ne.len() && ne[j] == x;
                        if j < i {
                            assert(e[j] == x);
                        } else {
                            assert(e[j + 1] == x);
                        }
                        assert(e.no_duplicates());
                    }
                    if e.contains(x) && x != k@ {
                        let j = choose|j: int| 0 <= j < e.len() && e[j] == x;
                        if j < i {
                            assert(ne[j] == x);
                        } else {
                            assert(ne[j - 1] == x);
                        }
                    }
                }
                assert(self@ =~= old(self)@.remove(k@));
            }
        } else {
            proof {
                let e = self.elems();
                K::lemma_before_irreflexive(k@);
                assert forall|j: int| 0 <= j < e.len() implies e[j] != k@ by {
                    if j < i {
                        assert(K::before(e[j], k@));
                    } else {
                        assert(K::before(k@, e[j]));
                    }
                }
                assert(self@ =~= old(self)@.remove(k@));
            }
        }
    }

    /// Adds `k`, which comes after every element already present.
    pub fn push_last(&mut self, k: K)
        requires
            forall|x: K::V| old(self)@.contains(x) ==> K::before(x, k@),
        ensures
            final(self)@ == old(self)@.insert(k@),
    {
        proof {
            use_type_invariant(&*self);
            self.lemma_view();
        }
        let ghost e = self.elems();
        let ghost ne = e.push(k@);
        proof {
            assert forall|a: int, b: int| 0 <= a < b < ne.len() implies K::before(
                #[trigger] ne[a],
                #[trigger] ne[b],
            ) by {
                if b < e.len() {
                    assert(ne[a] == e[a] && ne[b] == e[b]);
                } else {
                    assert(ne[a] == e[a]);
                    assert(e.to_set().contains(e[a]));
                }
            }
        }
        let mut items: Vec<K> = Vec::new();
            std::mem::swap(&mut items, &mut self.items);
        proof {
            assert(self.elems() =~= Seq::<K::V>::empty());
        }
        items.push(k);
        assert(items@.map_values(|x: K| x@) =~= ne);
        self.items = items;
        proof {
            assert(self.elems() =~= ne);
            assert(ne.to_set() =~= e.to_set().insert(k@)) by {
                assert forall|x: K::V| #[trigger] ne.contains(x) <==> (e.contains(x) || x == k@) by {
                    if ne.contains(x) {
                        let j = choose|j: int| 0 <= j < ne.len() && ne[j] == x;
                        if j < e.len() {
                            assert(e[j] == x);
                        }
                    }
                    if e.contains(x) {
                        let j = choose|j: int| 0 <= j < e.len() && e[j] == x;
                        assert(ne[j] == x);
                    }
                    if x == k@ {
                        assert(ne[e.len() as int] == x);
                    }
                }
            }
        }
    }

    /// A copy of this set.
    pub fn duplicate(&self) -> (r: Self)
        ensures
            r@ == self@,
    {
        let n = self.len();
        let mut r = OrdSet::new();
        let mut i: usize = 0;
        while i < n
            invariant
                n == self@.len(),
                i <= n,
                ordered::<K>(self@).len() == n,
                strictly_sorted::<K>(ordered::<K>(self@)),
                r@ == ordered::<K>(self@).take(i as int).to_set(),
            decreases n - i,
        {
            let x = self.get(i).duplicate();
            proof {
                let o = ordered::<K>(self@);
                assert forall|y: K::V| r@.contains(y) implies K::before(y, x@) by {
                    let j = choose|j: int| 0 <= j < i && o.take(i as int)[j] == y;
                    assert(o[j] == y);
                }
                assert(o.take(i + 1) =~= o.take(i as int).push(o[i as int]));
                o.take(i as int).lemma_push_to_set_commute(o[i as int]);
            }
            r.push_last(x);
            i = i + 1;
        }
        proof {
            let o = ordered::<K>(self@);
            assert(o.take(n as int) =~= o);
        }
        r
    }

    /// The elements in increasing order.
    pub fn to_vec(&self) -> (v: Vec<K>)
        ensures
            v@.len() == self@.len(),
            forall|i: int| 0 <= i < v@.len() ==> #[trigger] v@[i]@ == ordered::<K>(self@)[i],
    {
        let n = self.len();
        let mut v: Vec<K> = Vec::new();
        let mut i: usize = 0;
        while i < n
            invariant
                n == self@.len(),
                i <= n,
                v@.len() == i,
                forall|j: int| 0 <= j < i ==> #[trigger] v@[j]@ == ordered::<K>(self@)[j],
            decreases n - i,
        {
            let x = self.get(i).duplicate();
            v.push(x);
            i = i + 1;
        }
        v
    }

    /// `self ∪ other`.
    pub fn union(&self, other: &Self) -> (r: Self)
        ensures
            r@ == self@.union(other@),
    {
        let mut r = self.duplicate();
        let n = other.len();
        let mut i: usize = 0;
        while i < n
            invariant
                n == other@.len(),
                i <= n,
                ordered::<K>(other@).len() == n,
                r@ == self@.union(ordered::<K>(other@).take(i as int).to_set()),
            decreases n - i,
        {
            let x = other.get(i).duplicate();
            r.insert(x);
            proof {
                let o = ordered::<K>(other@);
                assert(o.take(i + 1) =~= o.take(i as int).push(o[i as int]));
                o.take(i as int).lemma_push_to_set_commute(o[i as int]);
                assert(r@ =~= self@.union(o.take(i + 1).to_set()));
            }
            i = i + 1;
        }
        proof {
            let o = ordered::<K>(other@);
            assert(o.take(n as int) =~= o);
        }
        r
    }

    /// The elements of `self` that are (`keep_common`) or are not in `other`.
    fn filter_by(&self, other: &Self, keep_common: bool) -> (r: Self)
        ensures
            keep_common ==> r@ == self@.intersect(other@),
            !keep_common ==> r@ == self@.difference(other@),
    {
        let n = self.len();
        let mut r = OrdSet::new();
        let mut i: usize = 0;
        while i < n
            invariant
                n == self@.len(),
                i <= n,
                ordered::<K>(self@).len() == n,
                strictly_sorted::<K>(ordered::<K>(self@)),
                r@ == ordered::<K>(self@).take(i as int).to_set().filter(
                    |x: K::V| other@.contains(x) == keep_common,
                ),
            decreases n - i,
        {
            let x = self.get(i);
            let ghost o = ordered::<K>(self@);
            let in_other = other.contains(x);
            if in_other == keep_common {
                let y = x.duplicate();
                proof {
                    assert forall|z: K::V| r@.contains(z) implies K::before(z, y@) by {
                        let j = choose|j: int| 0 <= j < i && o.take(i as int)[j] == z;
                        assert(o[j] == z);
                    }
                }
                r.push_last(y);
            }
            proof {
                assert(o.take(i + 1) =~= o.take(i as int).push(o[i as int]));
                o.take(i as int).lemma_push_to_set_commute(o[i as int]);
                assert(r@ =~= o.take(i + 1).to_set().filter(
                    |x: K::V| other@.contains(x) == keep_common,
                ));
            }
            i = i + 1;
        }
        proof {
            let o = ordered::<K>(self@);
            assert(o.take(n as int) =~= o);
            if keep_common {
                assert(r@ =~= self@.intersect(other@));
            } else {
                assert(r@ =~= self@.difference(other@));
            }
        }
        r
    }

    /// The elements that `sel` selects.
    pub fn filter_with<S: Selector<K>>(&self, sel: &S) -> (r: Self)
        ensures
            r@ == self@.filter(|x: K::V| sel.selects(x)),
    {
        let ghost pred = |x: K::V| sel.selects(x);
        let n = self.len();
        let mut r = OrdSet::new();
        let mut i: usize = 0;
        while i < n
            invariant
                n == self@.len(),
                i <= n,
                ordered::<K>(self@).len() == n,
                strictly_sorted::<K>(ordered::<K>(self@)),
                ordered::<K>(self@).to_set() == self@,
                pred == (|x: K::V| sel.selects(x)),
                r@ == ordered::<K>(self@).take(i as int).to_set().filter(pred),
            decreases n - i,
        {
            let x = self.get(i);
            let ghost o = ordered::<K>(self@);
            let take_it = sel.select(x);
            if take_it {
                let y = x.duplicate();
                proof {
                    assert forall|z: K::V| r@.contains(z) implies K::before(z, y@) by {
                        let j = choose|j: int| 0 <= j < i && o.take(i as int)[j] == z;
                        assert(o[j] == z);
                    }
                }
                r.push_last(y);
            }
            proof {
                assert(o.take(i + 1) =~= o.take(i as int).push(o[i as int]));
                o.take(i as int).lemma_push_to_set_commute(o[i as int]);
                assert(r@ =~= o.take(i + 1).to_set().filter(pred));
            }
            i = i + 1;
        }
        proof {
            let o = ordered::<K>(self@);
            assert(o.take(n as int) =~= o);
        }
        r
    }

    /// `self ∩ other`.
    pub fn intersection(&self, other: &Self) -> (r: Self)
        ensures
            r@ == self@.intersect(other@),
    {
        self.filter_by(other, true)
    }

    /// `self \ other`.
    pub fn difference(&self, other: &Self) -> (r: Self)
        ensures
            r@ == self@.difference(other@),
    {
        self.filter_by(other, false)
    }

    /// Elements in exactly one of the two sets.
    pub fn symmetric_difference(&self, other: &Self) -> (r: Self)
        ensures
            r@ == self@.difference(other@).union(other@.difference(self@)),
    {
        let a = self.difference(other);
        let b = other.difference(self);
        a.union(&b)
    }

    /// Whether every element of `self` is in `other`.
    pub fn is_subset(&self, other: &Self) -> (b: bool)
        ensures
            b == self@.subset_of(other@),
    {
        let n = self.len();
        let mut i: usize = 0;
        while i < n
            invariant
                n == self@.len(),
                i <= n,
                ordered::<K>(self@).len() == n,
                ordered::<K>(self@).to_set() == self@,
                forall|j: int| 0 <= j < i ==> other@.contains(#[trigger] ordered::<K>(self@)[j]),
            decreases n - i,
        {
            let x = self.get(i);
            if !other.contains(x) {
                proof {
                    assert(self@.contains(x@));
                }
                return false;
            }
            i = i + 1;
        }
        proof {
            let o = ordered::<K>(self@);
            assert forall|y: K::V| self@.contains(y) implies other@.contains(y) by {
                assert(o.to_set().contains(y));
                let j = choose|j: int| 0 <= j < o.len() && o[j] == y;
            }
        }
        true
    }
}

} // verus!
