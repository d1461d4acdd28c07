//! Maps from names to values, kept as a list of bindings in which a later
//! binding of a name hides the earlier ones.
use vstd::prelude::*;
use crate::order::{compare_str, Order};

verus! {

/// Values that can be copied without changing their view.
pub trait Dup: View + Sized {
    fn dup(&self) -> (r: Self)
        ensures
            r@ == self@,
    ;
}

/// The map made by binding the names of `s` one after the other.
pub open spec fn map_of<V: View>(s: Seq<(String, V)>) -> Map<Seq<char>, V::V>
    decreases s.len(),
{
    if s.len() == 0 {
        Map::empty()
    } else {
        map_of(s.drop_last()).insert(s.last().0@, s.last().1@)
    }
}

#[derive(Debug)]
pub struct NameMap<V> {
    entries: Vec<(String, V)>,
}

impl<V: View> View for NameMap<V> {
    type V = Map<Seq<char>, V::V>;

    closed spec fn view(&self) -> Map<Seq<char>, V::V> {
        map_of(self.entries@)
    }
}

proof fn lemma_map_of_prefix<V: View>(s: Seq<(String, V)>, m: int, k: Seq<char>)
    requires
        0 <= m <= s.len(),
        forall|j: int| m <= j < s.len() ==> (#[trigger] s[j]).0@ != k,
    ensures
        map_of(s).contains_key(k) == map_of(s.take(m)).contains_key(k),
        map_of(s).contains_key(k) ==> map_of(s)[k] == map_of(s.take(m))[k],
    decreases s.len(),
{
    if s.len() > m {
        assert(s.drop_last().take(m) =~= s.take(m));
        lemma_map_of_prefix(s.drop_last(), m, k);
    } else {
        assert(s.take(m) =~= s);
    }
}

impl<V: View> NameMap<V> {
    pub fn new() -> (r: Self)
        ensures
            r@ == Map::<Seq<char>, V::V>::empty(),
    {
        NameMap { entries: Vec::new() }
    }

    /// Binds `k` to `v`, replacing an earlier binding of `k`.
    pub fn insert(&mut self, k: String, v: V)
        ensures
            final(self)@ == old(self)@.insert(k@, v@),
    {
        let ghost kv = k@;
        let ghost vv = v@;
        self.entries.push((k, v));
        proof {
            assert(self.entries@.drop_last() =~= old(self).entries@);
        }
    }

    /// The value bound to `k`.
    pub fn get(&self, k: &str) -> (r: Option<&V>)
        ensures
            r is Some <==> self@.contains_key(k@),
            r matches Some(v) ==> v@ == self@[k@],
    {
        let mut i = self.entries.len();
        while i > 0
            invariant
                i <= self.entries@.len(),
                forall|j: int| i <= j < self.entries@.len() ==> (#[trigger] self.entries@[j]).0@
                    != k@,
            decreases i,
        {
            let found = match compare_str(self.entries[i - 1].0.as_str(), k) {
                Order::Equal => true,
                _ => false,
            };
            if found {
                proof {
                    let s = self.entries@;
                    lemma_map_of_prefix(s, i as int, k@);
                    assert(s.take(i as int).drop_last() =~= s.take(i - 1));
                    assert(s.take(i as int).last() == s[i - 1]);
                }
                return Some(&self.entries[i - 1].1);
            }
            i = i - 1;
        }
        proof {
            lemma_map_of_prefix(self.entries@, 0, k@);
            assert(self.entries@.take(0) =~= Seq::<(String, V)>::empty());
        }
        None
    }

    pub fn contains_key(&self, k: &str) -> (b: bool)
        ensures
            b == self@.contains_key(k@),
    {
        self.get(k).is_some()
    }

    /// The same bindings, to references to the values.
    pub fn refs(&self) -> (r: NameMap<&V>)
        ensures
            r@ == self@,
    {
        let mut entries: Vec<(String, &V)> = Vec::new();
        let n = self.entries.len();
        let mut i: usize = 0;
        while i < n
            invariant
                n == self.entries@.len(),
                i <= n,
                entries@.len() == i,
                forall|j: int|
                    0 <= j < i ==> (#[trigger] entries@[j]).0@ == self.entries@[j].0@
                        && entries@[j].1@ == self.entries@[j].1@,
            decreases n - i,
        {
            let k = self.entries[i].0.clone();
            entries.push((k, &self.entries[i].1));
            i = i + 1;
        }
        let r = NameMap { entries };
        proof {
            lemma_map_of_same_views(r.entries@, self.entries@);
        }
        r
    }
}

impl<V: Dup> NameMap<V> {
    /// A copy of this map.
    pub fn duplicate(&self) -> (r: Self)
        ensures
            r@ == self@,
    {
        let mut entries: Vec<(String, V)> = Vec::new();
        let n = self.entries.len();
        let mut i: usize = 0;
        while i < n
            invariant
                n == self.entries@.len(),
                i <= n,
                entries@.len() == i,
                forall|j: int|
                    0 <= j < i ==> (#[trigger] entries@[j]).0@ == self.entries@[j].0@
                        && entries@[j].1@ == self.entries@[j].1@,
            decreases n - i,
        {
            let k = self.entries[i].0.clone();
            let v = self.entries[i].1.dup();
            entries.push((k, v));
            i = i + 1;
        }
        let r = NameMap { entries };
        proof {
            lemma_map_of_same_views(r.entries@, self.entries@);
        }
        r
    }
}

proof fn lemma_map_of_same_views<V: View, W: View<V = V::V>>(
    a: Seq<(String, W)>,
    b: Seq<(String, V)>,
)
    requires
        a.len() == b.len(),
        forall|j: int| 0 <= j < a.len() ==> (#[trigger] a[j]).0@ == b[j].0@ && a[j].1@ == b[j].1@,
    ensures
        map_of(a) == map_of(b),
    decreases a.len(),
{
    if a.len() > 0 {
        lemma_map_of_same_views(a.drop_last(), b.drop_last());
    }
}

} // verus!
