//! Total orders on the values that the library keeps in sorted sets:
//! vertex labels (compared the way Rust compares `str`, character by
//! character on code points) and edges (pairs of labels, compared on the
//! first label, then on the second).
use vstd::prelude::*;
use vstd::string::*;

verus! {

/// Three-way result of comparing two keys.
pub enum Order {
    Less,
    Equal,
    Greater,
}

/// Index of the first position where `a` and `b` differ, searching from
/// `i` on; the length of the shorter sequence when one is a prefix of the
/// other.
pub open spec fn first_diff_from(a: Seq<char>, b: Seq<char>, i: int) -> int
    decreases a.len() - i,
{
    if i < 0 || i >= a.len() || i >= b.len() || a[i] != b[i] {
        i
    } else {
        first_diff_from(a, b, i + 1)
    }
}

pub open spec fn first_diff(a: Seq<char>, b: Seq<char>) -> int {
    first_diff_from(a, b, 0)
}

/// `k` is the length of the longest common prefix of `a` and `b`.
pub open spec fn is_common_prefix_len(a: Seq<char>, b: Seq<char>, k: int) -> bool {
    &&& 0 <= k <= a.len()
    &&& k <= b.len()
    &&& forall|j: int| 0 <= j < k ==> a[j] == b[j]
    &&& (k == a.len() || k == b.len() || a[k] != b[k])
}

/// Strict lexicographic order on character sequences: `a` is a proper
/// prefix of `b`, or at the first difference `a` has the smaller code
/// point. This is the order of Rust's `str` comparison.
pub open spec fn lex_lt(a: Seq<char>, b: Seq<char>) -> bool {
    let k = first_diff(a, b);
    ||| (k == a.len() && k < b.len())
    ||| (k < a.len() && k < b.len() && (a[k] as int) < (b[k] as int))
}

pub open spec fn lex_le(a: Seq<char>, b: Seq<char>) -> bool {
    a == b || lex_lt(a, b)
}

/// Strict order on edges: by first label, then by second label.
pub open spec fn pair_lt(a: (Seq<char>, Seq<char>), b: (Seq<char>, Seq<char>)) -> bool {
    lex_lt(a.0, b.0) || (a.0 == b.0 && lex_lt(a.1, b.1))
}

proof fn lemma_first_diff_from_props(a: Seq<char>, b: Seq<char>, i: int)
    requires
        0 <= i <= a.len(),
        i <= b.len(),
        forall|j: int| 0 <= j < i ==> a[j] == b[j],
    ensures
        is_common_prefix_len(a, b, first_diff_from(a, b, i)),
    decreases a.len() - i,
{
    if i >= a.len() || i >= b.len() || a[i] != b[i] {
    } else {
        lemma_first_diff_from_props(a, b, i + 1);
    }
}

proof fn lemma_first_diff_from_unique(a: Seq<char>, b: Seq<char>, i: int, k: int)
    requires
        0 <= i <= k,
        is_common_prefix_len(a, b, k),
    ensures
        first_diff_from(a, b, i) == k,
    decreases k - i,
{
    if i < k {
        lemma_first_diff_from_unique(a, b, i + 1, k);
    }
}

/// The first difference is characterised by `is_common_prefix_len`.
pub proof fn lemma_first_diff(a: Seq<char>, b: Seq<char>)
    ensures
        is_common_prefix_len(a, b, first_diff(a, b)),
        forall|k: int| is_common_prefix_len(a, b, k) ==> k == first_diff(a, b),
        first_diff(a, b) == first_diff(b, a),
{
    lemma_first_diff_from_props(a, b, 0);
    lemma_first_diff_from_props(b, a, 0);
    assert forall|k: int| is_common_prefix_len(a, b, k) implies k == first_diff(a, b) by {
        lemma_first_diff_from_unique(a, b, 0, k);
    }
    lemma_first_diff_from_unique(a, b, 0, first_diff(b, a));
}

pub proof fn lemma_lex_irreflexive(a: Seq<char>)
    ensures
        !lex_lt(a, a),
{
    lemma_first_diff(a, a);
    assert(is_common_prefix_len(a, a, a.len() as int));
}

pub proof fn lemma_lex_total(a: Seq<char>, b: Seq<char>)
    ensures
        a == b || lex_lt(a, b) || lex_lt(b, a),
{
    lemma_first_diff(a, b);
    let k = first_diff(a, b);
    if k == a.len() && k == b.len() {
        assert(a =~= b);
    }
}

pub proof fn lemma_lex_transitive(a: Seq<char>, b: Seq<char>, c: Seq<char>)
    requires
        lex_lt(a, b),
        lex_lt(b, c),
    ensures
        lex_lt(a, c),
{
    lemma_first_diff(a, b);
    lemma_first_diff(b, c);
    lemma_first_diff(a, c);
    let k1 = first_diff(a, b);
    let k2 = first_diff(b, c);
    if k1 < k2 {
        assert(is_common_prefix_len(a, c, k1));
    } else if k2 < k1 {
        assert(is_common_prefix_len(a, c, k2));
    } else {
        assert(is_common_prefix_len(a, c, k1));
    }
}

pub proof fn lemma_lex_asymmetric(a: Seq<char>, b: Seq<char>)
    requires
        lex_lt(a, b),
    ensures
        !lex_lt(b, a),
        a != b,
{
    lemma_lex_irreflexive(a);
    if lex_lt(b, a) {
        lemma_lex_transitive(a, b, a);
    }
}

/// Compares two strings in the order of `lex_lt`.
pub fn compare_str(a: &str, b: &str) -> (o: Order)
    ensures
        o is Less <==> lex_lt(a@, b@),
        o is Equal <==> a@ == b@,
        o is Greater <==> lex_lt(b@, a@),
{
    let la = a.unicode_len();
    let lb = b.unicode_len();
    let mut i: usize = 0;
    proof {
        lemma_first_diff(a@, b@);
        lemma_lex_irreflexive(a@);
    }
    while i < la && i < lb
        invariant
            la == a@.len(),
            lb == b@.len(),
            i <= la,
            i <= lb,
            forall|j: int| 0 <= j < i ==> a@[j] == b@[j],
        decreases la - i,
    {
        let ca = a.get_char(i);
        let cb = b.get_char(i);
        if (ca as u32) < (cb as u32) {
            proof {
                lemma_first_diff(a@, b@);
                assert(is_common_prefix_len(a@, b@, i as int));
                lemma_lex_asymmetric(a@, b@);
            }
            return Order::Less;
        } else if (cb as u32) < (ca as u32) {
            proof {
                lemma_first_diff(a@, b@);
                assert(is_common_prefix_len(a@, b@, i as int));
                lemma_first_diff(b@, a@);
                assert(is_common_prefix_len(b@, a@, i as int));
                lemma_lex_asymmetric(b@, a@);
            }
            return Order::Greater;
        }
        i = i + 1;
    }
    proof {
        lemma_first_diff(a@, b@);
        lemma_lex_irreflexive(a@);
        assert(is_common_prefix_len(a@, b@, i as int));
        lemma_first_diff(b@, a@);
        assert(is_common_prefix_len(b@, a@, i as int));
    }
    if la == lb {
        proof {
            assert(a@ =~= b@);
        }
        Order::Equal
    } else if i == la {
        proof {
            lemma_lex_asymmetric(a@, b@);
        }
        Order::Less
    } else {
        proof {
            lemma_lex_asymmetric(b@, a@);
        }
        Order::Greater
    }
}

/// Whether two texts are the same.
pub fn str_eq(a: &str, b: &str) -> (r: bool)
    ensures
        r == (a@ == b@),
{
    match compare_str(a, b) {
        Order::Equal => true,
        _ => false,
    }
}

/// A type whose values are kept in sorted sets: its view carries a strict
/// total order, and values can be compared and copied.
pub trait Keyed: View + Sized {
    spec fn before(a: Self::V, b: Self::V) -> bool;

    proof fn lemma_before_irreflexive(a: Self::V)
        ensures
            !Self::before(a, a),
    ;

    proof fn lemma_before_transitive(a: Self::V, b: Self::V, c: Self::V)
        requires
            Self::before(a, b),
            Self::before(b, c),
        ensures
            Self::before(a, c),
    ;

    proof fn lemma_before_total(a: Self::V, b: Self::V)
        ensures
            a == b || Self::before(a, b) || Self::before(b, a),
    ;

    fn compare_to(&self, other: &Self) -> (o: Order)
        ensures
            o is Less <==> Self::before(self@, other@),
            o is Equal <==> self@ == other@,
            o is Greater <==> Self::before(other@, self@),
    ;

    fn duplicate(&self) -> (r: Self)
        ensures
            r@ == self@,
    ;
}

impl Keyed for String {
    open spec fn before(a: Seq<char>, b: Seq<char>) -> bool {
        lex_lt(a, b)
    }

    proof fn lemma_before_irreflexive(a: Seq<char>) {
        lemma_lex_irreflexive(a);
    }

    proof fn lemma_before_transitive(a: Seq<char>, b: Seq<char>, c: Seq<char>) {
        lemma_lex_transitive(a, b, c);
    }

    proof fn lemma_before_total(a: Seq<char>, b: Seq<char>) {
        lemma_lex_total(a, b);
    }

    fn compare_to(&self, other: &Self) -> (o: Order) {
        compare_str(self.as_str(), other.as_str())
    }

    fn duplicate(&self) -> (r: Self) {
        self.clone()
    }
}

impl Keyed for (String, String) {
    open spec fn before(a: (Seq<char>, Seq<char>), b: (Seq<char>, Seq<char>)) -> bool {
        pair_lt(a, b)
    }

    proof fn lemma_before_irreflexive(a: (Seq<char>, Seq<char>)) {
        lemma_lex_irreflexive(a.0);
        lemma_lex_irreflexive(a.1);
    }

    proof fn lemma_before_transitive(
        a: (Seq<char>, Seq<char>),
        b: (Seq<char>, Seq<char>),
        c: (Seq<char>, Seq<char>),
    ) {
        if lex_lt(a.0, b.0) && lex_lt(b.0, c.0) {
            lemma_lex_transitive(a.0, b.0, c.0);
        }
        if lex_lt(a.1, b.1) && lex_lt(b.1, c.1) {
            lemma_lex_transitive(a.1, b.1, c.1);
        }
    }

    proof fn lemma_before_total(a: (Seq<char>, Seq<char>), b: (Seq<char>, Seq<char>)) {
        lemma_lex_total(a.0, b.0);
        lemma_lex_total(a.1, b.1);
    }

    fn compare_to(&self, other: &Self) -> (o: Order) {
        proof {
            lemma_lex_irreflexive(self.0@);
            lemma_lex_irreflexive(self.1@);
        }
        match compare_str(self.0.as_str(), other.0.as_str()) {
            Order::Less => {
                proof {
                    lemma_lex_asymmetric(self.0@, other.0@);
                }
                Order::Less
            },
            Order::Greater => {
                proof {
                    lemma_lex_asymmetric(other.0@, self.0@);
                }
                Order::Greater
            },
            Order::Equal => {
                let o = compare_str(self.1.as_str(), other.1.as_str());
                proof {
                    if lex_lt(self.1@, other.1@) {
                        lemma_lex_asymmetric(self.1@, other.1@);
                    }
                    if lex_lt(other.1@, self.1@) {
                        lemma_lex_asymmetric(other.1@, self.1@);
                    }
                }
                o
            },
        }
    }

    fn duplicate(&self) -> (r: Self) {
        (self.0.clone(), self.1.clone())
    }
}

} // verus!
