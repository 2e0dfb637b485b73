//! How values and sequences of values compare.

use core::cmp::Ordering;
use vstd::prelude::*;

verus! {

/// The outcome of comparing two values.
#[derive(Clone, Copy, Debug, PartialEq, Eq, Structural)]
pub enum Rank {
    Less,
    Equal,
    Greater,
}

/// Whether `V` is totally ordered in the way that `Ord` asks of its implementers.
pub open spec fn totally_ordered<V: Ord>() -> bool {
    vstd::laws_cmp::obeys_cmp::<V>()
}

/// How two values compare.
pub open spec fn rank<V: Ord>(a: V, b: V) -> Rank {
    match vstd::std_specs::cmp::OrdSpec::cmp_spec(&a, &b) {
        Ordering::Less => Rank::Less,
        Ordering::Equal => Rank::Equal,
        Ordering::Greater => Rank::Greater,
    }
}

/// Compares two values.
pub fn compare<V: Ord>(a: &V, b: &V) -> (r: Rank)
    ensures
        totally_ordered::<V>() ==> r == rank(*a, *b),
{
    proof {
        reveal(vstd::laws_cmp::obeys_cmp_ord);
    }
    match a.cmp(b) {
        Ordering::Less => Rank::Less,
        Ordering::Equal => Rank::Equal,
        Ordering::Greater => Rank::Greater,
    }
}

/// The comparison of values is a total order, up to values that compare as equal.
pub proof fn lemma_rank<V: Ord>(a: V, b: V, c: V)
    requires
        totally_ordered::<V>(),
    ensures
        rank(a, a) == Rank::Equal,
        rank(a, b) == Rank::Less <==> rank(b, a) == Rank::Greater,
        rank(a, b) == Rank::Equal <==> rank(b, a) == Rank::Equal,
        rank(a, b) == Rank::Less && rank(b, c) == Rank::Less ==> rank(a, c) == Rank::Less,
        rank(a, b) == Rank::Equal ==> rank(a, c) == rank(b, c),
        rank(a, b) == Rank::Equal ==> rank(c, a) == rank(c, b),
{
    reveal(vstd::laws_eq::obeys_eq_spec_properties);
    reveal(vstd::laws_cmp::obeys_partial_cmp_spec_properties);
    reveal(vstd::laws_cmp::obeys_cmp_partial_ord);
    reveal(vstd::laws_cmp::obeys_cmp_ord);
}

/// Integers are totally ordered, by their size.
pub proof fn lemma_rank_of_integers()
    ensures
        totally_ordered::<isize>(),
        forall|a: isize, b: isize| #[trigger]
            rank(a, b) == (if a < b {
                Rank::Less
            } else if a == b {
                Rank::Equal
            } else {
                Rank::Greater
            }),
{
    broadcast use vstd::laws_cmp::group_laws_cmp;

}

/// Lexicographic "strictly before" on sequences of values.
pub open spec fn before<V: Ord>(a: Seq<V>, b: Seq<V>) -> bool
    decreases b.len(),
{
    if b.len() == 0 {
        false
    } else if a.len() == 0 {
        true
    } else {
        match rank(a[0], b[0]) {
            Rank::Less => true,
            Rank::Equal => before(a.skip(1), b.skip(1)),
            Rank::Greater => false,
        }
    }
}

proof fn lemma_not_before_itself<V: Ord>(a: Seq<V>)
    requires
        totally_ordered::<V>(),
    ensures
        !before(a, a),
    decreases a.len(),
{
    if a.len() > 0 {
        lemma_rank(a[0], a[0], a[0]);
        lemma_not_before_itself(a.skip(1));
    }
}

/// "Strictly before" orders sequences of values: it is irreflexive and transitive,
/// and so is its negation transitive.
pub proof fn lemma_before<V: Ord>(a: Seq<V>, b: Seq<V>, c: Seq<V>)
    requires
        totally_ordered::<V>(),
    ensures
        !before(a, a),
        before(a, b) && before(b, c) ==> before(a, c),
        !before(a, b) && !before(b, c) ==> !before(a, c),
    decreases a.len() + b.len() + c.len(),
{
    lemma_not_before_itself(a);
    if a.len() > 0 && b.len() > 0 && c.len() > 0 {
        lemma_rank(a[0], b[0], c[0]);
        lemma_rank(b[0], c[0], a[0]);
        lemma_rank(c[0], a[0], b[0]);
        lemma_rank(c[0], b[0], a[0]);
        lemma_before(a.skip(1), b.skip(1), c.skip(1));
    }
}

/// Whether two sequences of values compare as equal.
pub open spec fn same<V: Ord>(a: Seq<V>, b: Seq<V>) -> bool {
    !before(a, b) && !before(b, a)
}

proof fn lemma_same<V: Ord>(a: Seq<V>, b: Seq<V>)
    requires
        totally_ordered::<V>(),
    ensures
        same(a, b) <==> a.len() == b.len() && forall|i: int|
            0 <= i < a.len() ==> rank(#[trigger] a[i], b[i]) == Rank::Equal,
    decreases a.len(),
{
    if a.len() > 0 && b.len() > 0 {
        lemma_rank(a[0], b[0], a[0]);
        lemma_same(a.skip(1), b.skip(1));
        if rank(a[0], b[0]) == Rank::Equal {
            assert forall|i: int|
                same(a.skip(1), b.skip(1)) && a.len() == b.len() && 0 <= i < a.len() implies rank(
                #[trigger] a[i],
                b[i],
            ) == Rank::Equal by {
                if i > 0 {
                    assert(a.skip(1)[i - 1] == a[i]);
                    assert(b.skip(1)[i - 1] == b[i]);
                }
            }
        }
    }
}

/// Whether the values `a` and `b` compare as equal.
pub fn is_same<V: Ord>(a: &Vec<V>, b: &Vec<V>) -> (r: bool)
    ensures
        totally_ordered::<V>() ==> r == same(a@, b@),
{
    let r = *a == *b;
    proof {
        if totally_ordered::<V>() {
            reveal(vstd::laws_cmp::obeys_cmp_partial_ord);
            reveal(vstd::laws_cmp::obeys_cmp_ord);
            lemma_same(a@, b@);
            assert forall|i: int| 0 <= i < a@.len() implies (#[trigger] vstd::std_specs::cmp::PartialEqSpec::eq_spec(
                &a@[i],
                &b@[i],
            ) <==> rank(a@[i], b@[i]) == Rank::Equal) by {}
        }
    }
    r
}

/// Whether the values `a` come strictly before the values `b`.
pub fn is_before<V: Ord>(a: &Vec<V>, b: &Vec<V>) -> (r: bool)
    ensures
        totally_ordered::<V>() ==> r == before(a@, b@),
{
    let mut i: usize = 0;
    proof {
        assert(a@.skip(0) =~= a@);
        assert(b@.skip(0) =~= b@);
    }
    while i < a.len() && i < b.len()
        invariant
            i <= a@.len(),
            i <= b@.len(),
            totally_ordered::<V>() ==> before(a@, b@) == before(
                a@.skip(i as int),
                b@.skip(i as int),
            ),
        decreases a.len() - i,
    {
        proof {
            assert(a@.skip(i as int).skip(1) =~= a@.skip(i + 1));
            assert(b@.skip(i as int).skip(1) =~= b@.skip(i + 1));
        }
        match compare(&a[i], &b[i]) {
            Rank::Less => {
                return true;
            },
            Rank::Greater => {
                return false;
            },
            Rank::Equal => {},
        }
        i += 1;
    }
    a.len() < b.len()
}

/// Values compare as their implementation of `Ord` says, and are totally ordered if that keeps
/// what `Ord` asks for.
pub proof fn law_rank_is_that_of_ord<V: Ord>(a: V, b: V)
    ensures
        totally_ordered::<V>() <==> vstd::laws_cmp::obeys_cmp::<V>(),
        rank(a, b) == Rank::Less <==> vstd::std_specs::cmp::OrdSpec::cmp_spec(&a, &b)
            == Ordering::Less,
        rank(a, b) == Rank::Equal <==> vstd::std_specs::cmp::OrdSpec::cmp_spec(&a, &b)
            == Ordering::Equal,
        rank(a, b) == Rank::Greater <==> vstd::std_specs::cmp::OrdSpec::cmp_spec(&a, &b)
            == Ordering::Greater,
{
}

/// `k` is the first position at which `a` and `b` differ, and there `a` has the lesser value,
/// or ends.
pub open spec fn lesser_at<V: Ord>(a: Seq<V>, b: Seq<V>, k: int) -> bool {
    &&& 0 <= k <= a.len()
    &&& k < b.len()
    &&& forall|i: int| 0 <= i < k ==> rank(#[trigger] a[i], b[i]) == Rank::Equal
    &&& k < a.len() ==> rank(a[k], b[k]) == Rank::Less
}

/// `a` is the lesser one of two sequences, by the first position at which they differ.
pub open spec fn lesser<V: Ord>(a: Seq<V>, b: Seq<V>) -> bool {
    exists|k: int| #[trigger] lesser_at(a, b, k)
}

/// The first position at which two sequences differ decides which one comes before the other,
/// whatever follows that position. A sequence comes before every longer one that begins with it.
pub proof fn law_first_difference_decides<V: Ord>(a: Seq<V>, b: Seq<V>, k: int)
    requires
        totally_ordered::<V>(),
        0 <= k <= a.len(),
        k < b.len(),
        forall|i: int| 0 <= i < k ==> rank(#[trigger] a[i], b[i]) == Rank::Equal,
        k < a.len() ==> rank(a[k], b[k]) == Rank::Less,
    ensures
        before(a, b),
        !before(b, a),
    decreases k,
{
    if k == 0 {
        if a.len() > 0 {
            lemma_rank(a[0], b[0], a[0]);
        }
    } else {
        lemma_rank(a[0], b[0], a[0]);
        assert(rank(a[0], b[0]) == Rank::Equal);
        let (p, q) = (a.skip(1), b.skip(1));
        assert forall|i: int| 0 <= i < k - 1 implies rank(#[trigger] p[i], q[i]) == Rank::Equal by {
            assert(p[i] == a[i + 1]);
        }
        law_first_difference_decides(p, q, k - 1);
    }
}

/// A sequence comes before another one if and only if it is the lesser one
/// by the first position at which they differ.
pub proof fn law_before_is_lexicographic<V: Ord>(a: Seq<V>, b: Seq<V>)
    requires
        totally_ordered::<V>(),
    ensures
        before(a, b) <==> lesser(a, b),
    decreases b.len(),
{
    if lesser(a, b) {
        let k = choose|k: int| #[trigger] lesser_at(a, b, k);
        law_first_difference_decides(a, b, k);
    }
    if before(a, b) {
        if a.len() == 0 || rank(a[0], b[0]) == Rank::Less {
            assert(lesser_at(a, b, 0));
        } else {
            let (p, q) = (a.skip(1), b.skip(1));
            law_before_is_lexicographic(p, q);
            let k = choose|k: int| #[trigger] lesser_at(p, q, k);
            assert forall|i: int| 0 <= i < k + 1 implies rank(#[trigger] a[i], b[i])
                == Rank::Equal by {
                if i > 0 {
                    assert(p[i - 1] == a[i]);
                }
            }
            assert(lesser_at(a, b, k + 1));
        }
    }
}

/// Two sequences compare as equal if and only if they have the same length
/// and equal values at every position.
pub proof fn law_same_at_every_position<V: Ord>(a: Seq<V>, b: Seq<V>)
    requires
        totally_ordered::<V>(),
    ensures
        same(a, b) <==> a.len() == b.len() && forall|i: int|
            0 <= i < a.len() ==> rank(#[trigger] a[i], b[i]) == Rank::Equal,
{
    lemma_same(a, b);
}

} // verus!
