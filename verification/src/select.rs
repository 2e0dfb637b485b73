//! Picking an extreme element of an array.

use crate::order::{before, is_before, lemma_before, totally_ordered};
use crate::sort::{first_failure, keyed, keys_of};
use vstd::prelude::*;

verus! {

/// `b` is what `replace` says of replacing the element with the keys `old` by one with the keys `new`.
pub open spec fn decides<V, R: Fn(&Vec<V>, &Vec<V>) -> bool>(
    replace: R,
    old: Vec<V>,
    new: Vec<V>,
    b: bool,
) -> bool {
    call_ensures(replace, (&old, &new), b)
}

/// `w[i]` is the position that is kept after position `i`, if `w[i - 1]` was kept before it.
pub open spec fn kept_next<V, R: Fn(&Vec<V>, &Vec<V>) -> bool>(
    replace: R,
    ks: Seq<Vec<V>>,
    w: Seq<int>,
    i: int,
) -> bool {
    &&& 0 <= w[i - 1] < i
    &&& {
        ||| w[i] == i && decides(replace, ks[w[i - 1]], ks[i], true)
        ||| w[i] == w[i - 1] && decides(replace, ks[w[i - 1]], ks[i], false)
    }
}

/// `w` lists, for every element, the position of the element that is kept once it has been seen:
/// the first element at first, then the new one wherever `replace` says so.
pub open spec fn kept<V, R: Fn(&Vec<V>, &Vec<V>) -> bool>(
    replace: R,
    ks: Seq<Vec<V>>,
    w: Seq<int>,
) -> bool {
    &&& w.len() == ks.len() > 0
    &&& w[0] == 0
    &&& forall|i: int| 0 < i < w.len() ==> #[trigger] kept_next(replace, ks, w, i)
}

/// `x` is the element of `xs` that is kept in the end.
pub open spec fn picked<V, E, F: Fn(&V) -> Result<Vec<V>, E>, R: Fn(&Vec<V>, &Vec<V>) -> bool>(
    f: F,
    replace: R,
    xs: Seq<V>,
    x: V,
) -> bool {
    exists|ks: Seq<Vec<V>>, w: Seq<int>| #[trigger]
        keyed(f, xs, ks) && #[trigger] kept(replace, ks, w) && x == xs[w.last()]
}

/// The position that is kept in the end.
fn keep<V, R: Fn(&Vec<V>, &Vec<V>) -> bool>(ks: &Vec<Vec<V>>, replace: R) -> (m: usize)
    requires
        ks@.len() > 0,
        forall|a: &Vec<V>, b: &Vec<V>| #[trigger] call_requires(replace, (a, b)),
    ensures
        m < ks@.len(),
        exists|w: Seq<int>| #[trigger] kept(replace, ks@, w) && w.last() == m,
{
    let ghost mut w: Seq<int> = seq![0];
    let mut m: usize = 0;
    for i in 1..ks.len()
        invariant
            1 <= i <= ks@.len(),
            m < i,
            forall|a: &Vec<V>, b: &Vec<V>| #[trigger] call_requires(replace, (a, b)),
            kept(replace, ks@.take(i as int), w),
            w.last() == m,
    {
        let ghost old_w = w;
        let newer = replace(&ks[m], &ks[i]);
        if newer {
            m = i;
        }
        proof {
            w = w.push(m as int);
            assert(decides(replace, ks@[old_w.last()], ks@[i as int], newer));
            let part = ks@.take(i + 1);
            assert forall|j: int| 0 < j < w.len() implies #[trigger] kept_next(
                replace,
                part,
                w,
                j,
            ) by {
                if j < old_w.len() {
                    assert(kept_next(replace, ks@.take(i as int), old_w, j));
                }
            }
        }
    }
    assert(ks@.take(ks@.len() as int) =~= ks@);
    m
}

/// Get the minimum or maximum element from an array according to the given function.
pub fn cmp_by<V, E, F: Fn(&V) -> Result<Vec<V>, E>, R: Fn(&Vec<V>, &Vec<V>) -> bool>(
    xs: Vec<V>,
    f: F,
    replace: R,
) -> (r: Result<Option<V>, E>)
    requires
        forall|x: &V| #[trigger] call_requires(f, (x,)),
        forall|a: &Vec<V>, b: &Vec<V>| #[trigger] call_requires(replace, (a, b)),
    ensures
        match r {
            Ok(None) => xs@.len() == 0,
            Ok(Some(x)) => picked(f, replace, xs@, x),
            Err(e) => first_failure(f, xs@, e),
        },
{
    let mut rest = xs;
    if rest.len() == 0 {
        return Ok(None);
    }
    match keys_of(&rest, &f) {
        Ok(ks) => {
            let m = keep(&ks, replace);
            let x = rest.swap_remove(m);
            assert(picked(f, replace, xs@, x));
            Ok(Some(x))
        },
        Err(e) => Err(e),
    }
}

/// `m` is the position of the first one of the least keys.
pub open spec fn is_first_least<V: Ord>(ks: Seq<Vec<V>>, m: int) -> bool {
    &&& 0 <= m < ks.len()
    &&& forall|i: int| 0 <= i < ks.len() ==> !before((#[trigger] ks[i])@, ks[m]@)
    &&& forall|i: int| 0 <= i < m ==> before(ks[m]@, (#[trigger] ks[i])@)
}

/// `m` is the position of the last one of the greatest keys.
pub open spec fn is_last_greatest<V: Ord>(ks: Seq<Vec<V>>, m: int) -> bool {
    &&& 0 <= m < ks.len()
    &&& forall|i: int| 0 <= i < ks.len() ==> !before(ks[m]@, (#[trigger] ks[i])@)
    &&& forall|i: int| m < i < ks.len() ==> before((#[trigger] ks[i])@, ks[m]@)
}

/// `x` is the first one of the elements of `xs` for which `f` gives the least keys.
pub open spec fn least_by<V: Ord, E, F: Fn(&V) -> Result<Vec<V>, E>>(
    f: F,
    xs: Seq<V>,
    x: V,
) -> bool {
    exists|ks: Seq<Vec<V>>, m: int| #[trigger]
        keyed(f, xs, ks) && 0 <= m < xs.len() && x == #[trigger] xs[m] && (totally_ordered::<V>()
            ==> is_first_least(ks, m))
}

/// `x` is the last one of the elements of `xs` for which `f` gives the greatest keys.
pub open spec fn greatest_by<V: Ord, E, F: Fn(&V) -> Result<Vec<V>, E>>(
    f: F,
    xs: Seq<V>,
    x: V,
) -> bool {
    exists|ks: Seq<Vec<V>>, m: int| #[trigger]
        keyed(f, xs, ks) && 0 <= m < xs.len() && x == #[trigger] xs[m] && (totally_ordered::<V>()
            ==> is_last_greatest(ks, m))
}

proof fn lemma_kept_least<V: Ord, R: Fn(&Vec<V>, &Vec<V>) -> bool>(
    replace: R,
    ks: Seq<Vec<V>>,
    w: Seq<int>,
    n: int,
)
    requires
        totally_ordered::<V>(),
        kept(replace, ks, w),
        forall|a: Vec<V>, b: Vec<V>, r: bool| #[trigger]
            decides(replace, a, b, r) ==> r == before(b@, a@),
        0 < n <= ks.len(),
    ensures
        is_first_least(ks.take(n), w[n - 1]),
    decreases n,
{
    let part = ks.take(n);
    lemma_before(ks[n - 1]@, ks[n - 1]@, ks[n - 1]@);
    if n > 1 {
        lemma_kept_least(replace, ks, w, n - 1);
        assert(kept_next(replace, ks, w, n - 1));
        let old = ks.take(n - 1);
        let m = w[n - 2];
        assert forall|i: int| 0 <= i < n implies !before((#[trigger] part[i])@, part[w[n - 1]]@) by {
            if i < n - 1 {
                assert(part[i] == old[i]);
                lemma_before(ks[n - 1]@, ks[i]@, ks[m]@);
                lemma_before(ks[i]@, ks[n - 1]@, ks[m]@);
                lemma_before(ks[i]@, ks[m]@, ks[n - 1]@);
            }
        }
        assert forall|i: int| 0 <= i < w[n - 1] implies before(
            part[w[n - 1]]@,
            (#[trigger] part[i])@,
        ) by {
            assert(part[i] == old[i]);
            lemma_before(ks[n - 1]@, ks[i]@, ks[m]@);
        }
    }
}

proof fn lemma_picked_least<
    V: Ord,
    E,
    F: Fn(&V) -> Result<Vec<V>, E>,
    R: Fn(&Vec<V>, &Vec<V>) -> bool,
>(f: F, replace: R, xs: Seq<V>, x: V)
    requires
        picked(f, replace, xs, x),
        totally_ordered::<V>() ==> forall|a: Vec<V>, b: Vec<V>, r: bool| #[trigger]
            decides(replace, a, b, r) ==> r == before(b@, a@),
    ensures
        least_by(f, xs, x),
{
    let (ks, w) = choose|ks: Seq<Vec<V>>, w: Seq<int>| #[trigger]
        keyed(f, xs, ks) && #[trigger] kept(replace, ks, w) && x == xs[w.last()];
    assert(kept_next(replace, ks, w, w.len() - 1) || w.len() == 1);
    if totally_ordered::<V>() {
        lemma_kept_least(replace, ks, w, ks.len() as int);
        assert(ks.take(ks.len() as int) =~= ks);
    }
    assert(x == xs[w.last()]);
}

proof fn lemma_kept_greatest<V: Ord, R: Fn(&Vec<V>, &Vec<V>) -> bool>(
    replace: R,
    ks: Seq<Vec<V>>,
    w: Seq<int>,
    n: int,
)
    requires
        totally_ordered::<V>(),
        kept(replace, ks, w),
        forall|a: Vec<V>, b: Vec<V>, r: bool| #[trigger]
            decides(replace, a, b, r) ==> r == !before(b@, a@),
        0 < n <= ks.len(),
    ensures
        is_last_greatest(ks.take(n), w[n - 1]),
    decreases n,
{
    let part = ks.take(n);
    lemma_before(ks[n - 1]@, ks[n - 1]@, ks[n - 1]@);
    if n > 1 {
        lemma_kept_greatest(replace, ks, w, n - 1);
        assert(kept_next(replace, ks, w, n - 1));
        let old = ks.take(n - 1);
        let m = w[n - 2];
        lemma_before(ks[n - 1]@, ks[m]@, ks[n - 1]@);
        assert forall|i: int| 0 <= i < n implies !before(part[w[n - 1]]@, (#[trigger] part[i])@) by {
            if i < n - 1 {
                assert(part[i] == old[i]);
                lemma_before(ks[n - 1]@, ks[m]@, ks[i]@);
            }
        }
        assert forall|i: int| w[n - 1] < i < n implies before(
            (#[trigger] part[i])@,
            part[w[n - 1]]@,
        ) by {
            if i < n - 1 {
                assert(part[i] == old[i]);
            }
        }
    }
}

proof fn lemma_picked_greatest<
    V: Ord,
    E,
    F: Fn(&V) -> Result<Vec<V>, E>,
    R: Fn(&Vec<V>, &Vec<V>) -> bool,
>(f: F, replace: R, xs: Seq<V>, x: V)
    requires
        picked(f, replace, xs, x),
        totally_ordered::<V>() ==> forall|a: Vec<V>, b: Vec<V>, r: bool| #[trigger]
            decides(replace, a, b, r) ==> r == !before(b@, a@),
    ensures
        greatest_by(f, xs, x),
{
    let (ks, w) = choose|ks: Seq<Vec<V>>, w: Seq<int>| #[trigger]
        keyed(f, xs, ks) && #[trigger] kept(replace, ks, w) && x == xs[w.last()];
    assert(kept_next(replace, ks, w, w.len() - 1) || w.len() == 1);
    if totally_ordered::<V>() {
        lemma_kept_greatest(replace, ks, w, ks.len() as int);
        assert(ks.take(ks.len() as int) =~= ks);
    }
    assert(x == xs[w.last()]);
}

/// Get the least element of an array by the given function, the first one if there are several.
pub fn min_by_or_empty<V: Ord, E, F: Fn(&V) -> Result<Vec<V>, E>>(xs: Vec<V>, f: F) -> (r: Result<
    Option<V>,
    E,
>)
    requires
        forall|x: &V| #[trigger] call_requires(f, (x,)),
    ensures
        match r {
            Ok(None) => xs@.len() == 0,
            Ok(Some(x)) => least_by(f, xs@, x),
            Err(e) => first_failure(f, xs@, e),
        },
{
    let replace = |old: &Vec<V>, new: &Vec<V>| -> (b: bool)
        ensures
            totally_ordered::<V>() ==> b == before(new@, old@),
        { is_before(new, old) };
    let r = cmp_by(xs, f, replace);
    proof {
        if r is Ok && r->Ok_0 is Some {
            lemma_picked_least(f, replace, xs@, r->Ok_0->Some_0);
        }
    }
    r
}

/// Get the greatest element of an array by the given function, the last one if there are several.
pub fn max_by_or_empty<V: Ord, E, F: Fn(&V) -> Result<Vec<V>, E>>(xs: Vec<V>, f: F) -> (r: Result<
    Option<V>,
    E,
>)
    requires
        forall|x: &V| #[trigger] call_requires(f, (x,)),
    ensures
        match r {
            Ok(None) => xs@.len() == 0,
            Ok(Some(x)) => greatest_by(f, xs@, x),
            Err(e) => first_failure(f, xs@, e),
        },
{
    let replace = |old: &Vec<V>, new: &Vec<V>| -> (b: bool)
        ensures
            totally_ordered::<V>() ==> b == !before(new@, old@),
        { !is_before(new, old) };
    let r = cmp_by(xs, f, replace);
    proof {
        if r is Ok && r->Ok_0 is Some {
            lemma_picked_greatest(f, replace, xs@, r->Ok_0->Some_0);
        }
    }
    r
}

/// Which element is kept follows from what `replace` says: if it never replaces, the first one,
/// and if it always replaces, the last one.
pub proof fn law_kept_element_is_replaced_as_asked<
    V,
    E,
    F: Fn(&V) -> Result<Vec<V>, E>,
    R: Fn(&Vec<V>, &Vec<V>) -> bool,
>(f: F, replace: R, xs: Seq<V>, x: V)
    requires
        picked(f, replace, xs, x),
    ensures
        xs.contains(x),
        (forall|a: &Vec<V>, b: &Vec<V>, r: bool| #[trigger]
            call_ensures(replace, (a, b), r) ==> !r) ==> x == xs[0],
        (forall|a: &Vec<V>, b: &Vec<V>, r: bool| #[trigger]
            call_ensures(replace, (a, b), r) ==> r) ==> x == xs.last(),
{
    let (ks, w) = choose|ks: Seq<Vec<V>>, w: Seq<int>| #[trigger]
        keyed(f, xs, ks) && #[trigger] kept(replace, ks, w) && x == xs[w.last()];
    let n = w.len() as int;
    lemma_kept(replace, ks, w, n);
    assert(xs[w.last()] == x);
}

proof fn lemma_kept<V, R: Fn(&Vec<V>, &Vec<V>) -> bool>(
    replace: R,
    ks: Seq<Vec<V>>,
    w: Seq<int>,
    n: int,
)
    requires
        kept(replace, ks, w),
        0 < n <= w.len(),
    ensures
        0 <= w[n - 1] < n,
        (forall|a: &Vec<V>, b: &Vec<V>, r: bool| #[trigger]
            call_ensures(replace, (a, b), r) ==> !r) ==> w[n - 1] == 0,
        (forall|a: &Vec<V>, b: &Vec<V>, r: bool| #[trigger]
            call_ensures(replace, (a, b), r) ==> r) ==> w[n - 1] == n - 1,
    decreases n,
{
    if n > 1 {
        lemma_kept(replace, ks, w, n - 1);
        assert(kept_next(replace, ks, w, n - 1));
    }
}

/// The element at `m` is not replaced by any one behind it, up to `n`.
pub open spec fn stays_until<V, R: Fn(&Vec<V>, &Vec<V>) -> bool>(
    replace: R,
    ks: Seq<Vec<V>>,
    m: int,
    n: int,
) -> bool {
    forall|j: int| m < j < n ==> call_ensures(replace, (&ks[m], &#[trigger] ks[j]), false)
}

/// The element at `m` has replaced one before it.
pub open spec fn has_replaced<V, R: Fn(&Vec<V>, &Vec<V>) -> bool>(
    replace: R,
    ks: Seq<Vec<V>>,
    m: int,
) -> bool {
    exists|i: int| 0 <= i < m && call_ensures(replace, (&#[trigger] ks[i], &ks[m]), true)
}

/// An element is kept for as long as `replace` does not say to replace it by a later one:
/// the kept element was not replaced by any later one, and unless it is the first one
/// it replaced one before it.
pub proof fn law_kept_element_withstands_later_ones<
    V,
    E,
    F: Fn(&V) -> Result<Vec<V>, E>,
    R: Fn(&Vec<V>, &Vec<V>) -> bool,
>(f: F, replace: R, xs: Seq<V>, x: V)
    requires
        picked(f, replace, xs, x),
    ensures
        exists|ks: Seq<Vec<V>>, m: int| #[trigger]
            keyed(f, xs, ks) && 0 <= m < xs.len() && x == #[trigger] xs[m] && stays_until(
                replace,
                ks,
                m,
                xs.len() as int,
            ) && (m > 0 ==> has_replaced(replace, ks, m)),
{
    let (ks, w) = choose|ks: Seq<Vec<V>>, w: Seq<int>| #[trigger]
        keyed(f, xs, ks) && #[trigger] kept(replace, ks, w) && x == xs[w.last()];
    let m = w.last();
    lemma_withstands(replace, ks, w, w.len() as int);
    assert(xs[m] == x);
}

proof fn lemma_withstands<V, R: Fn(&Vec<V>, &Vec<V>) -> bool>(
    replace: R,
    ks: Seq<Vec<V>>,
    w: Seq<int>,
    n: int,
)
    requires
        kept(replace, ks, w),
        0 < n <= w.len(),
    ensures
        0 <= w[n - 1] < n,
        stays_until(replace, ks, w[n - 1], n),
        w[n - 1] > 0 ==> has_replaced(replace, ks, w[n - 1]),
    decreases n,
{
    if n > 1 {
        lemma_withstands(replace, ks, w, n - 1);
        assert(kept_next(replace, ks, w, n - 1));
        let i = w[n - 2];
        if decides(replace, ks[i], ks[n - 1], true) {
            assert(call_ensures(replace, (&ks[i], &ks[n - 1]), true));
        }
    }
}

} // verus!
