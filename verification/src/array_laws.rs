//! What the filters on arrays mean, by their names.

use crate::dispatch::{by_key_fails, run_by_key, run_plain};
use crate::filters::{core_list, lemma_named, named, Op};
use crate::order::{
    before, law_before_is_lexicographic, lesser, rank, same, totally_ordered, Rank,
};
use crate::sort::{
    arranged, comes_first, cut_at, fails_after, grouped_by, in_group, is_stable_order,
    is_stable_value_order, keyed, nested,
};
use crate::val::{Error, Type, ValR2, ValT};
use vstd::prelude::*;

verus! {

/// `e` says that an array was expected in place of `v`.
pub open spec fn wants_array<V: ValT>(v: V, e: Error<V>) -> bool {
    exists|u: V| #[trigger]
        call_ensures(V::into_seq, (v,), Err::<Vec<V>, V>(u)) && e == Error::Type(u, Type::Arr)
}

/// `v` has the elements `xs`.
pub open spec fn has_elements<V: ValT>(v: V, xs: Vec<V>) -> bool {
    call_ensures(V::into_seq, (v,), Ok::<Vec<V>, V>(xs))
}

/// `w` is an array of `ys`.
pub open spec fn made_of<V: ValT>(ys: Vec<V>, w: V) -> bool {
    call_ensures(V::from_seq, (ys,), w)
}

/// `ys` are the elements of `xs` in another order: `p[i]` is where `ys[i]` came from.
pub open spec fn moved<T>(xs: Seq<T>, p: Seq<int>, ys: Seq<T>) -> bool {
    &&& p.len() == xs.len()
    &&& ys.len() == xs.len()
    &&& forall|i: int| 0 <= i < p.len() ==> 0 <= #[trigger] p[i] < xs.len() && ys[i] == xs[p[i]]
    &&& forall|i: int, j: int| 0 <= i < j < p.len() ==> p[i] != p[j]
}

/// `f` gives `ks[i]` for every `xs[i]`.
pub open spec fn all_given<V: ValT, F: Fn(&V) -> Result<Vec<V>, Error<V>>>(
    f: F,
    xs: Seq<V>,
    ks: Seq<Vec<V>>,
) -> bool {
    &&& ks.len() == xs.len()
    &&& forall|i: int|
        0 <= i < xs.len() ==> call_ensures(f, (&xs[i],), Ok::<Vec<V>, Error<V>>(#[trigger] ks[i]))
}

/// `f` fails with `e` on an element of `xs`, and gives outputs for all elements before it.
pub open spec fn fails_first<V: ValT, F: Fn(&V) -> Result<Vec<V>, Error<V>>>(
    f: F,
    xs: Seq<V>,
    e: Error<V>,
) -> bool {
    exists|ks: Seq<Vec<V>>| #[trigger]
        all_given(f, xs.take(ks.len() as int), ks) && ks.len() < xs.len() && call_ensures(
            f,
            (&xs[ks.len() as int],),
            Err::<Vec<V>, Error<V>>(e),
        )
}

/// `p` puts the keys `ks` in order, and leaves keys that compare as equal where they were.
pub open spec fn in_order<V: Ord>(ks: Seq<Vec<V>>, p: Seq<int>) -> bool {
    forall|i: int, j: int|
        0 <= i < j < p.len() ==> lesser(ks[#[trigger] p[i]]@, ks[#[trigger] p[j]]@) || (!lesser(
            ks[p[j]]@,
            ks[p[i]]@,
        ) && p[i] < p[j])
}

proof fn lemma_moved<T>(xs: Seq<T>, p: Seq<usize>)
    requires
        crate::sort::is_permutation(p, xs.len()),
    ensures
        moved(xs, p.map_values(|x: usize| x as int), arranged(xs, p)),
{
    let q = p.map_values(|x: usize| x as int);
    assert forall|i: int| 0 <= i < q.len() implies 0 <= #[trigger] q[i] < xs.len() && arranged(
        xs,
        p,
    )[i] == xs[q[i]] by {
        assert(p[i] < xs.len());
    }
}

proof fn lemma_in_order<V: Ord>(ks: Seq<Vec<V>>, p: Seq<usize>)
    requires
        totally_ordered::<V>(),
        is_stable_order(ks, p),
    ensures
        in_order(ks, p.map_values(|x: usize| x as int)),
{
    let q = p.map_values(|x: usize| x as int);
    assert forall|i: int, j: int| 0 <= i < j < q.len() implies lesser(
        ks[#[trigger] q[i]]@,
        ks[#[trigger] q[j]]@,
    ) || (!lesser(ks[q[j]]@, ks[q[i]]@) && q[i] < q[j]) by {
        assert(comes_first(ks, p[i] as int, p[j] as int));
        law_before_is_lexicographic(ks[q[i]]@, ks[q[j]]@);
        law_before_is_lexicographic(ks[q[j]]@, ks[q[i]]@);
    }
}

/// `w` has the elements of `v` from the last one to the first one.
pub open spec fn is_reversed<V: ValT>(v: V, w: V) -> bool {
    exists|xs: Vec<V>, ys: Vec<V>| #[trigger]
        has_elements(v, xs) && #[trigger] made_of(ys, w) && ys@.len() == xs@.len() && forall|i: int|
            0 <= i < xs@.len() ==> #[trigger] ys@[i] == xs@[xs@.len() - 1 - i]
}

/// `reverse` gives an array with the elements of its input from the last one to the first one,
/// or says that its input is no array.
pub proof fn law_reverse<V: ValT + Ord>(op: Op, v: V, r: ValR2<V>)
    requires
        named(core_list(), "reverse"@, 0, op),
        call_ensures(run_plain, (op, v), r),
    ensures
        match r {
            Ok(w) => is_reversed(v, w),
            Err(e) => wants_array(v, e),
        },
{
    assert(core_list()[15].0 == "reverse"@);
    lemma_named(15, 0, op);
    match r {
        Ok(w) => {
            let (xs, ys) = choose|xs: Vec<V>, ys: Vec<V>| #[trigger]
                call_ensures(V::into_seq, (v,), Ok(xs)) && #[trigger] call_ensures(
                    V::from_seq,
                    (ys,),
                    w,
                ) && ys@ == xs@.reverse();
            assert(has_elements(v, xs) && made_of(ys, w));
        },
        Err(e) => {},
    }
}

/// `w` has the elements of `v` in order, and those that compare as equal in the order of `v`.
pub open spec fn is_sorted_array<V: ValT + Ord>(v: V, w: V) -> bool {
    exists|xs: Vec<V>, ys: Vec<V>, p: Seq<int>| #[trigger]
        has_elements(v, xs) && #[trigger] made_of(ys, w) && #[trigger] moved(xs@, p, ys@)
            && forall|i: int, j: int|
            0 <= i < j < p.len() ==> {
                ||| rank(xs@[#[trigger] p[i]], xs@[#[trigger] p[j]]) == Rank::Less
                ||| rank(xs@[p[i]], xs@[p[j]]) == Rank::Equal && p[i] < p[j]
            }
}

/// `sort` gives an array with the elements of its input in order,
/// or says that its input is no array.
pub proof fn law_sort<V: ValT + Ord>(op: Op, v: V, r: ValR2<V>)
    requires
        totally_ordered::<V>(),
        named(core_list(), "sort"@, 0, op),
        call_ensures(run_plain, (op, v), r),
    ensures
        match r {
            Ok(w) => is_sorted_array(v, w),
            Err(e) => wants_array(v, e),
        },
{
    assert(core_list()[16].0 == "sort"@);
    lemma_named(16, 0, op);
    match r {
        Ok(w) => {
            let (xs, ys) = choose|xs: Vec<V>, ys: Vec<V>| #[trigger]
                call_ensures(V::into_seq, (v,), Ok(xs)) && #[trigger] call_ensures(
                    V::from_seq,
                    (ys,),
                    w,
                ) && crate::sort::sorted(xs@, ys@);
            let p = choose|p: Seq<usize>| #[trigger]
                is_stable_value_order(xs@, p) && ys@ == arranged(xs@, p);
            let q = p.map_values(|x: usize| x as int);
            lemma_moved(xs@, p);
            assert(has_elements(v, xs) && made_of(ys, w) && moved(xs@, q, ys@));
            assert forall|i: int, j: int| 0 <= i < j < q.len() implies {
                ||| rank(xs@[#[trigger] q[i]], xs@[#[trigger] q[j]]) == Rank::Less
                ||| rank(xs@[q[i]], xs@[q[j]]) == Rank::Equal && q[i] < q[j]
            } by {
                assert(crate::sort::value_comes_first(xs@, p[i] as int, p[j] as int));
            }
        },
        Err(e) => {},
    }
}

/// `ys` are the elements of `xs` in the order of what `f` gives for them.
pub open spec fn ordered_by<V: ValT + Ord, F: Fn(&V) -> Result<Vec<V>, Error<V>>>(
    f: F,
    xs: Seq<V>,
    ys: Seq<V>,
) -> bool {
    exists|ks: Seq<Vec<V>>, p: Seq<int>| #[trigger]
        all_given(f, xs, ks) && #[trigger] moved(xs, p, ys) && in_order(ks, p)
}

/// `w` has the elements of `v` in the order of what `f` gives for them.
/// An array of fewer than two elements stays as it is.
pub open spec fn is_array_sorted_by<V: ValT + Ord, F: Fn(&V) -> Result<Vec<V>, Error<V>>>(
    v: V,
    f: F,
    w: V,
) -> bool {
    exists|xs: Vec<V>, ys: Vec<V>| #[trigger]
        has_elements(v, xs) && #[trigger] made_of(ys, w) && if xs@.len() < 2 {
            ys@ == xs@
        } else {
            ordered_by(f, xs@, ys@)
        }
}

/// `e` says that `v` is no array, or is the first error that `f` gives for an element of `v`;
/// then `v` has `n` elements or more.
pub open spec fn fails_on_array<V: ValT, F: Fn(&V) -> Result<Vec<V>, Error<V>>>(
    v: V,
    f: F,
    n: nat,
    e: Error<V>,
) -> bool {
    wants_array(v, e) || exists|xs: Vec<V>| #[trigger]
        has_elements(v, xs) && xs@.len() >= n && fails_first(f, xs@, e)
}

proof fn lemma_fails_on_array<V: ValT + Ord, F: Fn(&V) -> Result<Vec<V>, Error<V>>>(
    op: Op,
    v: V,
    f: F,
    e: Error<V>,
)
    requires
        by_key_fails(op, v, f, e),
    ensures
        fails_on_array(v, f, 0, e),
        op == Op::SortBy ==> fails_on_array(v, f, 2, e),
{
    if !wants_array(v, e) {
        let xs = choose|xs: Vec<V>| #[trigger]
            call_ensures(V::into_seq, (v,), Ok(xs)) && crate::sort::first_failure(f, xs@, e) && (op
                == Op::SortBy ==> xs@.len() >= 2);
        assert(has_elements(v, xs));
        let ks = choose|ks: Seq<Vec<V>>| #[trigger] fails_after(f, xs@, ks, e);
        assert(all_given(f, xs@.take(ks.len() as int), ks));
    }
}

/// `sort_by` gives an array with the elements of its input in the order of what the argument gives
/// for them: the first output that differs decides, and elements with equal outputs
/// stay where they were.
pub proof fn law_sort_by<V: ValT + Ord, F: Fn(&V) -> Result<Vec<V>, Error<V>>>(
    op: Op,
    v: V,
    f: F,
    r: Option<ValR2<V>>,
)
    requires
        totally_ordered::<V>(),
        named(core_list(), "sort_by"@, 1, op),
        call_ensures(run_by_key, (op, v, f), r),
    ensures
        match r {
            Some(Ok(w)) => is_array_sorted_by(v, f, w),
            Some(Err(e)) => fails_on_array(v, f, 2, e),
            None => false,
        },
{
    assert(core_list()[17].0 == "sort_by"@);
    lemma_named(17, 1, op);
    match r {
        Some(Ok(w)) => {
            let (xs, ys) = choose|xs: Vec<V>, ys: Vec<V>| #[trigger]
                call_ensures(V::into_seq, (v,), Ok(xs)) && #[trigger] call_ensures(
                    V::from_seq,
                    (ys,),
                    w,
                ) && crate::natives::sorts_to(f, xs@, ys@);
            assert(has_elements(v, xs) && made_of(ys, w));
            if xs@.len() >= 2 {
                let (ks, p) = choose|ks: Seq<Vec<V>>, p: Seq<usize>| #[trigger]
                    keyed(f, xs@, ks) && #[trigger] is_stable_order(ks, p) && ys@ == arranged(
                        xs@,
                        p,
                    );
                lemma_moved(xs@, p);
                lemma_in_order(ks, p);
                assert(all_given(f, xs@, ks));
                assert(moved(xs@, p.map_values(|x: usize| x as int), ys@));
            }
        },
        Some(Err(e)) => {
            lemma_fails_on_array(op, v, f, e);
        },
        None => {},
    }
}

/// The position `q` lies between the cuts `i` and `i + 1`.
pub open spec fn between_cuts(cs: Seq<int>, i: int, q: int) -> bool {
    0 <= i < cs.len() - 1 && cs[i] <= q < cs[i + 1]
}

/// Cutting `ys` at `cs` gives the lists `gs`, none of which is empty.
pub open spec fn is_cut<V>(ys: Seq<V>, cs: Seq<int>, gs: Seq<Vec<V>>) -> bool {
    &&& cs.len() == gs.len() + 1
    &&& cs[0] == 0
    &&& cs[gs.len() as int] == ys.len()
    &&& forall|i: int| 0 <= i < gs.len() ==> cs[i] < #[trigger] cs[i + 1]
    &&& forall|i: int| 0 <= i < gs.len() ==> (#[trigger] gs[i])@ == ys.subrange(cs[i], cs[i + 1])
}

/// Keys between the same cuts compare as equal, others do not.
pub open spec fn cuts_part_keys<V: Ord>(ks: Seq<Vec<V>>, p: Seq<int>, cs: Seq<int>) -> bool {
    forall|i: int, j: int, q: int, r: int| #[trigger]
        between_cuts(cs, i, q) && #[trigger] between_cuts(cs, j, r) ==> if i == j {
            !lesser(ks[p[q]]@, ks[p[r]]@)
        } else {
            i < j ==> lesser(ks[p[q]]@, ks[p[r]]@)
        }
}

/// `gs` are the groups of the elements of `xs` for which `f` gives equal outputs:
/// in order, and within a group in the order of `xs`.
pub open spec fn are_groups<V: ValT + Ord, F: Fn(&V) -> Result<Vec<V>, Error<V>>>(
    f: F,
    xs: Seq<V>,
    gs: Seq<Vec<V>>,
) -> bool {
    exists|ks: Seq<Vec<V>>, p: Seq<int>, ys: Seq<V>, cs: Seq<int>| #[trigger]
        all_given(f, xs, ks) && #[trigger] moved(xs, p, ys) && in_order(ks, p) && #[trigger] is_cut(
            ys,
            cs,
            gs,
        ) && cuts_part_keys(ks, p, cs)
}

/// `w` is an array of the arrays of `gs`.
pub open spec fn is_array_of_arrays<V: ValT>(gs: Seq<Vec<V>>, w: V) -> bool {
    exists|vs: Vec<V>| #[trigger]
        made_of(vs, w) && vs@.len() == gs.len() && forall|i: int|
            0 <= i < gs.len() ==> made_of(#[trigger] gs[i], vs@[i])
}

/// `w` is the array of the groups of the elements of `v` for which `f` gives equal outputs.
pub open spec fn is_array_of_groups<V: ValT + Ord, F: Fn(&V) -> Result<Vec<V>, Error<V>>>(
    v: V,
    f: F,
    w: V,
) -> bool {
    exists|xs: Vec<V>, gs: Seq<Vec<V>>| #[trigger]
        has_elements(v, xs) && #[trigger] are_groups(f, xs@, gs) && is_array_of_arrays(gs, w)
}

proof fn lemma_same_or_lesser<V: Ord>(a: Seq<V>, b: Seq<V>, c: Seq<V>)
    requires
        totally_ordered::<V>(),
    ensures
        same(a, b) && same(a, c) ==> !lesser(b, c),
        same(a, b) && same(c, b) ==> !lesser(a, c),
        before(a, b) && same(a, c) ==> lesser(c, b),
        before(a, b) && same(b, c) ==> lesser(a, c),
        before(a, b) <==> lesser(a, b),
{
    crate::order::lemma_before(b, a, c);
    crate::order::lemma_before(a, b, c);
    crate::order::lemma_before(c, a, b);
    crate::order::lemma_before(a, c, b);
    crate::order::lemma_before(c, b, a);
    crate::order::lemma_before(b, c, a);
    law_before_is_lexicographic(b, c);
    law_before_is_lexicographic(a, c);
    law_before_is_lexicographic(c, b);
    law_before_is_lexicographic(a, b);
}

proof fn lemma_cuts_part_keys<V: Ord>(ks: Seq<Vec<V>>, p: Seq<usize>, cs: Seq<usize>)
    requires
        totally_ordered::<V>(),
        p.len() == ks.len(),
        forall|i: int| 0 <= i < p.len() ==> (#[trigger] p[i]) < ks.len(),
        crate::sort::are_cuts(cs, ks.len()),
        crate::sort::keys_grow_at(arranged(ks, p), cs),
    ensures
        cuts_part_keys(
            ks,
            p.map_values(|x: usize| x as int),
            cs.map_values(|x: usize| x as int),
        ),
{
    let (q, ds) = (p.map_values(|x: usize| x as int), cs.map_values(|x: usize| x as int));
    let sk = arranged(ks, p);
    assert forall|i: int, j: int, a: int, b: int| #[trigger]
        between_cuts(ds, i, a) && #[trigger] between_cuts(ds, j, b) implies if i == j {
        !lesser(ks[q[a]]@, ks[q[b]]@)
    } else {
        i < j ==> lesser(ks[q[a]]@, ks[q[b]]@)
    } by {
        assert(in_group(cs, i, a));
        assert(in_group(cs, j, b));
        assert(cs[i + 1] <= cs[cs.len() - 1]);
        assert(cs[j + 1] <= cs[cs.len() - 1]);
        assert(sk[a] == ks[q[a]] && sk[b] == ks[q[b]]);
        let (x, y) = (sk[cs[i] as int]@, sk[cs[j] as int]@);
        assert(same(x, sk[a]@) && same(y, sk[b]@));
        if i == j {
            lemma_same_or_lesser(x, sk[a]@, sk[b]@);
        } else if i < j {
            assert(before(x, y));
            lemma_same_or_lesser(x, y, sk[a]@);
            law_before_is_lexicographic(sk[a]@, y);
            lemma_same_or_lesser(sk[a]@, y, sk[b]@);
        }
    }
}

/// `group_by` gives the array of the groups of elements for which the argument gives equal outputs.
/// The groups are in the order of these outputs, none is empty, and within a group
/// the elements are in the order of the input.
pub proof fn law_group_by<V: ValT + Ord, F: Fn(&V) -> Result<Vec<V>, Error<V>>>(
    op: Op,
    v: V,
    f: F,
    r: Option<ValR2<V>>,
)
    requires
        totally_ordered::<V>(),
        named(core_list(), "group_by"@, 1, op),
        call_ensures(run_by_key, (op, v, f), r),
    ensures
        match r {
            Some(Ok(w)) => is_array_of_groups(v, f, w),
            Some(Err(e)) => fails_on_array(v, f, 0, e),
            None => false,
        },
{
    assert(core_list()[18].0 == "group_by"@);
    lemma_named(18, 1, op);
    match r {
        Some(Ok(w)) => {
            let xs = choose|xs: Vec<V>| #[trigger]
                call_ensures(V::into_seq, (v,), Ok(xs)) && crate::sort::group_array(f, xs@, w);
            assert(has_elements(v, xs));
            let gs = choose|gs: Seq<Vec<V>>| #[trigger] grouped_by(f, xs@, gs) && nested(gs, w);
            let (ks, p, cs) = choose|ks: Seq<Vec<V>>, p: Seq<usize>, cs: Seq<usize>| #[trigger]
                keyed(f, xs@, ks) && #[trigger] is_stable_order(ks, p) && #[trigger] cut_at(
                    arranged(xs@, p),
                    cs,
                    gs,
                ) && (totally_ordered::<V>() ==> crate::sort::keys_grow_at(arranged(ks, p), cs));
            let ys = arranged(xs@, p);
            let (q, ds) = (p.map_values(|x: usize| x as int), cs.map_values(|x: usize| x as int));
            lemma_moved(xs@, p);
            lemma_in_order(ks, p);
            assert(all_given(f, xs@, ks));
            assert(moved(xs@, q, ys));
            assert(is_cut(ys, ds, gs));
            lemma_cuts_part_keys(ks, p, cs);
            assert(are_groups(f, xs@, gs));
            let vs = choose|vs: Vec<V>| #[trigger]
                call_ensures(V::from_seq, (vs,), w) && vs@.len() == gs.len() && forall|i: int|
                    0 <= i < gs.len() ==> call_ensures(V::from_seq, (gs[i],), #[trigger] vs@[i]);
            assert(made_of(vs, w));
            assert forall|i: int| 0 <= i < gs.len() implies made_of(#[trigger] gs[i], vs@[i]) by {
                let _ = vs@[i];
            }
            assert(is_array_of_arrays(gs, w));
        },
        Some(Err(e)) => {
            lemma_fails_on_array(op, v, f, e);
        },
        None => {},
    }
}

/// `v` is an array without elements.
pub open spec fn is_empty_array<V: ValT>(v: V) -> bool {
    exists|xs: Vec<V>| #[trigger] has_elements(v, xs) && xs@.len() == 0
}

/// `w` is the element of `v` for which `f` gives the least outputs,
/// the first one if there are several.
pub open spec fn is_first_least_of<V: ValT + Ord, F: Fn(&V) -> Result<Vec<V>, Error<V>>>(
    v: V,
    f: F,
    w: V,
) -> bool {
    exists|xs: Vec<V>, ks: Seq<Vec<V>>, m: int| #[trigger]
        has_elements(v, xs) && #[trigger] all_given(f, xs@, ks) && 0 <= m < xs@.len() && w
            == #[trigger] xs@[m] && forall|i: int|
            0 <= i < ks.len() && i != m ==> !lesser((#[trigger] ks[i])@, ks[m]@) && (i < m
                ==> lesser(ks[m]@, ks[i]@))
}

/// `w` is the element of `v` for which `f` gives the greatest outputs,
/// the last one if there are several.
pub open spec fn is_last_greatest_of<V: ValT + Ord, F: Fn(&V) -> Result<Vec<V>, Error<V>>>(
    v: V,
    f: F,
    w: V,
) -> bool {
    exists|xs: Vec<V>, ks: Seq<Vec<V>>, m: int| #[trigger]
        has_elements(v, xs) && #[trigger] all_given(f, xs@, ks) && 0 <= m < xs@.len() && w
            == #[trigger] xs@[m] && forall|i: int|
            0 <= i < ks.len() && i != m ==> !lesser(ks[m]@, (#[trigger] ks[i])@) && (i > m
                ==> lesser(ks[i]@, ks[m]@))
}

/// `min_by_or_empty` gives the element for which the argument gives the least outputs,
/// the first one if there are several, and nothing if there are no elements.
pub proof fn law_min_by_or_empty<V: ValT + Ord, F: Fn(&V) -> Result<Vec<V>, Error<V>>>(
    op: Op,
    v: V,
    f: F,
    r: Option<ValR2<V>>,
)
    requires
        totally_ordered::<V>(),
        named(core_list(), "min_by_or_empty"@, 1, op),
        call_ensures(run_by_key, (op, v, f), r),
    ensures
        match r {
            Some(Ok(w)) => is_first_least_of(v, f, w),
            Some(Err(e)) => fails_on_array(v, f, 0, e),
            None => is_empty_array(v),
        },
{
    assert(core_list()[19].0 == "min_by_or_empty"@);
    lemma_named(19, 1, op);
    match r {
        Some(Ok(w)) => {
            let xs = choose|xs: Vec<V>| #[trigger]
                call_ensures(V::into_seq, (v,), Ok(xs)) && crate::select::least_by(f, xs@, w);
            let (ks, m) = choose|ks: Seq<Vec<V>>, m: int| #[trigger]
                keyed(f, xs@, ks) && 0 <= m < xs@.len() && w == #[trigger] xs@[m]
                    && crate::select::is_first_least(ks, m);
            assert(has_elements(v, xs));
            assert(all_given(f, xs@, ks));
            assert forall|i: int| 0 <= i < ks.len() && i != m implies !lesser(
                (#[trigger] ks[i])@,
                ks[m]@,
            ) && (i < m ==> lesser(ks[m]@, ks[i]@)) by {
                law_before_is_lexicographic(ks[i]@, ks[m]@);
                law_before_is_lexicographic(ks[m]@, ks[i]@);
            }
        },
        Some(Err(e)) => {
            lemma_fails_on_array(op, v, f, e);
        },
        None => {
            let xs = choose|xs: Vec<V>| #[trigger]
                call_ensures(V::into_seq, (v,), Ok(xs)) && xs@.len() == 0;
            assert(has_elements(v, xs));
        },
    }
}

/// `max_by_or_empty` gives the element for which the argument gives the greatest outputs,
/// the last one if there are several, and nothing if there are no elements.
pub proof fn law_max_by_or_empty<V: ValT + Ord, F: Fn(&V) -> Result<Vec<V>, Error<V>>>(
    op: Op,
    v: V,
    f: F,
    r: Option<ValR2<V>>,
)
    requires
        totally_ordered::<V>(),
        named(core_list(), "max_by_or_empty"@, 1, op),
        call_ensures(run_by_key, (op, v, f), r),
    ensures
        match r {
            Some(Ok(w)) => is_last_greatest_of(v, f, w),
            Some(Err(e)) => fails_on_array(v, f, 0, e),
            None => is_empty_array(v),
        },
{
    assert(core_list()[20].0 == "max_by_or_empty"@);
    lemma_named(20, 1, op);
    match r {
        Some(Ok(w)) => {
            let xs = choose|xs: Vec<V>| #[trigger]
                call_ensures(V::into_seq, (v,), Ok(xs)) && crate::select::greatest_by(f, xs@, w);
            let (ks, m) = choose|ks: Seq<Vec<V>>, m: int| #[trigger]
                keyed(f, xs@, ks) && 0 <= m < xs@.len() && w == #[trigger] xs@[m]
                    && crate::select::is_last_greatest(ks, m);
            assert(has_elements(v, xs));
            assert(all_given(f, xs@, ks));
            assert forall|i: int| 0 <= i < ks.len() && i != m implies !lesser(
                ks[m]@,
                (#[trigger] ks[i])@,
            ) && (i > m ==> lesser(ks[i]@, ks[m]@)) by {
                law_before_is_lexicographic(ks[i]@, ks[m]@);
                law_before_is_lexicographic(ks[m]@, ks[i]@);
            }
        },
        Some(Err(e)) => {
            lemma_fails_on_array(op, v, f, e);
        },
        None => {
            let xs = choose|xs: Vec<V>| #[trigger]
                call_ensures(V::into_seq, (v,), Ok(xs)) && xs@.len() == 0;
            assert(has_elements(v, xs));
        },
    }
}

} // verus!
