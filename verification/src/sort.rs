//! Sorting and grouping by keys.

use crate::order::{
    before, compare, is_before, is_same, lemma_before, lemma_rank, rank, same, totally_ordered, Rank,
};
use crate::val::{Error, ValR2, ValT};
use vstd::prelude::*;

verus! {

/// Something that elements can be sorted by.
pub(crate) trait Key: Sized {
    /// "strictly before"
    spec fn less(a: Self, b: Self) -> bool;

    /// Whether "strictly before" is known to order the keys.
    spec fn lawful() -> bool;

    /// Whether `self` comes strictly before `other`.
    fn is_less(&self, other: &Self) -> (r: bool)
        ensures
            Self::lawful() ==> r == Self::less(*self, *other),
    ;

    proof fn lemma_less(a: Self, b: Self, c: Self)
        requires
            Self::lawful(),
        ensures
            !Self::less(a, a),
            Self::less(a, b) && Self::less(b, c) ==> Self::less(a, c),
            !Self::less(a, b) && !Self::less(b, c) ==> !Self::less(a, c),
    ;
}

/// A value that is its own key.
pub(crate) struct Single<V>(pub V);

impl<V: Ord> Key for Single<V> {
    open spec fn less(a: Self, b: Self) -> bool {
        rank(a.0, b.0) == Rank::Less
    }

    open spec fn lawful() -> bool {
        totally_ordered::<V>()
    }

    fn is_less(&self, other: &Self) -> bool {
        compare(&self.0, &other.0) == Rank::Less
    }

    proof fn lemma_less(a: Self, b: Self, c: Self) {
        lemma_rank(a.0, b.0, c.0);
        lemma_rank(b.0, c.0, a.0);
        lemma_rank(c.0, a.0, b.0);
        lemma_rank(c.0, b.0, a.0);
    }
}

impl<V: Ord> Key for Vec<V> {
    open spec fn less(a: Self, b: Self) -> bool {
        before(a@, b@)
    }

    open spec fn lawful() -> bool {
        totally_ordered::<V>()
    }

    fn is_less(&self, other: &Self) -> bool {
        is_before(self, other)
    }

    proof fn lemma_less(a: Self, b: Self, c: Self) {
        lemma_before(a@, b@, c@);
    }
}

/// `p` lists every index below `n` once.
pub open spec fn is_permutation(p: Seq<usize>, n: nat) -> bool {
    &&& p.len() == n
    &&& forall|i: int| 0 <= i < n ==> (#[trigger] p[i]) < n
    &&& forall|i: int, j: int| 0 <= i < j < n ==> p[i] != p[j]
}

/// Position `i` precedes position `j` in a stable sort by `keys`.
spec fn precedes<K: Key>(keys: Seq<K>, i: int, j: int) -> bool {
    K::less(keys[i], keys[j]) || (!K::less(keys[j], keys[i]) && i < j)
}

spec fn stably_sorted<K: Key>(keys: Seq<K>, p: Seq<usize>) -> bool {
    forall|i: int, j: int|
        0 <= i < j < p.len() ==> precedes(keys, #[trigger] p[i] as int, #[trigger] p[j] as int)
}

spec fn within(p: Seq<usize>, lo: int, hi: int) -> bool {
    forall|i: int| 0 <= i < p.len() ==> lo <= #[trigger] p[i] < hi
}

spec fn distinct(p: Seq<usize>) -> bool {
    forall|i: int, j: int| 0 <= i < j < p.len() ==> p[i] != p[j]
}

/// Merges two sorted lists of positions, all those of `left` being below those of `right`.
fn merge<K: Key>(
    keys: &Vec<K>,
    left: &Vec<usize>,
    right: &Vec<usize>,
    Ghost(lo): Ghost<int>,
    Ghost(mid): Ghost<int>,
    Ghost(hi): Ghost<int>,
) -> (out: Vec<usize>)
    requires
        0 <= lo <= mid <= hi <= keys@.len(),
        left@.len() == mid - lo,
        right@.len() == hi - mid,
        within(left@, lo, mid),
        within(right@, mid, hi),
        distinct(left@),
        distinct(right@),
        K::lawful() ==> stably_sorted(keys@, left@) && stably_sorted(keys@, right@),
    ensures
        out@.len() == hi - lo,
        within(out@, lo, hi),
        distinct(out@),
        K::lawful() ==> stably_sorted(keys@, out@),
{
    let mut out: Vec<usize> = Vec::with_capacity(left.len());
    let mut l: usize = 0;
    let mut r: usize = 0;
    while l < left.len() || r < right.len()
        invariant
            0 <= lo <= mid <= hi <= keys@.len(),
            left@.len() == mid - lo,
            right@.len() == hi - mid,
            within(left@, lo, mid),
            within(right@, mid, hi),
            distinct(left@),
            distinct(right@),
            K::lawful() ==> stably_sorted(keys@, left@) && stably_sorted(keys@, right@),
            l <= left@.len(),
            r <= right@.len(),
            out@.len() == l + r,
            within(out@, lo, hi),
            distinct(out@),
            forall|k: int, i: int|
                0 <= k < out@.len() && l <= i < left@.len() ==> out@[k] != left@[i],
            forall|k: int, i: int|
                0 <= k < out@.len() && r <= i < right@.len() ==> out@[k] != right@[i],
            K::lawful() ==> stably_sorted(keys@, out@),
            K::lawful() ==> forall|k: int, i: int|
                0 <= k < out@.len() && l <= i < left@.len() ==> precedes(
                    keys@,
                    #[trigger] out@[k] as int,
                    #[trigger] left@[i] as int,
                ),
            K::lawful() ==> forall|k: int, i: int|
                0 <= k < out@.len() && r <= i < right@.len() ==> precedes(
                    keys@,
                    #[trigger] out@[k] as int,
                    #[trigger] right@[i] as int,
                ),
        decreases left.len() - l + right.len() - r,
    {
        let from_left = if l == left.len() {
            false
        } else if r == right.len() {
            true
        } else {
            !keys[right[r]].is_less(&keys[left[l]])
        };
        if from_left {
            let next: usize = left[l];
            proof {
                if K::lawful() && r < right@.len() {
                    assert forall|i: int| r <= i < right@.len() implies precedes(
                        keys@,
                        next as int,
                        #[trigger] right@[i] as int,
                    ) by {
                        let a = keys@[right@[i] as int];
                        let b = keys@[right@[r as int] as int];
                        K::lemma_less(a, b, keys@[next as int]);
                        K::lemma_less(b, a, b);
                    }
                }
            }
            out.push(next);
            l += 1;
        } else {
            let next: usize = right[r];
            proof {
                if K::lawful() && l < left@.len() {
                    assert forall|i: int| l <= i < left@.len() implies precedes(
                        keys@,
                        next as int,
                        #[trigger] left@[i] as int,
                    ) by {
                        let a = keys@[left@[i] as int];
                        let b = keys@[left@[l as int] as int];
                        K::lemma_less(keys@[next as int], a, b);
                        K::lemma_less(b, a, b);
                    }
                }
            }
            out.push(next);
            r += 1;
        }
    }
    out
}

/// The positions from `lo` to `hi`, sorted by their keys.
fn sorted_range<K: Key>(keys: &Vec<K>, lo: usize, hi: usize) -> (p: Vec<usize>)
    requires
        lo <= hi <= keys@.len(),
    ensures
        p@.len() == hi - lo,
        within(p@, lo as int, hi as int),
        distinct(p@),
        K::lawful() ==> stably_sorted(keys@, p@),
    decreases hi - lo,
{
    let mut p: Vec<usize> = Vec::new();
    if lo == hi {
        p
    } else if lo + 1 == hi {
        p.push(lo);
        p
    } else {
        let mid: usize = lo + (hi - lo) / 2;
        let left = sorted_range(keys, lo, mid);
        let right = sorted_range(keys, mid, hi);
        merge(keys, &left, &right, Ghost(lo as int), Ghost(mid as int), Ghost(hi as int))
    }
}

/// The positions of `keys` in the order in which a stable sort puts them.
fn sorted_positions<K: Key>(keys: &Vec<K>) -> (p: Vec<usize>)
    ensures
        is_permutation(p@, keys@.len()),
        K::lawful() ==> stably_sorted(keys@, p@),
{
    sorted_range(keys, 0, keys.len())
}

/// The elements of `xs` in the order that `p` gives.
pub open spec fn arranged<T>(xs: Seq<T>, p: Seq<usize>) -> Seq<T> {
    Seq::new(p.len(), |i: int| xs[p[i] as int])
}

fn arrange<T>(xs: Vec<T>, p: &Vec<usize>) -> (out: Vec<T>)
    requires
        is_permutation(p@, xs@.len()),
    ensures
        out@ == arranged(xs@, p@),
{
    let ghost all = xs@;
    let mut slots: Vec<Option<T>> = Vec::with_capacity(xs.len());
    for x in it: xs
        invariant
            it.seq() == all,
            slots@.len() == it.index(),
            forall|i: int| 0 <= i < slots@.len() ==> slots@[i] == Some(all[i]),
    {
        slots.push(Some(x));
    }
    let mut out: Vec<T> = Vec::with_capacity(p.len());
    for i in 0..p.len()
        invariant
            is_permutation(p@, all.len()),
            slots@.len() == all.len(),
            out@ == arranged(all, p@.take(i as int)),
            forall|j: int|
                0 <= j < all.len() && (forall|k: int| 0 <= k < i ==> p@[k] != j) ==> slots@[j]
                    == Some(all[j]),
    {
        let at: usize = p[i];
        match slots[at].take() {
            Some(x) => {
                out.push(x);
            },
            None => {},
        }
        assert(arranged(all, p@.take(i + 1)) =~= arranged(all, p@.take(i as int)).push(
            all[at as int],
        ));
    }
    assert(p@.take(p@.len() as int) =~= p@);
    out
}

/// `ks` lists what `f` gives for the elements of `xs`.
pub open spec fn keyed<V, K, E, F: Fn(&V) -> Result<K, E>>(f: F, xs: Seq<V>, ks: Seq<K>) -> bool {
    &&& ks.len() == xs.len()
    &&& forall|i: int|
        0 <= i < xs.len() ==> call_ensures(f, (&xs[i],), Ok::<K, E>(#[trigger] ks[i]))
}

/// `f` fails with `e` on an element of `xs`, after it has given `ks` for all elements before it.
pub open spec fn fails_after<V, K, E, F: Fn(&V) -> Result<K, E>>(
    f: F,
    xs: Seq<V>,
    ks: Seq<K>,
    e: E,
) -> bool {
    &&& ks.len() < xs.len()
    &&& keyed(f, xs.take(ks.len() as int), ks)
    &&& call_ensures(f, (&xs[ks.len() as int],), Err::<K, E>(e))
}

/// `f` fails with `e` on an element of `xs`, and on none before it.
pub open spec fn first_failure<V, K, E, F: Fn(&V) -> Result<K, E>>(f: F, xs: Seq<V>, e: E) -> bool {
    exists|ks: Seq<K>| #[trigger] fails_after(f, xs, ks, e)
}

/// Runs `f` on every element in turn, up to its first failure.
pub fn keys_of<V, K, E, F: Fn(&V) -> Result<K, E>>(xs: &Vec<V>, f: &F) -> (r: Result<Vec<K>, E>)
    requires
        forall|x: &V| #[trigger] call_requires(*f, (x,)),
    ensures
        match r {
            Ok(ks) => keyed(*f, xs@, ks@),
            Err(e) => first_failure(*f, xs@, e),
        },
{
    let mut ks: Vec<K> = Vec::with_capacity(xs.len());
    for i in 0..xs.len()
        invariant
            forall|x: &V| #[trigger] call_requires(*f, (x,)),
            keyed(*f, xs@.take(i as int), ks@),
    {
        match f(&xs[i]) {
            Ok(k) => {
                ks.push(k);
            },
            Err(e) => {
                let ghost done = ks@;
                assert(fails_after(*f, xs@, done, e));
                assert(first_failure(*f, xs@, e));
                return Err(e);
            },
        }
    }
    assert(xs@.take(xs@.len() as int) =~= xs@);
    Ok(ks)
}

/// Position `i` precedes position `j` in a stable sort by the keys `ks`.
pub open spec fn comes_first<V: Ord>(ks: Seq<Vec<V>>, i: int, j: int) -> bool {
    before(ks[i]@, ks[j]@) || (!before(ks[j]@, ks[i]@) && i < j)
}

/// `p` lists the positions of `ks` in the order in which a stable sort puts them.
pub open spec fn is_stable_order<V: Ord>(ks: Seq<Vec<V>>, p: Seq<usize>) -> bool {
    &&& is_permutation(p, ks.len())
    &&& totally_ordered::<V>() ==> forall|i: int, j: int|
        0 <= i < j < p.len() ==> comes_first(ks, #[trigger] p[i] as int, #[trigger] p[j] as int)
}

/// The positions of `ks` in the order in which a stable sort puts them.
fn stable_order<V: Ord>(ks: &Vec<Vec<V>>) -> (p: Vec<usize>)
    ensures
        is_stable_order(ks@, p@),
{
    let p = sorted_positions(ks);
    proof {
        if totally_ordered::<V>() {
            assert forall|i: int, j: int| 0 <= i < j < p@.len() implies comes_first(
                ks@,
                #[trigger] p@[i] as int,
                #[trigger] p@[j] as int,
            ) by {
                assert(precedes(ks@, p@[i] as int, p@[j] as int));
            }
        }
    }
    p
}

/// Position `i` precedes position `j` in a stable sort of the values `xs`.
pub open spec fn value_comes_first<V: Ord>(xs: Seq<V>, i: int, j: int) -> bool {
    match rank(xs[i], xs[j]) {
        Rank::Less => true,
        Rank::Equal => i < j,
        Rank::Greater => false,
    }
}

/// `p` lists the positions of `xs` in the order in which a stable sort of its values puts them.
pub open spec fn is_stable_value_order<V: Ord>(xs: Seq<V>, p: Seq<usize>) -> bool {
    &&& is_permutation(p, xs.len())
    &&& totally_ordered::<V>() ==> forall|i: int, j: int|
        0 <= i < j < p.len() ==> value_comes_first(
            xs,
            #[trigger] p[i] as int,
            #[trigger] p[j] as int,
        )
}

/// `ys` holds the values `xs`, sorted.
pub open spec fn sorted<V: Ord>(xs: Seq<V>, ys: Seq<V>) -> bool {
    exists|p: Seq<usize>| #[trigger] is_stable_value_order(xs, p) && ys == arranged(xs, p)
}

/// Sort an array.
pub fn sort<V: Ord>(xs: Vec<V>) -> (ys: Vec<V>)
    ensures
        sorted(xs@, ys@),
{
    let ghost all = xs@;
    let mut keys: Vec<Single<V>> = Vec::with_capacity(xs.len());
    for x in it: xs
        invariant
            it.seq() == all,
            keys@.len() == it.index(),
            forall|i: int| 0 <= i < keys@.len() ==> keys@[i].0 == all[i],
    {
        keys.push(Single(x));
    }
    let ghost singles = keys@;
    let p = sorted_positions(&keys);
    let sorted = arrange(keys, &p);
    let ghost arr = sorted@;
    let mut ys: Vec<V> = Vec::with_capacity(sorted.len());
    for x in it: sorted
        invariant
            it.seq() == arr,
            ys@.len() == it.index(),
            forall|i: int| 0 <= i < ys@.len() ==> ys@[i] == arr[i].0,
    {
        ys.push(x.0);
    }
    proof {
        assert(ys@ =~= arranged(all, p@));
        assert(is_permutation(p@, all.len()));
        if totally_ordered::<V>() {
            assert forall|i: int, j: int| 0 <= i < j < p@.len() implies value_comes_first(
                all,
                #[trigger] p@[i] as int,
                #[trigger] p@[j] as int,
            ) by {
                assert(precedes(singles, p@[i] as int, p@[j] as int));
                lemma_rank(all[p@[i] as int], all[p@[j] as int], all[p@[i] as int]);
            }
        }
        assert(is_stable_value_order(all, p@));
    }
    ys
}

/// `ys` holds the elements of `xs`, sorted by the keys that `f` gives for them.
pub open spec fn sorted_by<V: Ord, E, F: Fn(&V) -> Result<Vec<V>, E>>(
    f: F,
    xs: Seq<V>,
    ys: Seq<V>,
) -> bool {
    exists|ks: Seq<Vec<V>>, p: Seq<usize>| #[trigger]
        keyed(f, xs, ks) && #[trigger] is_stable_order(ks, p) && ys == arranged(xs, p)
}

/// Sort array by the given function.
///
/// An array of fewer than two elements is sorted already, so `f` is not run on it.
pub fn sort_by<V: Ord, E, F: Fn(&V) -> Result<Vec<V>, E>>(xs: Vec<V>, f: F) -> (r: Result<
    Vec<V>,
    E,
>)
    requires
        forall|x: &V| #[trigger] call_requires(f, (x,)),
    ensures
        xs@.len() < 2 ==> (r matches Ok(ys) && ys@ == xs@),
        xs@.len() >= 2 ==> match r {
            Ok(ys) => sorted_by(f, xs@, ys@),
            Err(e) => first_failure(f, xs@, e),
        },
{
    if xs.len() < 2 {
        return Ok(xs);
    }
    match keys_of(&xs, &f) {
        Ok(ks) => {
            let p = stable_order(&ks);
            let ys = arrange(xs, &p);
            assert(sorted_by(f, xs@, ys@));
            Ok(ys)
        },
        Err(e) => Err(e),
    }
}

/// Cutting `ys` at the positions `cs` gives the groups `gs`, none of which is empty.
pub open spec fn cut_at<V>(ys: Seq<V>, cs: Seq<usize>, gs: Seq<Vec<V>>) -> bool {
    &&& are_cuts(cs, ys.len())
    &&& gs.len() == cs.len() - 1
    &&& forall|i: int|
        0 <= i < gs.len() ==> (#[trigger] gs[i])@ == ys.subrange(cs[i] as int, cs[i + 1] as int)
}

/// `cs` increases from 0 to `n`.
pub open spec fn are_cuts(cs: Seq<usize>, n: nat) -> bool {
    &&& cs.len() > 0
    &&& cs[0] == 0
    &&& cs.last() == n
    &&& forall|i: int, j: int| 0 <= i < j < cs.len() ==> cs[i] < cs[j]
}

/// The position `q` lies in the group that starts at the cut `i`.
pub open spec fn in_group(cs: Seq<usize>, i: int, q: int) -> bool {
    cs[i] <= q < cs[i + 1]
}

/// From one position of `cs` to the next, the keys `ks` are the same,
/// and they increase at each position.
pub open spec fn keys_grow_at<V: Ord>(ks: Seq<Vec<V>>, cs: Seq<usize>) -> bool {
    &&& forall|i: int, q: int|
        0 <= i < cs.len() - 1 && #[trigger] in_group(cs, i, q) ==> same(ks[cs[i] as int]@, ks[q]@)
    &&& forall|i: int, j: int|
        0 <= i < j < cs.len() - 1 ==> before(
            ks[(#[trigger] cs[i]) as int]@,
            ks[(#[trigger] cs[j]) as int]@,
        )
}

/// `gs` holds the elements of `xs`, sorted by the keys that `f` gives for them
/// and cut wherever the key changes.
pub open spec fn grouped_by<V: Ord, E, F: Fn(&V) -> Result<Vec<V>, E>>(
    f: F,
    xs: Seq<V>,
    gs: Seq<Vec<V>>,
) -> bool {
    exists|ks: Seq<Vec<V>>, p: Seq<usize>, cs: Seq<usize>| #[trigger]
        keyed(f, xs, ks) && #[trigger] is_stable_order(ks, p) && #[trigger] cut_at(
            arranged(xs, p),
            cs,
            gs,
        ) && (totally_ordered::<V>() ==> keys_grow_at(arranged(ks, p), cs))
}

proof fn lemma_next_cut<V: Ord>(sk: Seq<Vec<V>>, cs: Seq<usize>, i: usize)
    requires
        totally_ordered::<V>(),
        i < sk.len() <= usize::MAX,
        cs.len() > 0,
        cs.last() < i,
        forall|g: int, h: int| 0 <= g < h < cs.len() ==> cs[g] < cs[h],
        keys_grow_at(sk, cs.push(i)),
    ensures
        same(sk[cs.last() as int]@, sk[i as int]@) ==> keys_grow_at(sk, cs.push((i + 1) as usize)),
        before(sk[cs.last() as int]@, sk[i as int]@) ==> keys_grow_at(
            sk,
            cs.push(i).push((i + 1) as usize),
        ),
{
    let was = cs.push(i);
    let last = cs.len() - 1;
    assert(was[last] == cs.last());
    lemma_before(sk[i as int]@, sk[i as int]@, sk[i as int]@);
    if same(sk[cs.last() as int]@, sk[i as int]@) {
        let now = cs.push((i + 1) as usize);
        assert forall|g: int, q: int|
            0 <= g < now.len() - 1 && #[trigger] in_group(now, g, q) implies same(
            sk[now[g] as int]@,
            sk[q]@,
        ) by {
            if q < i {
                assert(in_group(was, g, q));
            } else {
                assert(g == last);
            }
        }
        assert forall|g: int, h: int| 0 <= g < h < now.len() - 1 implies before(
            sk[(#[trigger] now[g]) as int]@,
            sk[(#[trigger] now[h]) as int]@,
        ) by {
            assert(was[g] == now[g] && was[h] == now[h]);
        }
    }
    if before(sk[cs.last() as int]@, sk[i as int]@) {
        let now = was.push((i + 1) as usize);
        assert forall|g: int, q: int|
            0 <= g < now.len() - 1 && #[trigger] in_group(now, g, q) implies same(
            sk[now[g] as int]@,
            sk[q]@,
        ) by {
            if g <= last {
                assert(in_group(was, g, q));
            }
        }
        assert forall|g: int, h: int| 0 <= g < h < now.len() - 1 implies before(
            sk[(#[trigger] now[g]) as int]@,
            sk[(#[trigger] now[h]) as int]@,
        ) by {
            assert(was[g] == now[g] && was[h] == now[h]);
            if h == last + 1 && g < last {
                assert(before(sk[was[g] as int]@, sk[was[last] as int]@));
                lemma_before(sk[was[g] as int]@, sk[was[last] as int]@, sk[i as int]@);
            }
        }
    }
}

/// The positions at which the keys change, in the order that `p` gives.
fn cuts<V: Ord>(ks: &Vec<Vec<V>>, p: &Vec<usize>) -> (cs: Vec<usize>)
    requires
        is_stable_order(ks@, p@),
    ensures
        are_cuts(cs@, p@.len()),
        totally_ordered::<V>() ==> keys_grow_at(arranged(ks@, p@), cs@),
{
    let ghost sk = arranged(ks@, p@);
    let mut cs: Vec<usize> = vec![0];
    if p.len() == 0 {
        return cs;
    }
    let mut start: usize = 0;
    proof {
        if totally_ordered::<V>() {
            lemma_before(sk[0]@, sk[0]@, sk[0]@);
        }
    }
    for i in 1..p.len()
        invariant
            1 <= i <= p@.len() == ks@.len(),
            is_stable_order(ks@, p@),
            sk == arranged(ks@, p@),
            cs@.len() > 0,
            cs@[0] == 0,
            cs@.last() == start,
            start < i,
            forall|g: int, h: int| 0 <= g < h < cs@.len() ==> cs@[g] < cs@[h],
            totally_ordered::<V>() ==> keys_grow_at(sk, cs@.push(i)),
    {
        proof {
            if totally_ordered::<V>() {
                assert(comes_first(ks@, p@[start as int] as int, p@[i as int] as int));
                lemma_next_cut(sk, cs@, i);
            }
        }
        if !is_same(&ks[p[start]], &ks[p[i]]) {
            cs.push(i);
            start = i;
        }
    }
    cs.push(p.len());
    cs
}

/// Cuts `ys` at the positions `cs`.
fn cut<V>(ys: Vec<V>, cs: &Vec<usize>) -> (gs: Vec<Vec<V>>)
    requires
        are_cuts(cs@, ys@.len()),
    ensures
        cut_at(ys@, cs@, gs@),
{
    let ghost all = ys@;
    let mut rest = ys;
    let mut backwards: Vec<Vec<V>> = Vec::with_capacity(cs.len());
    let mut g: usize = cs.len() - 1;
    while g > 0
        invariant
            are_cuts(cs@, all.len()),
            g < cs@.len(),
            rest@ == all.subrange(0, cs@[g as int] as int),
            backwards@.len() == cs@.len() - 1 - g,
            forall|i: int|
                0 <= i < backwards@.len() ==> (#[trigger] backwards@[i])@ == all.subrange(
                    cs@[cs@.len() - 2 - i] as int,
                    cs@[cs@.len() - 1 - i] as int,
                ),
        decreases g,
    {
        g -= 1;
        let part = rest.split_off(cs[g]);
        assert(part@ =~= all.subrange(cs@[g as int] as int, cs@[g + 1] as int));
        assert(rest@ =~= all.subrange(0, cs@[g as int] as int));
        backwards.push(part);
    }
    reverse(backwards)
}

/// Reverse an array.
pub fn reverse<V>(xs: Vec<V>) -> (ys: Vec<V>)
    ensures
        ys@ == xs@.reverse(),
{
    let ghost all = xs@;
    let mut rest = xs;
    let mut ys: Vec<V> = Vec::with_capacity(rest.len());
    while rest.len() > 0
        invariant
            rest@.len() + ys@.len() == all.len(),
            rest@ == all.take(rest@.len() as int),
            forall|i: int| 0 <= i < ys@.len() ==> ys@[i] == all[all.len() - 1 - i],
        decreases rest.len(),
    {
        match rest.pop() {
            Some(x) => {
                ys.push(x);
            },
            None => {},
        }
    }
    ys
}

/// The groups of an array by the given function, as lists.
pub fn groups<V: Ord, E, F: Fn(&V) -> Result<Vec<V>, E>>(xs: Vec<V>, f: F) -> (r: Result<
    Vec<Vec<V>>,
    E,
>)
    requires
        forall|x: &V| #[trigger] call_requires(f, (x,)),
    ensures
        match r {
            Ok(gs) => grouped_by(f, xs@, gs@),
            Err(e) => first_failure(f, xs@, e),
        },
{
    match keys_of(&xs, &f) {
        Ok(ks) => {
            let p = stable_order(&ks);
            let cs = cuts(&ks, &p);
            let gs = cut(arrange(xs, &p), &cs);
            assert(grouped_by(f, xs@, gs@));
            Ok(gs)
        },
        Err(e) => Err(e),
    }
}

/// `v` is an array of arrays, made of `gs`.
pub open spec fn nested<V: ValT>(gs: Seq<Vec<V>>, v: V) -> bool {
    exists|vs: Vec<V>| #[trigger]
        call_ensures(V::from_seq, (vs,), v) && vs@.len() == gs.len() && forall|i: int|
            0 <= i < gs.len() ==> call_ensures(V::from_seq, (gs[i],), #[trigger] vs@[i])
}

/// `v` is the array of the groups of `xs` by `f`.
pub open spec fn group_array<V: ValT + Ord, F: Fn(&V) -> Result<Vec<V>, Error<V>>>(
    f: F,
    xs: Seq<V>,
    v: V,
) -> bool {
    exists|gs: Seq<Vec<V>>| #[trigger] grouped_by(f, xs, gs) && nested(gs, v)
}

/// Group an array by the given function.
pub fn group_by<V: ValT + Ord, F: Fn(&V) -> Result<Vec<V>, Error<V>>>(xs: Vec<V>, f: F) -> (r:
    ValR2<V>)
    requires
        forall|x: &V| #[trigger] call_requires(f, (x,)),
    ensures
        match r {
            Ok(v) => group_array(f, xs@, v),
            Err(e) => first_failure(f, xs@, e),
        },
{
    match groups(xs, f) {
        Ok(gs) => {
            let ghost all = gs@;
            let mut vs: Vec<V> = Vec::with_capacity(gs.len());
            for g in it: gs
                invariant
                    it.seq() == all,
                    vs@.len() == it.index(),
                    forall|i: int|
                        0 <= i < vs@.len() ==> call_ensures(V::from_seq, (all[i],), #[trigger] vs@[i]),
            {
                vs.push(V::from_seq(g));
            }
            let v = V::from_seq(vs);
            assert(nested(all, v));
            assert(group_array(f, xs@, v));
            Ok(v)
        },
        Err(e) => Err(e),
    }
}

} // verus!
