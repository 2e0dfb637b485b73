//! Where a string or an array occurs in another one.

use crate::text::{same_text, stands_at, str_windows, window_count};
use crate::val::{alike, Error, Val};
use vstd::prelude::*;
use vstd::string::StrSliceExecFns;

verus! {

/// Every element of `y` is equal to the one of `x` that stands over it when `y` is laid at `i`.
pub open spec fn window_matches<T, E: Fn(&T, &T) -> bool>(
    eq: E,
    x: Seq<T>,
    y: Seq<T>,
    i: int,
) -> bool {
    i + y.len() <= x.len() && forall|k: int|
        0 <= k < y.len() ==> call_ensures(eq, (&x[i + k], &#[trigger] y[k]), true)
}

/// An element of `y` has none of `x` over it when `y` is laid at `i`, or one that is not equal to it.
pub open spec fn window_differs<T, E: Fn(&T, &T) -> bool>(
    eq: E,
    x: Seq<T>,
    y: Seq<T>,
    i: int,
) -> bool {
    i + y.len() > x.len() || exists|k: int|
        0 <= k < y.len() && call_ensures(eq, (&x[i + k], &#[trigger] y[k]), false)
}

/// Whether `i` is one of `ps`.
pub open spec fn is_listed(ps: Seq<usize>, i: int) -> bool {
    exists|k: int| 0 <= k < ps.len() && #[trigger] ps[k] == i
}

/// `ps` lists numbers below `n` in increasing order:
/// the listed ones satisfy `yes`, the others satisfy `no`.
pub open spec fn lists(
    ps: Seq<usize>,
    n: nat,
    yes: spec_fn(int) -> bool,
    no: spec_fn(int) -> bool,
) -> bool {
    &&& forall|k: int| 0 <= k < ps.len() ==> (#[trigger] ps[k]) < n && yes(ps[k] as int)
    &&& forall|k: int, l: int| 0 <= k < l < ps.len() ==> ps[k] < ps[l]
    &&& forall|i: int| 0 <= i < n && !#[trigger] is_listed(ps, i) ==> no(i)
}

proof fn lemma_lists_next(
    ps: Seq<usize>,
    n: usize,
    yes: spec_fn(int) -> bool,
    no: spec_fn(int) -> bool,
)
    requires
        lists(ps, n as nat, yes, no),
    ensures
        no(n as int) ==> lists(ps, n as nat + 1, yes, no),
        yes(n as int) ==> lists(ps.push(n), n as nat + 1, yes, no),
{
    let qs = ps.push(n);
    if yes(n as int) {
        assert forall|i: int| 0 <= i < n + 1 && !#[trigger] is_listed(qs, i) implies no(i) by {
            assert(qs[ps.len() as int] == n);
            if is_listed(ps, i) {
                let k = choose|k: int| 0 <= k < ps.len() && #[trigger] ps[k] == i;
                assert(qs[k] == i);
            }
        }
    }
}

/// `ps` lists the positions at which `y` stands in `x`, none if `y` is empty.
pub open spec fn text_positions(x: Seq<char>, y: Seq<char>, ps: Seq<usize>) -> bool {
    if y.len() == 0 {
        ps.len() == 0
    } else {
        lists(ps, x.len(), |i: int| stands_at(x, y, i), |i: int| !stands_at(x, y, i))
    }
}

/// `ps` lists the positions at which `y` stands in `x` by the equality `eq`, none if `y` is empty.
pub open spec fn array_positions<T, E: Fn(&T, &T) -> bool>(
    eq: E,
    x: Seq<T>,
    y: Seq<T>,
    ps: Seq<usize>,
) -> bool {
    if y.len() == 0 {
        ps.len() == 0
    } else {
        lists(
            ps,
            x.len(),
            |i: int| window_matches(eq, x, y, i),
            |i: int| window_differs(eq, x, y, i),
        )
    }
}

/// `ps` lists the positions of the elements of `x` that are equal to `y` by the equality `eq`.
pub open spec fn element_positions<T, E: Fn(&T, &T) -> bool>(
    eq: E,
    x: Seq<T>,
    y: T,
    ps: Seq<usize>,
) -> bool {
    lists(
        ps,
        x.len(),
        |i: int| call_ensures(eq, (&x[i], &y), true),
        |i: int| call_ensures(eq, (&x[i], &y), false),
    )
}

/// The positions at which `y` stands in `x`.
fn text_indices(x: &str, y: &str) -> (ps: Vec<usize>)
    ensures
        text_positions(x@, y@, ps@),
{
    let mut ps: Vec<usize> = Vec::new();
    let n = y.unicode_len();
    if n == 0 {
        return ps;
    }
    let ghost yes = |i: int| stands_at(x@, y@, i);
    let ghost no = |i: int| !stands_at(x@, y@, i);
    let ws = str_windows(x, n);
    for i in 0..ws.len()
        invariant
            n == y@.len() > 0,
            yes == |i: int| stands_at(x@, y@, i),
            no == |i: int| !stands_at(x@, y@, i),
            ws@.len() == window_count(x@.len(), n as nat),
            forall|k: int| 0 <= k < ws@.len() ==> (#[trigger] ws@[k])@ == x@.subrange(k, k + n),
            lists(ps@, i as nat, yes, no),
    {
        proof {
            lemma_lists_next(ps@, i, yes, no);
        }
        if same_text(ws[i], y) {
            ps.push(i);
        }
    }
    ps
}

/// Whether `y` stands in `x` at `i`, by the equality `eq`.
fn window_at<T, E: Fn(&T, &T) -> bool>(x: &Vec<T>, y: &Vec<T>, i: usize, eq: &E) -> (r: bool)
    requires
        i < x@.len(),
        forall|a: &T, b: &T| #[trigger] call_requires(*eq, (a, b)),
    ensures
        r ==> window_matches(*eq, x@, y@, i as int),
        !r ==> window_differs(*eq, x@, y@, i as int),
{
    if y.len() > x.len() - i {
        return false;
    }
    for k in 0..y.len()
        invariant
            i + y@.len() <= x.len() == x@.len(),
            forall|a: &T, b: &T| #[trigger] call_requires(*eq, (a, b)),
            forall|l: int| 0 <= l < k ==> call_ensures(*eq, (&x@[i + l], &#[trigger] y@[l]), true),
    {
        if !eq(&x[i + k], &y[k]) {
            assert(call_ensures(*eq, (&x@[i + k], &y@[k as int]), false));
            return false;
        }
    }
    true
}

/// The positions at which `y` stands in `x`, by the equality `eq`.
fn array_indices<T, E: Fn(&T, &T) -> bool>(x: &Vec<T>, y: &Vec<T>, eq: &E) -> (ps: Vec<usize>)
    requires
        forall|a: &T, b: &T| #[trigger] call_requires(*eq, (a, b)),
    ensures
        array_positions(*eq, x@, y@, ps@),
{
    let mut ps: Vec<usize> = Vec::new();
    if y.len() == 0 {
        return ps;
    }
    let ghost yes = |i: int| window_matches(*eq, x@, y@, i);
    let ghost no = |i: int| window_differs(*eq, x@, y@, i);
    for i in 0..x.len()
        invariant
            forall|a: &T, b: &T| #[trigger] call_requires(*eq, (a, b)),
            yes == |i: int| window_matches(*eq, x@, y@, i),
            no == |i: int| window_differs(*eq, x@, y@, i),
            lists(ps@, i as nat, yes, no),
    {
        proof {
            lemma_lists_next(ps@, i, yes, no);
        }
        if window_at(x, y, i, eq) {
            ps.push(i);
        }
    }
    ps
}

/// The positions of the elements of `x` that are equal to `y`, by the equality `eq`.
fn element_indices<T, E: Fn(&T, &T) -> bool>(x: &Vec<T>, y: &T, eq: &E) -> (ps: Vec<usize>)
    requires
        forall|a: &T, b: &T| #[trigger] call_requires(*eq, (a, b)),
    ensures
        element_positions(*eq, x@, *y, ps@),
{
    let mut ps: Vec<usize> = Vec::new();
    let ghost yes = |i: int| call_ensures(*eq, (&x@[i], y), true);
    let ghost no = |i: int| call_ensures(*eq, (&x@[i], y), false);
    for i in 0..x.len()
        invariant
            forall|a: &T, b: &T| #[trigger] call_requires(*eq, (a, b)),
            yes == |i: int| call_ensures(*eq, (&x@[i], y), true),
            no == |i: int| call_ensures(*eq, (&x@[i], y), false),
            lists(ps@, i as nat, yes, no),
    {
        proof {
            lemma_lists_next(ps@, i, yes, no);
        }
        if eq(&x[i], y) {
            ps.push(i);
        }
    }
    ps
}

/// `r` holds the positions of `y` in `x`, or the error if `x` cannot be searched for `y`.
pub open spec fn found<E: Fn(&Val, &Val) -> bool>(
    eq: E,
    x: Val,
    y: Val,
    r: Result<Seq<usize>, Error<Val>>,
) -> bool {
    match (x, y) {
        (Val::Str(s), Val::Str(t)) => r matches Ok(ps) && text_positions(s@, t@, ps),
        (Val::Arr(s), Val::Arr(t)) => r matches Ok(ps) && array_positions(eq, s@, t@, ps),
        (Val::Arr(s), _) => r matches Ok(ps) && element_positions(eq, s@, y, ps),
        _ => r matches Err(Error::Index(u, v)) && alike(x, u) && alike(y, v),
    }
}

/// Return the indices of `y` in `x`.
///
/// Values are compared by `eq`.
pub fn indices<E: Fn(&Val, &Val) -> bool>(x: &Val, y: &Val, eq: E) -> (r: Result<
    Vec<usize>,
    Error<Val>,
>)
    requires
        forall|a: &Val, b: &Val| #[trigger] call_requires(eq, (a, b)),
    ensures
        match r {
            Ok(ps) => found(eq, *x, *y, Ok(ps@)),
            Err(e) => found(eq, *x, *y, Err(e)),
        },
{
    match (x, y) {
        (Val::Str(s), Val::Str(t)) => Ok(text_indices(s.as_str(), t.as_str())),
        (Val::Arr(s), Val::Arr(t)) => Ok(array_indices(s, t, &eq)),
        (Val::Arr(s), _) => Ok(element_indices(s, y, &eq)),
        _ => Err(Error::Index(x.clone(), y.clone())),
    }
}

} // verus!
