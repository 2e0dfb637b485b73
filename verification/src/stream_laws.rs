//! What the filters that give streams mean, by their names.

use crate::dispatch::{run_debug, run_input, run_limited, run_range, run_update};
use crate::filters::{core_list, lemma_named, named, Op};
use crate::order::totally_ordered;
use crate::range::{law_range_follows_its_definition, outputs_of_range, range_runs, Range};
use crate::stream::{first_of, popped, unary_step, Limit};
use crate::text_laws::made_of_text;
use crate::val::{Error, Type, ValR2, ValT};
use vstd::prelude::*;

verus! {

/// A filter with an argument, asked for the `i`-th time, gives `rs[i]`
/// and goes on from `rests[i]` to `rests[i + 1]`.
pub open spec fn unary_steps_at<V, E, F: Fn(&V, V) -> Result<V, E>>(
    f: F,
    input: V,
    rests: Seq<Seq<Result<V, E>>>,
    rs: Seq<Option<Result<V, E>>>,
    i: int,
) -> bool {
    unary_step(f, input, rests[i], rs[i], rests[i + 1])
}

/// A filter with an argument gives one output for every output of the argument, in their order:
/// what its function gives for it, or the error that it is. After that it gives none.
pub proof fn law_unary_gives_one_output_for_each<V, E, F: Fn(&V, V) -> Result<V, E>>(
    f: F,
    input: V,
    rests: Seq<Seq<Result<V, E>>>,
    rs: Seq<Option<Result<V, E>>>,
    k: int,
)
    requires
        rests.len() == rs.len() + 1,
        forall|i: int| 0 <= i < rs.len() ==> #[trigger] unary_steps_at(f, input, rests, rs, i),
        0 <= k < rs.len(),
    ensures
        k < rests[0].len() ==> rs[k] is Some && match rests[0][k] {
            Ok(y) => call_ensures(f, (&input, y), rs[k]->0),
            Err(e) => rs[k] == Some(Err::<V, E>(e)),
        },
        k >= rests[0].len() ==> rs[k] is None,
{
    lemma_unary_rest(f, input, rests, rs, k);
    assert(unary_steps_at(f, input, rests, rs, k));
}

proof fn lemma_unary_rest<V, E, F: Fn(&V, V) -> Result<V, E>>(
    f: F,
    input: V,
    rests: Seq<Seq<Result<V, E>>>,
    rs: Seq<Option<Result<V, E>>>,
    k: int,
)
    requires
        rests.len() == rs.len() + 1,
        forall|i: int| 0 <= i < rs.len() ==> #[trigger] unary_steps_at(f, input, rests, rs, i),
        0 <= k <= rs.len(),
    ensures
        rests[k] == if k <= rests[0].len() {
            rests[0].skip(k)
        } else {
            seq![]
        },
    decreases k,
{
    if k == 0 {
        assert(rests[0].skip(0) =~= rests[0]);
    } else {
        lemma_unary_rest(f, input, rests, rs, k - 1);
        assert(unary_steps_at(f, input, rests, rs, k - 1));
        if k <= rests[0].len() {
            assert(rests[0].skip(k - 1).drop_first() =~= rests[0].skip(k));
        } else {
            assert(rests[k - 1] =~= seq![]);
        }
    }
}

/// A stream that is limited to `n` outputs gives the first `n` of `all`, in their order,
/// or all if there are fewer, and then none.
pub proof fn law_limited_gives_the_first_outputs<T>(
    all: Seq<T>,
    n: usize,
    rests: Seq<Seq<T>>,
    rs: Seq<Option<T>>,
    k: int,
)
    requires
        rests.len() == rs.len() + 1,
        rests[0] == first_of(all, n),
        forall|i: int| 0 <= i < rs.len() ==> popped(#[trigger] rests[i], rs[i], rests[i + 1]),
        0 <= k < rs.len(),
    ensures
        rs[k] == if k < n && k < all.len() {
            Some(all[k])
        } else {
            None
        },
{
    lemma_popped(rests, rs, k);
    assert(popped(rests[k], rs[k], rests[k + 1]));
}

proof fn lemma_popped<T>(rests: Seq<Seq<T>>, rs: Seq<Option<T>>, k: int)
    requires
        rests.len() == rs.len() + 1,
        forall|i: int| 0 <= i < rs.len() ==> popped(#[trigger] rests[i], rs[i], rests[i + 1]),
        0 <= k <= rs.len(),
    ensures
        rests[k] == if k <= rests[0].len() {
            rests[0].skip(k)
        } else {
            seq![]
        },
    decreases k,
{
    if k == 0 {
        assert(rests[0].skip(0) =~= rests[0]);
    } else {
        lemma_popped(rests, rs, k - 1);
        assert(popped(rests[k - 1], rs[k - 1], rests[k]));
        assert(rests[k] =~= if k <= rests[0].len() {
            rests[0].skip(k)
        } else {
            seq![]
        });
    }
}

/// `n` is the integer `i`, and a limit of that lets `left` outputs through:
/// as many as it says, or none if it is negative.
pub open spec fn lets_through<V: ValT>(n: V, left: usize) -> bool {
    exists|i: isize| #[trigger]
        call_ensures(V::as_isize, (&n,), Some(i)) && left as int == if i >= 0 {
            i as int
        } else {
            0
        }
}

/// `e` says that an integer was expected in place of `v`.
pub open spec fn wants_integer<V: ValT>(v: V, e: Error<V>) -> bool {
    call_ensures(V::as_isize, (&v,), None::<isize>) && exists|u: V| #[trigger]
        cloned(v, u) && e == Error::Type(u, Type::Int)
}

/// `limit` lets as many outputs of its second argument through as its first argument says,
/// for every integer, and none if that is negative. An error in its place is the only output.
pub proof fn law_limit<V: ValT, I: Iterator<Item = ValR2<V>>, R: FnOnce() -> I>(
    op: Op,
    n: ValR2<V>,
    run: R,
    l: Limit<I, Error<V>>,
)
    requires
        named(core_list(), "limit"@, 2, op),
        call_ensures(run_limited, (op, Some(n), run), l),
    ensures
        match n {
            Err(e) => l == Limit::<I, Error<V>>::Failed(Some(e)),
            Ok(n) => match l {
                Limit::Limited(t) => call_ensures(run, (), t.outputs) && lets_through(n, t.left),
                Limit::Failed(o) => o is Some && wants_integer(n, o->0),
            },
        },
{
    assert(core_list()[22].0 == "limit"@);
    lemma_named(22, 2, op);
    match (n, l) {
        (Ok(n), Limit::Limited(t)) => {
            let i = choose|i: isize| #[trigger]
                crate::val::int_of(n, Some(i)) && t.left == crate::stream::at_most(i);
            assert(call_ensures(V::as_isize, (&n,), Some(i)));
            assert(isize::MAX <= usize::MAX);
        },
        (Ok(n), Limit::Failed(o)) => {
            assert(cloned(n, o->0->Type_0));
        },
        _ => {},
    }
}

/// `first` lets one output of its argument through.
pub proof fn law_first<V: ValT, I: Iterator<Item = ValR2<V>>, R: FnOnce() -> I>(
    op: Op,
    run: R,
    l: Limit<I, Error<V>>,
)
    requires
        named(core_list(), "first"@, 1, op),
        call_ensures(run_limited, (op, None, run), l),
    ensures
        l is Limited && call_ensures(run, (), l->Limited_0.outputs) && l->Limited_0.left == 1,
{
    assert(core_list()[21].0 == "first"@);
    lemma_named(21, 1, op);
}

/// `range` gives what its definition in terms of `while` says,
/// or the error that its end is, or the error that its distance is.
pub proof fn law_range<V: ValT + Ord, P: Fn(&V, &V) -> ValR2<V>>(
    op: Op,
    from: ValR2<V>,
    to: ValR2<V>,
    by: ValR2<V>,
    plus: P,
    r: Result<Range<V, Error<V>, P>, Error<V>>,
    ss: Seq<Range<V, Error<V>, P>>,
    rs: Seq<Option<ValR2<V>>>,
)
    requires
        totally_ordered::<V>(),
        named(core_list(), "range"@, 3, op),
        call_ensures(run_range, (op, from, to, by, plus), r),
        r is Ok ==> ss.len() > 0 && ss[0] == r->Ok_0 && range_runs(ss, rs),
    ensures
        to is Err ==> r is Err && r->Err_0 == to->Err_0,
        to is Ok && by is Err ==> r is Err && r->Err_0 == by->Err_0,
        to is Ok && by is Ok ==> r is Ok && exists|zero: V| #[trigger]
            call_ensures(<V as From<isize>>::from, (0isize,), zero) && forall|k: int|
                0 <= k < rs.len() ==> #[trigger] outputs_of_range(
                    from,
                    to->Ok_0,
                    by->Ok_0,
                    plus,
                    zero,
                    rs,
                    k,
                ),
{
    assert(core_list()[23].0 == "range"@);
    lemma_named(23, 3, op);
    if to is Ok && by is Ok {
        law_range_follows_its_definition(from, to->Ok_0, by->Ok_0, plus, ss, rs);
    }
}

/// `inputs` gives what has been read, or the text of the error that reading gave.
pub proof fn law_inputs<V: ValT>(op: Op, r: Result<V, String>, o: ValR2<V>)
    requires
        named(core_list(), "inputs"@, 0, op),
        call_ensures(run_input, (op, r), o),
    ensures
        match r {
            Ok(v) => o == Ok::<V, Error<V>>(v),
            Err(t) => o is Err && o->Err_0 is Val && exists|s: String|
                s@ == t@ && #[trigger] made_of_text(s, o->Err_0->Val_0),
        },
{
    assert(core_list()[5].0 == "inputs"@);
    lemma_named(5, 0, op);
    if r is Err {
        let s = choose|s: String|
            s@ == r->Err_0@ && #[trigger] call_ensures(
                <V as From<String>>::from,
                (s,),
                o->Err_0->Val_0,
            );
        assert(made_of_text(s, o->Err_0->Val_0));
    }
}

/// `debug` shows its input and gives it.
pub proof fn law_debug<V, D: FnOnce(&V)>(op: Op, v: V, show: D, r: ValR2<V>)
    requires
        named(core_list(), "debug"@, 0, op),
        call_ensures(run_debug, (op, v, show), r),
    ensures
        r == Ok::<V, Error<V>>(v),
        call_ensures(show, (&v,), ()),
{
}

/// Under an update, `error` fails with its input as the payload of the error.
pub proof fn law_error_under_update<V, O, D: FnOnce(&V), F: FnOnce(V) -> O>(
    op: Op,
    v: V,
    show: D,
    f: F,
    r: Result<O, Error<V>>,
)
    requires
        named(core_list(), "error"@, 0, op),
        call_ensures(run_update, (op, v, show, f), r),
    ensures
        r == Err::<O, Error<V>>(Error::Val(v)),
{
    assert(core_list()[30].0 == "error"@);
    lemma_named(30, 0, op);
}

/// Under an update, `debug` shows its input and gives what the update makes of it.
pub proof fn law_debug_under_update<V, O, D: FnOnce(&V), F: FnOnce(V) -> O>(
    op: Op,
    v: V,
    show: D,
    f: F,
    r: Result<O, Error<V>>,
)
    requires
        named(core_list(), "debug"@, 0, op),
        call_ensures(run_update, (op, v, show, f), r),
    ensures
        call_ensures(show, (&v,), ()),
        r is Ok && call_ensures(f, (v,), r->Ok_0),
{
    assert(core_list()[95].0 == "debug"@);
    lemma_named(95, 0, op);
}

} // verus!
