//! What the functions of the library give, said of their calls.

use crate::dispatch::run_from_json;
use crate::filters::{
    base_list, core_filters, core_list, core_run, core_run_rows, extra_list, format_run,
    format_run_rows, generic_base, generic_extra, json_minimal, json_minimal_rows, math_run,
    math_run_rows, minimal, minimal_list, named, regex_run, regex_run_rows, std_run, std_run_rows,
    time_run, time_run_rows, Filter, Op,
};
use crate::json::{json_outcome, starts_at, unread};
use crate::order::{compare, is_before, is_same, lesser, totally_ordered, Rank};
use crate::range::Range;
use crate::regex::{is_no_string, says};
use crate::select::{cmp_by, has_replaced, stays_until};
use crate::sort::{keyed, keys_of};
use crate::stream::{
    first, once_or_empty, once_with, unary, with_debug, Limit, OnceOrEmpty, OnceWith, Take,
    Unary,
};
use crate::text::{
    decimal, for_char, replace_char, same_text, spelled, str_windows, to_chars, to_decimal,
};
use crate::text_laws::{is_shown, lemma_is_shown};
use crate::val::{Error, Type, Val, ValR2, ValT, ValTx};
use vstd::prelude::*;
use vstd::std_specs::convert::TryFromSpec;
use vstd::std_specs::iter::IteratorSpec;

verus! {

/// A stream of one output gives what its function gives, and then nothing.
pub proof fn law_once_with<T, F: FnOnce() -> T>(
    f: F,
    s: OnceWith<F>,
    x: &mut OnceWith<F>,
    r: Option<T>,
    y: &mut OnceWith<F>,
    q: Option<T>,
)
    requires
        call_ensures(once_with::<T, F>, (f,), s),
        *x == s,
        call_ensures(OnceWith::<F>::next::<T>, (x,), r),
        *y == *final(x),
        call_ensures(OnceWith::<F>::next::<T>, (y,), q),
    ensures
        r is Some && call_ensures(f, (), r->0),
        q is None,
{
}

/// A stream of at most one output gives what its function gives, and then nothing.
pub proof fn law_once_or_empty<T, F: FnOnce() -> Option<T>>(
    f: F,
    s: OnceOrEmpty<F>,
    x: &mut OnceOrEmpty<F>,
    r: Option<T>,
    y: &mut OnceOrEmpty<F>,
    q: Option<T>,
)
    requires
        call_ensures(once_or_empty::<T, F>, (f,), s),
        *x == s,
        call_ensures(OnceOrEmpty::<F>::next::<T>, (x,), r),
        *y == *final(x),
        call_ensures(OnceOrEmpty::<F>::next::<T>, (y,), q),
    ensures
        call_ensures(f, (), r),
        q is None,
{
}

/// A filter with an argument begins with its input and with all outputs of its argument.
pub proof fn law_unary<V, E, I: Iterator<Item = Result<V, E>>, F: Fn(&V, V) -> Result<V, E>>(
    args: I,
    input: V,
    f: F,
    s: Unary<V, I, F>,
)
    requires
        call_ensures(unary::<V, E, I, F>, (args, input, f), s),
    ensures
        s.args == args,
        s.input == input,
        s.f == f,
{
}

/// A filter with an argument that is asked for an output keeps its input and its function.
/// It gives what the function makes of the next output of the argument,
/// or the error that this output is, and nothing once the argument gives nothing.
pub proof fn law_unary_next<V, E, I: Iterator<Item = Result<V, E>>, F: Fn(&V, V) -> Result<V, E>>(
    x: &mut Unary<V, I, F>,
    r: Option<Result<V, E>>,
)
    requires
        call_ensures(Unary::<V, I, F>::next::<E>, (x,), r),
    ensures
        final(x).input == old(x).input,
        final(x).f == old(x).f,
        exists|args: &mut I, y: Option<Result<V, E>>|
            *args == old(x).args && *final(args) == final(x).args && #[trigger] call_ensures(
                I::next,
                (args,),
                y,
            ) && match y {
                Some(Ok(y)) => r is Some && call_ensures(old(x).f, (&old(x).input, y), r->0),
                Some(Err(e)) => r == Some(Err::<V, E>(e)),
                None => r is None,
            },
{
}

/// `first` lets one output through.
pub proof fn law_first_of_a_stream<I: Iterator>(outputs: I, s: Take<I>)
    requires
        call_ensures(first::<I>, (outputs,), s),
    ensures
        s.outputs == outputs,
        s.left == 1,
{
}

/// A limited stream that is asked for an output gives the next one and may give one less after it.
/// Once it may give none, it gives nothing, and does not ask for more.
pub proof fn law_take_next<I: Iterator>(x: &mut Take<I>, r: Option<I::Item>)
    requires
        call_ensures(Take::<I>::next, (x,), r),
    ensures
        old(x).left == 0 ==> r is None && *final(x) == *old(x),
        old(x).left > 0 ==> final(x).left + 1 == old(x).left && exists|outputs: &mut I|
            *outputs == old(x).outputs && *final(outputs) == final(x).outputs && #[trigger]
            call_ensures(I::next, (outputs,), r),
{
}

/// A limited stream gives the first one of the outputs that are left to its source,
/// if it may give one and there is one.
pub proof fn law_take_next_is_the_first_left<I: Iterator>(x: &mut Take<I>, r: Option<I::Item>)
    requires
        call_ensures(Take::<I>::next, (x,), r),
        (*x).outputs.obeys_prophetic_iter_laws(),
    ensures
        r == if old(x).left > 0 && old(x).outputs.remaining().len() > 0 {
            Some(old(x).outputs.remaining()[0])
        } else {
            None
        },
{
}

/// A filter with an argument gives what its function makes of the first one of the outputs
/// that are left to the argument, or the error that this one is, if there is one,
/// and the others are left then.
pub proof fn law_unary_next_is_of_the_first_left<
    V,
    E,
    I: Iterator<Item = Result<V, E>>,
    F: Fn(&V, V) -> Result<V, E>,
>(x: &mut Unary<V, I, F>, r: Option<Result<V, E>>)
    requires
        call_ensures(Unary::<V, I, F>::next::<E>, (x,), r),
        (*x).args.obeys_prophetic_iter_laws(),
    ensures
        r is Some <==> old(x).args.remaining().len() > 0,
        r is Some ==> final(x).args.remaining() == old(x).args.remaining().drop_first(),
        r is Some ==> match old(x).args.remaining()[0] {
            Ok(y) => call_ensures(old(x).f, (&old(x).input, y), r->0),
            Err(e) => r->0 == Err::<V, E>(e),
        },
{
}

/// A value that is shown comes out unchanged.
pub proof fn law_with_debug<T, D: FnOnce(&T)>(x: T, debug: D, r: T)
    requires
        call_ensures(with_debug::<T, D>, (x, debug), r),
    ensures
        r == x,
        call_ensures(debug, (&x,), ()),
{
}

/// A limited stream that is an error gives the error, and then nothing.
pub proof fn law_limit_next_of_an_error<V, I: Iterator<Item = ValR2<V>>>(
    e: Error<V>,
    x: &mut Limit<I, Error<V>>,
    r: Option<ValR2<V>>,
    y: &mut Limit<I, Error<V>>,
    q: Option<ValR2<V>>,
)
    requires
        *x == Limit::<I, Error<V>>::Failed(Some(e)),
        call_ensures(Limit::<I, Error<V>>::next, (x,), r),
        *y == *final(x),
        call_ensures(Limit::<I, Error<V>>::next, (y,), q),
    ensures
        r == Some(Err::<V, Error<V>>(e)),
        q is None,
{
}

/// A limited stream of outputs gives the next one and may give one less after it.
/// Once it may give none, it gives nothing, and does not ask for more.
pub proof fn law_limit_next<V, I: Iterator<Item = ValR2<V>>>(
    t: Take<I>,
    x: &mut Limit<I, Error<V>>,
    r: Option<ValR2<V>>,
)
    requires
        *x == Limit::<I, Error<V>>::Limited(t),
        call_ensures(Limit::<I, Error<V>>::next, (x,), r),
    ensures
        t.left == 0 ==> r is None && *final(x) == *old(x),
        t.left > 0 ==> *final(x) is Limited && (*final(x))->Limited_0.left + 1 == t.left && exists|
            outputs: &mut I,
        |
            *outputs == t.outputs && *final(outputs) == (*final(x))->Limited_0.outputs
                && #[trigger] call_ensures(I::next, (outputs,), r),
{
}

/// A JSON value is an array, an integer or a string to the filters
/// exactly if it is one, and then with just what it holds.
pub proof fn law_json_values(
    v: Val,
    a: Result<Vec<Val>, Val>,
    i: Option<isize>,
    s: Option<&str>,
)
    requires
        call_ensures(Val::into_seq, (v,), a),
        call_ensures(Val::as_isize, (&v,), i),
        call_ensures(Val::as_str, (&v,), s),
    ensures
        match v {
            Val::Arr(xs) => a == Ok::<Vec<Val>, Val>(xs),
            _ => a == Err::<Vec<Val>, Val>(v),
        },
        i is Some <==> v is Int,
        i is Some ==> v == Val::Int(i->0),
        s is Some <==> v is Str,
        s is Some ==> v->Str_0@ == s->0@,
{
}

/// JSON values are built as what they are built of.
pub proof fn law_json_values_are_built(
    xs: Vec<Val>,
    a: Val,
    n: &str,
    of_num: ValR2<Val>,
    b: bool,
    of_bool: Val,
    i: isize,
    of_int: Val,
    s: String,
    of_str: Val,
)
    requires
        call_ensures(Val::from_seq, (xs,), a),
        call_ensures(Val::from_num, (n,), of_num),
        call_ensures(<Val as From<bool>>::from, (b,), of_bool),
        call_ensures(<Val as From<isize>>::from, (i,), of_int),
        call_ensures(<Val as From<String>>::from, (s,), of_str),
    ensures
        a == Val::Arr(xs),
        of_num is Ok && of_num->Ok_0 is Num && of_num->Ok_0->Num_0@ == n@,
        of_bool == Val::Bool(b),
        of_int == Val::Int(i),
        of_str == Val::Str(s),
{
}

/// A value that is converted, but cannot be, gives an error that names it
/// and the type that was expected.
pub proof fn law_conversions<V: ValT>(
    v: V,
    a: Result<Vec<V>, Error<V>>,
    s: Result<&str, Error<V>>,
    i: Result<isize, Error<V>>,
)
    requires
        call_ensures(<V as ValTx>::into_vec, (v,), a),
        call_ensures(<V as ValTx>::try_as_str, (&v,), s),
        call_ensures(<V as ValTx>::try_as_isize, (&v,), i),
    ensures
        match a {
            Ok(xs) => call_ensures(V::into_seq, (v,), Ok::<Vec<V>, V>(xs)),
            Err(e) => exists|u: V| #[trigger]
                call_ensures(V::into_seq, (v,), Err::<Vec<V>, V>(u)) && e == Error::Type(u, Type::Arr),
        },
        match s {
            Ok(t) => call_ensures(V::as_str, (&v,), Some(t)),
            Err(e) => call_ensures(V::as_str, (&v,), None::<&str>) && exists|u: V| #[trigger]
                cloned(v, u) && e == Error::Type(u, Type::Str),
        },
        match i {
            Ok(n) => call_ensures(V::as_isize, (&v,), Some(n)),
            Err(e) => call_ensures(V::as_isize, (&v,), None::<isize>) && exists|u: V| #[trigger]
                cloned(v, u) && e == Error::Type(u, Type::Int),
        },
{
}

/// An integer is converted to a narrower one of the same size, if there is one.
pub proof fn law_narrow_conversion<V: ValT>(v: V, i: isize, r: Result<i32, Error<V>>)
    requires
        call_ensures(<V as ValTx>::try_as_i32, (&v,), r),
        forall|o: Option<isize>| #[trigger] call_ensures(V::as_isize, (&v,), o) ==> o == Some(i),
    ensures
        r is Ok <==> -0x8000_0000 <= i <= 0x7fff_ffff,
        r is Ok ==> r->Ok_0 == i,
        r is Err ==> is_shown(<i32 as TryFromSpec<isize>>::try_from_spec(i)->Err_0, r->Err_0),
{
    if r is Err {
        lemma_is_shown(<i32 as TryFromSpec<isize>>::try_from_spec(i)->Err_0, r->Err_0);
    }
}

/// An error that is built from a message has the message as its payload.
pub proof fn law_error_has_its_message<V: ValT>(message: String, e: Error<V>)
    requires
        call_ensures(Error::<V>::str, (message,), e),
    ensures
        e is Val && exists|t: String|
            t@ == message@ && #[trigger] call_ensures(<V as From<String>>::from, (t,), e->Val_0),
{
}

/// The windows of a text that are `n` characters wide stand in their order, one from every
/// position behind which there are `n` characters. There is an empty one before every character.
pub proof fn law_str_windows(line: &str, n: usize, ws: Vec<&str>, i: int, k: int)
    requires
        call_ensures(str_windows, (line, n), ws),
    ensures
        n > 0 ==> (0 <= i < ws@.len() <==> 0 <= i && i + n <= line@.len()),
        n == 0 ==> ws@.len() == line@.len(),
        0 <= i < ws@.len() ==> ws@[i]@.len() == n,
        0 <= i < ws@.len() && 0 <= k < n ==> ws@[i]@[k] == line@[i + k],
{
}

/// Two texts are the same if and only if they have the same characters.
pub proof fn law_same_text(a: &str, b: &str, r: bool)
    requires
        call_ensures(same_text, (a, b), r),
    ensures
        r <==> a@.len() == b@.len() && forall|i: int| 0 <= i < a@.len() ==> a@[i] == b@[i],
{
    if a@.len() == b@.len() && (forall|i: int| 0 <= i < a@.len() ==> a@[i] == b@[i]) {
        assert(a@ =~= b@);
    }
}

/// A character is replaced wherever it stands, and the others are kept:
/// what becomes of a text is what becomes of its parts, one behind the other.
pub proof fn law_replace_char(
    a: &str,
    b: &str,
    whole: &str,
    c: char,
    with: &str,
    p: String,
    q: String,
    r: String,
)
    requires
        whole@ == a@ + b@,
        call_ensures(replace_char, (a, c, with), p),
        call_ensures(replace_char, (b, c, with), q),
        call_ensures(replace_char, (whole, c, with), r),
    ensures
        r@ == p@ + q@,
        a@.len() == 0 ==> p@.len() == 0,
        a@.len() == 1 ==> p@ == if a@[0] == c {
            with@
        } else {
            a@
        },
{
    lemma_spelled_parts(a@, b@, for_char(c, with@));
    if a@.len() == 1 {
        reveal_with_fuel(spelled, 2);
        assert(a@.drop_last() =~= seq![]);
        assert(a@ =~= seq![a@[0]]);
        assert(p@ =~= for_char(c, with@)(a@[0]));
    }
}

proof fn lemma_spelled_parts(a: Seq<char>, b: Seq<char>, f: spec_fn(char) -> Seq<char>)
    ensures
        spelled(a + b, f) == spelled(a, f) + spelled(b, f),
    decreases b.len(),
{
    if b.len() == 0 {
        assert(a + b =~= a);
        assert(spelled(a, f) + spelled(b, f) =~= spelled(a, f));
    } else {
        lemma_spelled_parts(a, b.drop_last(), f);
        assert((a + b).drop_last() =~= a + b.drop_last());
        assert(spelled(a, f) + spelled(b, f) =~= spelled(a, f) + spelled(b.drop_last(), f) + f(
            b.last(),
        ));
    }
}

/// A number is written in decimal: a digit for each power of ten, without leading zeros.
pub proof fn law_to_decimal(n: u64, s: String)
    requires
        call_ensures(to_decimal, (n,), s),
    ensures
        s@.len() > 0,
        forall|i: int| 0 <= i < s@.len() ==> '0' <= #[trigger] s@[i] <= '9',
        n > 0 ==> s@[0] != '0',
        s@.last() as u32 - 0x30 == n as int % 10,
        n < 10 ==> s@.len() == 1,
        n >= 10 ==> s@.drop_last() == decimal(n as nat / 10),
{
    lemma_decimal(n as nat);
    if n >= 10 {
        assert(s@.drop_last() =~= decimal(n as nat / 10));
    }
}

proof fn lemma_decimal(n: nat)
    ensures
        decimal(n).len() > 0,
        forall|i: int| 0 <= i < decimal(n).len() ==> '0' <= #[trigger] decimal(n)[i] <= '9',
        n > 0 ==> decimal(n)[0] != '0',
    decreases n,
{
    if n >= 10 {
        lemma_decimal(n / 10);
        let t = decimal(n / 10);
        assert forall|i: int| 0 <= i < decimal(n).len() implies '0' <= #[trigger] decimal(n)[i]
            <= '9' by {
            if i < t.len() {
                assert(decimal(n)[i] == t[i]);
            }
        }
    }
}

/// A text has its characters in their order.
pub proof fn law_to_chars(s: &str, cs: Vec<char>, i: int)
    requires
        call_ensures(to_chars, (s,), cs),
    ensures
        cs@.len() == s@.len(),
        0 <= i < s@.len() ==> cs@[i] == s@[i],
{
}

/// Values compare as their implementation of `Ord` says.
/// Of two sequences of values, the lesser one by the first position at which they differ
/// comes before the other, and those with equal values at every position are the same.
pub proof fn law_comparisons<V: Ord>(
    a: Vec<V>,
    b: Vec<V>,
    i: int,
    j: int,
    c: Rank,
    before: bool,
    same: bool,
)
    requires
        totally_ordered::<V>(),
        call_ensures(compare::<V>, (&a@[i], &b@[j]), c),
        call_ensures(is_before::<V>, (&a, &b), before),
        call_ensures(is_same::<V>, (&a, &b), same),
    ensures
        c == crate::order::rank(a@[i], b@[j]),
        before <==> lesser(a@, b@),
        same <==> a@.len() == b@.len() && forall|k: int|
            0 <= k < a@.len() ==> crate::order::rank(#[trigger] a@[k], b@[k]) == Rank::Equal,
{
    crate::order::law_before_is_lexicographic(a@, b@);
    crate::order::law_same_at_every_position(a@, b@);
}

/// The function `f` gives a value for `x`.
pub open spec fn succeeds<V, K, E, F: Fn(&V) -> Result<K, E>>(f: F, x: V) -> bool {
    exists|k: K| #[trigger] call_ensures(f, (&x,), Ok::<K, E>(k))
}

/// The function `f` fails on one of `xs` with the error `e`, and gives values for those before it.
pub open spec fn fails_first_at<V, K, E, F: Fn(&V) -> Result<K, E>>(f: F, xs: Seq<V>, e: E) -> bool {
    exists|n: int|
        0 <= n < xs.len() && call_ensures(f, (&#[trigger] xs[n],), Err::<K, E>(e)) && forall|i: int|
            0 <= i < n ==> succeeds(f, #[trigger] xs[i])
}

proof fn lemma_fails_somewhere<V, K, E, F: Fn(&V) -> Result<K, E>>(f: F, xs: Seq<V>, e: E)
    requires
        crate::sort::first_failure(f, xs, e),
    ensures
        fails_first_at::<V, K, E, F>(f, xs, e),
{
    let ks = choose|ks: Seq<K>| #[trigger] crate::sort::fails_after(f, xs, ks, e);
    let n = ks.len() as int;
    assert(call_ensures(f, (&xs[n],), Err::<K, E>(e)));
    assert forall|i: int| 0 <= i < n implies succeeds(f, #[trigger] xs[i]) by {
        assert(xs.take(n)[i] == xs[i]);
        assert(call_ensures(f, (&xs.take(n)[i],), Ok::<K, E>(ks[i])));
    }
}

/// The element with the key at `m` is not replaced by any later one.
pub open spec fn stays<V, R: Fn(&Vec<V>, &Vec<V>) -> bool>(
    replace: R,
    ks: Seq<Vec<V>>,
    m: int,
) -> bool {
    stays_until(replace, ks, m, ks.len() as int)
}

/// The key of every element is given, in their order, unless the function fails on one.
pub proof fn law_keys_of<V, K, E, F: Fn(&V) -> Result<K, E>>(
    xs: Vec<V>,
    f: F,
    r: Result<Vec<K>, E>,
)
    requires
        call_ensures(keys_of::<V, K, E, F>, (&xs, &f), r),
    ensures
        match r {
            Ok(ks) => ks@.len() == xs@.len() && forall|i: int|
                0 <= i < xs@.len() ==> call_ensures(
                    f,
                    (&xs@[i],),
                    Ok::<K, E>(#[trigger] ks@[i]),
                ),
            Err(e) => fails_first_at::<V, K, E, F>(f, xs@, e),
        },
{
    if r is Err {
        lemma_fails_somewhere(f, xs@, r->Err_0);
    }
}

/// Of no elements none is picked. Of others one is picked which `replace` does not replace
/// by any later one, and which has replaced one before it, unless it is the first one.
/// An error is that of the first element on which the function fails.
pub proof fn law_cmp_by<
    V,
    E,
    F: Fn(&V) -> Result<Vec<V>, E>,
    R: Fn(&Vec<V>, &Vec<V>) -> bool,
>(xs: Vec<V>, f: F, replace: R, r: Result<Option<V>, E>)
    requires
        call_ensures(cmp_by::<V, E, F, R>, (xs, f, replace), r),
    ensures
        match r {
            Ok(None) => xs@.len() == 0,
            Ok(Some(x)) => exists|ks: Seq<Vec<V>>, m: int| #[trigger]
                keyed(f, xs@, ks) && 0 <= m < xs@.len() && x == #[trigger] xs@[m] && stays(
                    replace,
                    ks,
                    m,
                ) && (m > 0 ==> has_replaced(replace, ks, m)),
            Err(e) => fails_first_at::<V, Vec<V>, E, F>(f, xs@, e),
        },
{
    match r {
        Ok(Some(x)) => crate::select::law_kept_element_withstands_later_ones(f, replace, xs@, x),
        Ok(None) => {},
        Err(e) => lemma_fails_somewhere(f, xs@, e),
    }
}

/// A range that is asked for an output keeps its end, its distance and the way in which it adds.
/// What it gives is where it stands, and it goes on from there by the distance.
pub proof fn law_range_next<V: Ord, E, P: Fn(&V, &V) -> Result<V, E>>(
    x: &mut Range<V, E, P>,
    r: Option<Result<V, E>>,
)
    requires
        call_ensures(Range::<V, E, P>::next, (x,), r),
    ensures
        final(x).to == old(x).to,
        final(x).by == old(x).by,
        final(x).plus == old(x).plus,
        final(x).direction == old(x).direction,
        r is Some ==> r == old(x).from,
        match old(x).from {
            None => r is None && final(x).from is None,
            Some(Err(e)) => r is Some && final(x).from is None,
            Some(Ok(v)) => {
                &&& r is None ==> *final(x) == *old(x)
                &&& r is Some ==> final(x).from is Some && call_ensures(
                    old(x).plus,
                    (&v, &old(x).by),
                    final(x).from->0,
                )
                &&& totally_ordered::<V>() ==> (r is Some <==> {
                    let c = crate::order::rank(v, old(x).to);
                    match old(x).direction {
                        Rank::Greater => c == Rank::Less,
                        Rank::Less => c == Rank::Greater,
                        Rank::Equal => c == Rank::Less || c == Rank::Greater,
                    }
                })
            },
        },
{
}

/// What a parser makes of a text is the value, and what it does not understand is an error
/// that has the text and the reason in it.
pub proof fn law_json_outcome<V: ValT>(s: &str, r: Result<V, String>, o: ValR2<V>)
    requires
        call_ensures(json_outcome::<V>, (s, r), o),
    ensures
        match r {
            Ok(v) => o == Ok::<V, Error<V>>(v),
            Err(problem) => o is Err && says(
                o->Err_0,
                "cannot parse "@ + s@ + " as JSON: "@ + problem@,
            ),
        },
{
}

/// The lists of filters hold the entries that they are said to hold, in their order.
pub proof fn law_lists(
    all: Vec<Filter>,
    least: Vec<Filter>,
    base: Vec<Filter>,
    extra: Vec<Filter>,
    i: int,
)
    requires
        call_ensures(core_filters, (), all),
        call_ensures(minimal, (), least),
        call_ensures(generic_base, (), base),
        call_ensures(generic_extra, (), extra),
    ensures
        all@.len() == core_list().len(),
        0 <= i < all@.len() ==> (all@[i].0@, all@[i].1, all@[i].2) == core_list()[i],
        least@.len() == minimal_list().len(),
        0 <= i < least@.len() ==> (least@[i].0@, least@[i].1, least@[i].2) == minimal_list()[i],
        base@.len() == base_list().len(),
        0 <= i < base@.len() ==> (base@[i].0@, base@[i].1, base@[i].2) == base_list()[i],
        extra@.len() == extra_list().len(),
        0 <= i < extra@.len() ==> (extra@[i].0@, extra@[i].1, extra@[i].2) == extra_list()[i],
{
    assert(0 <= i < all@.len() ==> crate::filters::listed(all@)[i] == core_list()[i]);
    assert(0 <= i < least@.len() ==> crate::filters::listed(least@)[i] == minimal_list()[i]);
    assert(0 <= i < base@.len() ==> crate::filters::listed(base@)[i] == base_list()[i]);
    assert(0 <= i < extra@.len() ==> crate::filters::listed(extra@)[i] == extra_list()[i]);
}

/// The parts of the table hold the entries that they are said to hold, in their order.
pub proof fn law_tables(
    json: Vec<(&'static str, usize, Op)>,
    core: Vec<(&'static str, usize, Op)>,
    std: Vec<(&'static str, usize, Op)>,
    format: Vec<(&'static str, usize, Op)>,
    math: Vec<(&'static str, usize, Op)>,
    regex: Vec<(&'static str, usize, Op)>,
    time: Vec<(&'static str, usize, Op)>,
)
    requires
        call_ensures(json_minimal, (), json),
        call_ensures(core_run, (), core),
        call_ensures(std_run, (), std),
        call_ensures(format_run, (), format),
        call_ensures(math_run, (), math),
        call_ensures(regex_run, (), regex),
        call_ensures(time_run, (), time),
    ensures
        entries_are(json@, json_minimal_rows()),
        entries_are(core@, core_run_rows()),
        entries_are(std@, std_run_rows()),
        entries_are(format@, format_run_rows()),
        entries_are(math@, math_run_rows()),
        entries_are(regex@, regex_run_rows()),
        entries_are(time@, time_run_rows()),
{
    lemma_entries(json@);
    lemma_entries(core@);
    lemma_entries(std@);
    lemma_entries(format@);
    lemma_entries(math@);
    lemma_entries(regex@);
    lemma_entries(time@);
}

/// `fs` holds the entries `es`, in their order.
pub open spec fn entries_are(
    fs: Seq<(&'static str, usize, Op)>,
    es: Seq<(Seq<char>, usize, Op)>,
) -> bool {
    fs.len() == es.len() && forall|i: int|
        0 <= i < fs.len() ==> (fs[i].0@, fs[i].1, fs[i].2) == #[trigger] es[i]
}

proof fn lemma_entries(fs: Seq<(&'static str, usize, Op)>)
    ensures
        entries_are(fs, crate::filters::rows(fs)),
{
}

/// Every byte of `bs` is a space, a tab, a line feed or a carriage return.
pub open spec fn is_whitespace(bs: Seq<u8>) -> bool {
    forall|i: int|
        0 <= i < bs.len() ==> {
            ||| #[trigger] bs[i] == ' ' as u8
            ||| bs[i] == '\t' as u8
            ||| bs[i] == '\n' as u8
            ||| bs[i] == '\r' as u8
        }
}

/// `e` says that `s` is not JSON, for the reason that `d` shows.
pub open spec fn says_not_json<V: ValT, D: core::fmt::Display>(
    s: Seq<char>,
    d: D,
    e: Error<V>,
) -> bool {
    exists|t: String| #[trigger]
        vstd::string::to_string_from_display_ensures::<D>(&d, t) && says(
            e,
            "cannot parse "@ + s + " as JSON: "@ + t@,
        )
}

/// `fromjson` gives what the parser reads from the text of the string, if the parser is started
/// at the first token and only whitespace is left when it ends.
pub proof fn law_fromjson_gives_what_is_read<
    V: ValT,
    E: From<hifijson::token::Expect> + core::fmt::Display,
    P: FnOnce(hifijson::Token, &mut hifijson::SliceLexer<'_>) -> Result<V, E>,
>(op: Op, v: V, parse: P, w: V)
    requires
        named(core_list(), "fromjson"@, 0, op),
        call_ensures(run_from_json::<V, E, P>, (op, &v, parse), Ok::<V, Error<V>>(w)),
    ensures
        exists|s: &str, token: hifijson::Token, lexer: &mut hifijson::SliceLexer<'_>| #[trigger]
            call_ensures(V::as_str, (&v,), Some(s)) && #[trigger] call_ensures(
                parse,
                (token, lexer),
                Ok::<V, E>(w),
            ) && starts_at(s@, token, *lexer) && is_whitespace(unread(*final(lexer))),
{
    lemma_whitespace();
}

proof fn lemma_whitespace()
    ensures
        forall|bs: Seq<u8>| #[trigger] crate::json::is_blank(bs) <==> is_whitespace(bs),
{
    assert forall|bs: Seq<u8>| #[trigger] crate::json::is_blank(bs) <==> is_whitespace(bs) by {
        crate::json::law_blank_is_all_whitespace(bs);
    }
}

/// An error of `fromjson` says that its input is no string, or that the text is not JSON:
/// because it holds only whitespace, because the parser fails, or because more than whitespace
/// is left when the parser ends.
pub proof fn law_fromjson_fails<
    V: ValT,
    E: From<hifijson::token::Expect> + core::fmt::Display,
    P: FnOnce(hifijson::Token, &mut hifijson::SliceLexer<'_>) -> Result<V, E>,
>(op: Op, v: V, parse: P, e: Error<V>)
    requires
        named(core_list(), "fromjson"@, 0, op),
        call_ensures(run_from_json::<V, E, P>, (op, &v, parse), Err::<V, Error<V>>(e)),
    ensures
        is_no_string(Ok(v), e) || exists|s: &str, d: E| #[trigger]
            call_ensures(V::as_str, (&v,), Some(s)) && #[trigger] says_not_json(s@, d, e) && {
                ||| is_whitespace(vstd::utf8::encode_utf8(s@)) && call_ensures(
                    <E as From<hifijson::token::Expect>>::from,
                    (hifijson::token::Expect::Value,),
                    d,
                )
                ||| exists|token: hifijson::Token, lexer: &mut hifijson::SliceLexer<'_>| #[trigger]
                    call_ensures(parse, (token, lexer), Err::<V, E>(d)) && starts_at(
                        s@,
                        token,
                        *lexer,
                    )
                ||| call_ensures(
                    <E as From<hifijson::token::Expect>>::from,
                    (hifijson::token::Expect::Eof,),
                    d,
                ) && exists|token: hifijson::Token, lexer: &mut hifijson::SliceLexer<'_>, w: V|
                    #[trigger] call_ensures(parse, (token, lexer), Ok::<V, E>(w)) && starts_at(
                        s@,
                        token,
                        *lexer,
                    ) && !is_whitespace(unread(*final(lexer)))
            },
{
    lemma_whitespace();
    assert forall|s: Seq<char>, d: E| #[trigger]
        crate::json::json_failed(s, d, e) implies says_not_json(s, d, e) by {
        let problem = choose|problem: Seq<char>| #[trigger]
            crate::val::shows(d, problem) && crate::val::text_error(
                e,
                crate::json::not_json(s, problem),
            );
        let t = choose|t: String| #[trigger]
            vstd::string::to_string_from_display_ensures::<E>(&d, t) && t@ == problem;
        assert(says(e, "cannot parse "@ + s + " as JSON: "@ + t@));
    }
}

} // verus!
