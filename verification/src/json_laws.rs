//! What the filters on JSON values, numbers and timestamps mean, by their names.

use crate::dispatch::{run_convert, run_json, run_json_unary, run_round};
use crate::filters::{core_list, lemma_named, named, Op};
use crate::search::is_listed;
use crate::text::{decimal, stands_at};
use crate::text_laws::{has_text, made_of_text, wants_string};
use crate::time::{iso8601_nanos, iso8601_parsed, iso8601_seconds};
use crate::val::{alike, from_str, int_of, str_of, Error, Val, ValR2, ValT};
use vstd::prelude::*;

verus! {

/// `length` gives zero for null, the absolute value of a number, and the number of characters,
/// elements or entries. It fails on truth values.
pub proof fn law_length<
    D: FnOnce(&str) -> Option<u64>,
    K: FnOnce(&Val) -> Result<Vec<Val>, Error<Val>>,
>(op: Op, v: Val, from_dec_str: D, keys: K, r: ValR2<Val>)
    requires
        named(core_list(), "length"@, 0, op),
        call_ensures(run_json, (op, &v, from_dec_str, keys), r),
    ensures
        v is Null ==> r == Ok::<Val, Error<Val>>(Val::Int(0)),
        v is Bool ==> r is Err && r->Err_0 is Val && r->Err_0->Val_0 is Str
            && r->Err_0->Val_0->Str_0@ == (if v->Bool_0 {
            "true has no length"@
        } else {
            "false has no length"@
        }),
        v is Int && v->Int_0 > isize::MIN ==> r is Ok && r->Ok_0 is Int && r->Ok_0->Int_0 >= 0 && (
        r->Ok_0->Int_0 == v->Int_0 || r->Ok_0->Int_0 == -v->Int_0),
        v is Int && v->Int_0 == isize::MIN ==> r is Ok && r->Ok_0 is Num && r->Ok_0->Num_0@
            == decimal((-isize::MIN) as nat),
        v is Float ==> r is Ok && r->Ok_0 is Float && has_sign_cleared(v->Float_0, r->Ok_0->Float_0),
        v is Num ==> r is Ok && exists|s: &str, d: Option<u64>|
            s@ == v->Num_0@ && #[trigger] from_dec_str.ensures((s,), d) && match d {
                Some(f) => r->Ok_0 is Float && has_sign_cleared(f, r->Ok_0->Float_0),
                None => r->Ok_0 == Val::Int(0),
            },
        v is Str ==> r == Ok::<Val, Error<Val>>(Val::Int(v->Str_0@.len() as usize as isize)),
        v is Arr ==> r == Ok::<Val, Error<Val>>(Val::Int(v->Arr_0@.len() as usize as isize)),
        v is Obj ==> r == Ok::<Val, Error<Val>>(Val::Int(v->Obj_0@.len() as usize as isize)),
{
    assert(core_list()[0].0 == "length"@);
    lemma_named(0, 0, op);
    reveal_strlit("true");
    reveal_strlit("false");
    reveal_strlit(" has no length");
    reveal_strlit("true has no length");
    reveal_strlit("false has no length");
    assert("true"@ + " has no length"@ =~= "true has no length"@);
    assert("false"@ + " has no length"@ =~= "false has no length"@);
}

/// The double with the bits `b` is the one with the bits `a` without its sign,
/// which is the highest one of 64 bits.
pub open spec fn has_sign_cleared(a: u64, b: u64) -> bool {
    b < 0x8000_0000_0000_0000 && (b == a || b + 0x8000_0000_0000_0000 == a)
}

/// `keys_unsorted` gives the array of the keys of its input, in the order in which it is given them.
pub proof fn law_keys_unsorted<
    D: FnOnce(&str) -> Option<u64>,
    K: FnOnce(&Val) -> Result<Vec<Val>, Error<Val>>,
>(op: Op, v: Val, from_dec_str: D, keys: K, r: ValR2<Val>)
    requires
        named(core_list(), "keys_unsorted"@, 0, op),
        call_ensures(run_json, (op, &v, from_dec_str, keys), r),
    ensures
        match r {
            Ok(w) => w is Arr && call_ensures(
                keys,
                (&v,),
                Ok::<Vec<Val>, Error<Val>>(w->Arr_0),
            ),
            Err(e) => call_ensures(keys, (&v,), Err::<Vec<Val>, Error<Val>>(e)),
        },
{
    assert(core_list()[1].0 == "keys_unsorted"@);
    lemma_named(1, 0, op);
}

/// `contains` says whether its input contains the output of its argument.
pub proof fn law_contains<
    C: FnOnce(&Val, &Val) -> bool,
    H: FnOnce(&Val, &Val) -> Result<bool, Error<Val>>,
    E: Fn(&Val, &Val) -> bool,
>(op: Op, v: Val, y: Val, contains: C, has: H, eq: E, r: ValR2<Val>)
    requires
        named(core_list(), "contains"@, 1, op),
        call_ensures(run_json_unary, (op, &v, y, contains, has, eq), r),
    ensures
        r is Ok && r->Ok_0 is Bool && call_ensures(contains, (&v, &y), r->Ok_0->Bool_0),
{
    assert(core_list()[2].0 == "contains"@);
    lemma_named(2, 1, op);
}

/// `has` says whether its input has the output of its argument as a key.
pub proof fn law_has<
    C: FnOnce(&Val, &Val) -> bool,
    H: FnOnce(&Val, &Val) -> Result<bool, Error<Val>>,
    E: Fn(&Val, &Val) -> bool,
>(op: Op, v: Val, y: Val, contains: C, has: H, eq: E, r: ValR2<Val>)
    requires
        named(core_list(), "has"@, 1, op),
        call_ensures(run_json_unary, (op, &v, y, contains, has, eq), r),
    ensures
        match r {
            Ok(w) => w is Bool && call_ensures(
                has,
                (&v, &y),
                Ok::<bool, Error<Val>>(w->Bool_0),
            ),
            Err(e) => call_ensures(has, (&v, &y), Err::<bool, Error<Val>>(e)),
        },
{
    assert(core_list()[3].0 == "has"@);
    lemma_named(3, 1, op);
}

/// `w` is an array of the integers `ps`, which increase.
pub open spec fn is_increasing_array(ps: Seq<usize>, w: Val) -> bool {
    &&& w is Arr
    &&& w->Arr_0@.len() == ps.len()
    &&& forall|k: int| 0 <= k < ps.len() ==> #[trigger] w->Arr_0@[k] == Val::Int(ps[k] as isize)
    &&& forall|k: int, l: int| 0 <= k < l < ps.len() ==> ps[k] < ps[l]
}

/// Every element of `y` equals the one of `x` that stands as far behind `i`.
pub open spec fn equals_at<E: Fn(&Val, &Val) -> bool>(
    eq: E,
    x: Seq<Val>,
    y: Seq<Val>,
    i: int,
) -> bool {
    0 <= i && i + y.len() <= x.len() && forall|k: int|
        0 <= k < y.len() ==> call_ensures(eq, (&x[i + k], &#[trigger] y[k]), true)
}

/// Some element of `y` does not equal the one of `x` that stands as far behind `i`,
/// or there is none.
pub open spec fn differs_at<E: Fn(&Val, &Val) -> bool>(
    eq: E,
    x: Seq<Val>,
    y: Seq<Val>,
    i: int,
) -> bool {
    i + y.len() > x.len() || exists|k: int|
        0 <= k < y.len() && call_ensures(eq, (&x[i + k], &#[trigger] y[k]), false)
}

/// `w` lists the positions at which the text `y` stands in the text `x`, which is nowhere
/// if `y` is empty.
pub open spec fn lists_texts(x: Seq<char>, y: Seq<char>, w: Val) -> bool {
    exists|ps: Seq<usize>| #[trigger]
        is_increasing_array(ps, w) && forall|i: usize|
            ps.contains(i) <==> y.len() > 0 && i + y.len() <= x.len() && #[trigger] x.subrange(
                i as int,
                i + y.len(),
            ) == y
}

/// `w` lists the positions at which the elements `y` stand in `x`, which is nowhere
/// if `y` is empty.
pub open spec fn lists_arrays<E: Fn(&Val, &Val) -> bool>(
    eq: E,
    x: Seq<Val>,
    y: Seq<Val>,
    w: Val,
) -> bool {
    exists|ps: Seq<usize>| #[trigger]
        is_increasing_array(ps, w) && (y.len() == 0 ==> ps.len() == 0) && forall|i: usize|
            if #[trigger] ps.contains(i) {
                equals_at(eq, x, y, i as int)
            } else {
                i < x.len() && y.len() > 0 ==> differs_at(eq, x, y, i as int)
            }
}

/// `w` lists the positions of the elements of `x` that equal `y`.
pub open spec fn lists_elements<E: Fn(&Val, &Val) -> bool>(
    eq: E,
    x: Seq<Val>,
    y: Val,
    w: Val,
) -> bool {
    exists|ps: Seq<usize>| #[trigger]
        is_increasing_array(ps, w) && forall|i: usize|
            if #[trigger] ps.contains(i) {
                i < x.len() && call_ensures(eq, (&x[i as int], &y), true)
            } else {
                i < x.len() ==> call_ensures(eq, (&x[i as int], &y), false)
            }
}

proof fn lemma_listed(ps: Seq<usize>, i: usize)
    ensures
        ps.contains(i) <==> is_listed(ps, i as int),
{
    if is_listed(ps, i as int) {
        let k = choose|k: int| 0 <= k < ps.len() && #[trigger] ps[k] == i;
        assert(ps.contains(i));
    }
    if ps.contains(i) {
        let k = ps.index_of(i);
        assert(ps[k] == i);
    }
}

/// `indices` gives the positions at which the output of its argument stands in its input,
/// in increasing order. It fails unless both are strings or its input is an array.
pub proof fn law_indices<
    C: FnOnce(&Val, &Val) -> bool,
    H: FnOnce(&Val, &Val) -> Result<bool, Error<Val>>,
    E: Fn(&Val, &Val) -> bool,
>(op: Op, v: Val, y: Val, contains: C, has: H, eq: E, r: ValR2<Val>)
    requires
        named(core_list(), "indices"@, 1, op),
        call_ensures(run_json_unary, (op, &v, y, contains, has, eq), r),
    ensures
        v is Str && y is Str ==> r is Ok && lists_texts(v->Str_0@, y->Str_0@, r->Ok_0),
        v is Arr && y is Arr ==> r is Ok && lists_arrays(eq, v->Arr_0@, y->Arr_0@, r->Ok_0),
        v is Arr && !(y is Arr) ==> r is Ok && lists_elements(eq, v->Arr_0@, y, r->Ok_0),
        !(v is Arr) && !(v is Str && y is Str) ==> r is Err && r->Err_0 is Index && alike(
            v,
            r->Err_0->Index_0,
        ) && alike(y, r->Err_0->Index_1),
{
    assert(core_list()[4].0 == "indices"@);
    lemma_named(4, 1, op);
    if r is Ok {
        let ps = choose|ps: Seq<usize>| #[trigger]
            crate::search::found(eq, v, y, Ok(ps)) && crate::natives::is_int_array(ps, r->Ok_0);
        assert forall|i: usize| #[trigger] ps.contains(i) <==> is_listed(ps, i as int) by {
            lemma_listed(ps, i);
        }
        assert forall|i: usize| ps.contains(i) implies exists|k: int|
            0 <= k < ps.len() && #[trigger] ps[k] == i by {
            let k = ps.index_of(i);
            assert(ps[k] == i);
        }
        if v is Str && y is Str {
            let (s, t) = (v->Str_0@, y->Str_0@);
            assert(is_increasing_array(ps, r->Ok_0));
            assert forall|i: usize|
                ps.contains(i) <==> t.len() > 0 && i + t.len() <= s.len() && #[trigger] s.subrange(
                    i as int,
                    i + t.len(),
                ) == t by {
                lemma_listed(ps, i);
                if ps.contains(i) {
                    assert(stands_at(s, t, i as int));
                } else if t.len() > 0 && i < s.len() {
                    assert(!is_listed(ps, i as int));
                    assert(!stands_at(s, t, i as int));
                }
            }
        } else if v is Arr && y is Arr {
            let (s, t) = (v->Arr_0@, y->Arr_0@);
            assert(is_increasing_array(ps, r->Ok_0));
            assert forall|i: usize|
                if #[trigger] ps.contains(i) {
                    equals_at(eq, s, t, i as int)
                } else {
                    i < s.len() && t.len() > 0 ==> differs_at(eq, s, t, i as int)
                } by {
                lemma_listed(ps, i);
                if ps.contains(i) {
                    assert(crate::search::window_matches(eq, s, t, i as int));
                } else if i < s.len() && t.len() > 0 {
                    assert(crate::search::window_differs(eq, s, t, i as int));
                }
            }
        } else {
            let s = v->Arr_0@;
            assert(is_increasing_array(ps, r->Ok_0));
            assert forall|i: usize|
                if #[trigger] ps.contains(i) {
                    i < s.len() && call_ensures(eq, (&s[i as int], &y), true)
                } else {
                    i < s.len() ==> call_ensures(eq, (&s[i as int], &y), false)
                } by {
                lemma_listed(ps, i);
            }
        }
    }
}

/// `r` is `v` if it is an integer, and else what `f` gives for it.
pub open spec fn rounds_by<V: ValT, F: FnOnce(&V) -> ValR2<V>>(v: V, f: F, r: ValR2<V>) -> bool {
    ||| call_ensures(V::as_isize, (&v,), None::<isize>) && call_ensures(f, (&v,), r)
    ||| r == Ok::<V, Error<V>>(v) && exists|i: isize| #[trigger]
        call_ensures(V::as_isize, (&v,), Some(i))
}

proof fn lemma_rounds_by<V: ValT, F: FnOnce(&V) -> ValR2<V>>(v: V, f: F, r: ValR2<V>)
    requires
        crate::val::rounded(v, f, r),
    ensures
        rounds_by(v, f, r),
{
    let i = choose|i: Option<isize>| #[trigger]
        int_of(v, i) && match i {
            Some(_) => r == Ok::<V, Error<V>>(v),
            None => call_ensures(f, (&v,), r),
        };
    if i is Some {
        assert(call_ensures(V::as_isize, (&v,), Some(i->0)));
    }
}

/// `floor`, `round` and `ceil` leave integers as they are, and round other numbers down,
/// to the nearest number, and up.
pub proof fn law_rounding<
    V: ValT,
    F: FnOnce(&V) -> ValR2<V>,
    R: FnOnce(&V) -> ValR2<V>,
    C: FnOnce(&V) -> ValR2<V>,
>(op: Op, v: V, floor: F, round: R, ceil: C, r: ValR2<V>)
    requires
        call_ensures(run_round, (op, v, floor, round, ceil), r),
    ensures
        named(core_list(), "floor"@, 0, op) ==> rounds_by(v, floor, r),
        named(core_list(), "round"@, 0, op) ==> rounds_by(v, round, r),
        named(core_list(), "ceil"@, 0, op) ==> rounds_by(v, ceil, r),
{
    assert(core_list()[7].0 == "floor"@);
    assert(core_list()[8].0 == "round"@);
    assert(core_list()[9].0 == "ceil"@);
    if named(core_list(), "floor"@, 0, op) {
        lemma_named(7, 0, op);
        lemma_rounds_by(v, floor, r);
    }
    if named(core_list(), "round"@, 0, op) {
        lemma_named(8, 0, op);
        lemma_rounds_by(v, round, r);
    }
    if named(core_list(), "ceil"@, 0, op) {
        lemma_named(9, 0, op);
        lemma_rounds_by(v, ceil, r);
    }
}

/// `w` is a string with the text `s`.
pub open spec fn is_string_of<V: ValT>(s: Seq<char>, w: V) -> bool {
    exists|t: String| t@ == s && #[trigger] made_of_text(t, w)
}

proof fn lemma_string_of<V: ValT>(s: Seq<char>, w: V)
    requires
        from_str(s, w),
    ensures
        is_string_of(s, w),
{
    let t = choose|t: String|
        t@ == s && #[trigger] call_ensures(<V as From<String>>::from, (t,), w);
    assert(made_of_text(t, w));
}

/// `tojson` gives a string with the text that its input is shown as.
pub proof fn law_tojson<
    V: ValT,
    S: FnOnce(&V) -> String,
    F: FnOnce(i64, u32) -> V,
    N: FnOnce(&V) -> Result<i128, Error<V>>,
>(op: Op, v: V, show: S, fractional: F, nanos: N, r: ValR2<V>)
    requires
        named(core_list(), "tojson"@, 0, op),
        call_ensures(run_convert, (op, &v, show, fractional, nanos), r),
    ensures
        r is Ok && exists|t: String| #[trigger]
            call_ensures(show, (&v,), t) && is_string_of(t@, r->Ok_0),
{
    assert(core_list()[6].0 == "tojson"@);
    lemma_named(6, 0, op);
    let t = choose|t: String| #[trigger]
        call_ensures(show, (&v,), t) && from_str(t@, r->Ok_0);
    lemma_string_of(t@, r->Ok_0);
}

/// `e` is an error whose payload is a string with the text `s`.
pub open spec fn is_error_of<V: ValT>(s: Seq<char>, e: Error<V>) -> bool {
    e is Val && is_string_of(s, e->Val_0)
}

/// `r` is the number for the text `s`: an integer if there is no decimal sign in it,
/// a fraction otherwise, and an error if it is no timestamp.
pub open spec fn is_timestamp_of<V: ValT, F: FnOnce(i64, u32) -> V>(
    s: Seq<char>,
    fractional: F,
    r: ValR2<V>,
) -> bool {
    match iso8601_parsed(s) {
        Err(problem) => r is Err && is_error_of(
            "cannot parse "@ + s + " as ISO-8601 timestamp: "@ + problem,
            r->Err_0,
        ),
        Ok((seconds, nanos)) => if exists|i: int|
            0 <= i < s.len() && (#[trigger] s[i] == '.' || s[i] == ',') {
            r is Ok && call_ensures(fractional, (seconds, nanos), r->Ok_0)
        } else if isize::MIN <= seconds <= isize::MAX {
            r is Ok && call_ensures(<V as From<isize>>::from, (seconds as isize,), r->Ok_0)
        } else {
            exists|t: &str|
                t@ == (if seconds < 0 {
                    "-"@ + decimal((-seconds) as nat)
                } else {
                    decimal(seconds as nat)
                }) && #[trigger] call_ensures(V::from_num, (t,), r)
        },
    }
}

/// `fromdateiso8601` gives the number for the timestamp that its input is.
pub proof fn law_fromdateiso8601<
    V: ValT,
    S: FnOnce(&V) -> String,
    F: FnOnce(i64, u32) -> V,
    N: FnOnce(&V) -> Result<i128, Error<V>>,
>(op: Op, v: V, show: S, fractional: F, nanos: N, r: ValR2<V>)
    requires
        named(core_list(), "fromdateiso8601"@, 0, op),
        call_ensures(run_convert, (op, &v, show, fractional, nanos), r),
    ensures
        (r is Err && wants_string(v, r->Err_0)) || exists|s: &str| #[trigger]
            has_text(v, s) && is_timestamp_of(s@, fractional, r),
{
    assert(core_list()[93].0 == "fromdateiso8601"@);
    lemma_named(93, 0, op);
    if r is Err && crate::val::not_str(v, r->Err_0) {
        crate::text_laws::lemma_wants_string(v, r->Err_0);
    } else {
        let s = choose|s: Seq<char>| #[trigger]
            str_of(v, Some(s)) && crate::time::timestamp_read(s, iso8601_parsed(s), fractional, r);
        let t = crate::text_laws::lemma_text(v, s);
        assert(has_text(v, t));
        match iso8601_parsed(s) {
            Err(problem) => {
                lemma_string_of(crate::time::no_timestamp(s, problem), r->Err_0->Val_0);
            },
            Ok((seconds, nanos)) => {
                if crate::time::has_fraction(s) {
                    if s.contains('.') {
                        let i = s.index_of('.');
                        assert(s[i] == '.');
                    } else {
                        let i = s.index_of(',');
                        assert(s[i] == ',');
                    }
                } else {
                    assert forall|i: int| 0 <= i < s.len() implies #[trigger] s[i] != '.' && s[i]
                        != ',' by {
                        assert(s.contains(s[i]));
                    }
                }
            },
        }
    }
}

/// `r` is the timestamp that was written for `v`, or an error that says why there is none.
pub open spec fn is_written<V: ValT, S: FnOnce(&V) -> String>(
    v: V,
    written: Result<Seq<char>, Seq<char>>,
    show: S,
    r: ValR2<V>,
) -> bool {
    match written {
        Ok(t) => r is Ok && is_string_of(t, r->Ok_0),
        Err(problem) => r is Err && exists|shown: String| #[trigger]
            call_ensures(show, (&v,), shown) && is_error_of(
                "cannot format "@ + shown@ + " as ISO-8601 timestamp: "@ + problem,
                r->Err_0,
            ),
    }
}

/// `todateiso8601` gives the timestamp for its input: for as many seconds as it says
/// if it is an integer, and for as many nanoseconds as it is taken for otherwise.
/// There is one exactly for the years from 0 to 9999.
pub proof fn law_todateiso8601<
    V: ValT,
    S: FnOnce(&V) -> String,
    F: FnOnce(i64, u32) -> V,
    N: FnOnce(&V) -> Result<i128, Error<V>>,
>(op: Op, v: V, show: S, fractional: F, nanos: N, r: ValR2<V>)
    requires
        named(core_list(), "todateiso8601"@, 0, op),
        call_ensures(run_convert, (op, &v, show, fractional, nanos), r),
    ensures
        (exists|i: isize| #[trigger]
            call_ensures(V::as_isize, (&v,), Some(i)) && is_written(
                v,
                iso8601_seconds(i as i64),
                show,
                r,
            ) && (r is Ok <==> -62_167_219_200 <= i <= 253_402_300_799)) || (call_ensures(
            V::as_isize,
            (&v,),
            None::<isize>,
        ) && exists|n: Result<i128, Error<V>>| #[trigger]
            call_ensures(nanos, (&v,), n) && match n {
                Ok(n) => is_written(v, iso8601_nanos(n), show, r) && (r is Ok <==> -62_167_219_200
                    <= n as int / 1_000_000_000 <= 253_402_300_799),
                Err(e) => r == Err::<V, Error<V>>(e),
            }),
{
    assert(core_list()[94].0 == "todateiso8601"@);
    lemma_named(94, 0, op);
    let text: Result<String, Error<V>> = if r is Ok {
        Ok(
            choose|t: String| #[trigger]
                crate::time::iso8601_written(v, nanos, show, Ok(t)) && from_str(t@, r->Ok_0),
        )
    } else {
        Err(r->Err_0)
    };
    assert(crate::time::iso8601_written(v, nanos, show, text));
    if r is Ok {
        lemma_string_of(text->Ok_0@, r->Ok_0);
    }
    if exists|i: isize| #[trigger]
        int_of(v, Some(i)) && crate::time::integer_written(v, i, show, text) {
        let i = choose|i: isize| #[trigger]
            int_of(v, Some(i)) && crate::time::integer_written(v, i, show, text);
        lemma_is_written(v, iso8601_seconds(i as i64), show, text, r);
        assert(call_ensures(V::as_isize, (&v,), Some(i)));
    } else {
        let n = choose|n: Result<i128, Error<V>>| #[trigger]
            call_ensures(nanos, (&v,), n) && crate::time::nanos_written(v, n, show, text);
        match n {
            Ok(m) => {
                lemma_is_written(v, iso8601_nanos(m), show, text, r);
            },
            Err(e) => {},
        }
    }
}

proof fn lemma_is_written<V: ValT, S: FnOnce(&V) -> String>(
    v: V,
    written: Result<Seq<char>, Seq<char>>,
    show: S,
    text: Result<String, Error<V>>,
    r: ValR2<V>,
)
    requires
        crate::time::timestamp_written(v, written, show, text),
        match text {
            Ok(t) => r is Ok && is_string_of(t@, r->Ok_0),
            Err(e) => r == Err::<V, Error<V>>(e),
        },
    ensures
        is_written(v, written, show, r),
{
    if written is Err {
        let problem = written->Err_0;
        let e = text->Err_0;
        let shown = choose|shown: String| #[trigger]
            call_ensures(show, (&v,), shown) && crate::val::text_error(
                e,
                crate::time::no_timestamp_text(shown@, problem),
            );
        lemma_string_of(crate::time::no_timestamp_text(shown@, problem), e->Val_0);
    }
}

} // verus!
