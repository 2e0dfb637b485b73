//! Matching strings against regular expressions.

use crate::sort::{fails_after, first_failure, keyed, keys_of};
use crate::val::{from_str, not_str, text_error, Error, ValR2, ValT, ValTx};
use vstd::prelude::*;
use vstd::string::StringExecFns;

verus! {

/// Part of a text that has been matched against a regular expression.
pub enum Part<M> {
    /// what matched: the whole match, then its groups
    Matches(Vec<M>),
    /// the text between two matches
    Mismatch(String),
}

/// `w` is the array of the values that `f` gives for the matches `ms`.
pub open spec fn matches_array<V: ValT, M, F: Fn(&M) -> ValR2<V>>(f: F, ms: Seq<M>, w: V) -> bool {
    exists|vs: Vec<V>| #[trigger] call_ensures(V::from_seq, (vs,), w) && keyed(f, ms, vs@)
}

/// `r` is the value for a part: an array for matches, a string for what lies between them.
pub open spec fn part_gives<V: ValT, M, F: Fn(&M) -> ValR2<V>>(
    f: F,
    part: Part<M>,
    r: ValR2<V>,
) -> bool {
    match part {
        Part::Matches(ms) => match r {
            Ok(w) => matches_array(f, ms@, w),
            Err(e) => first_failure(f, ms@, e),
        },
        Part::Mismatch(s) => r matches Ok(w) && from_str(s@, w),
    }
}

/// The value for a part.
fn part_value<V: ValT, M, F: Fn(&M) -> ValR2<V>>(part: &Part<M>, f: &F) -> (r: ValR2<V>)
    requires
        forall|m: &M| #[trigger] call_requires(*f, (m,)),
    ensures
        part_gives(*f, *part, r),
{
    match part {
        Part::Matches(ms) => match keys_of(ms, f) {
            Ok(vs) => {
                let w = V::from_seq(vs);
                assert(matches_array(*f, ms@, w));
                Ok(w)
            },
            Err(e) => Err(e),
        },
        Part::Mismatch(s) => {
            let w = V::from(s.clone());
            assert(from_str(s@, w));
            Ok(w)
        },
    }
}

/// `vs` are the values for `parts`.
pub open spec fn parts_give<V: ValT, M, F: Fn(&M) -> ValR2<V>>(
    f: F,
    parts: Seq<Part<M>>,
    vs: Seq<V>,
) -> bool {
    &&& vs.len() == parts.len()
    &&& forall|k: int| 0 <= k < parts.len() ==> part_gives(f, #[trigger] parts[k], Ok(vs[k]))
}

/// `w` is the array of the values for `parts`.
pub open spec fn parts_array<V: ValT, M, F: Fn(&M) -> ValR2<V>>(
    f: F,
    parts: Seq<Part<M>>,
    w: V,
) -> bool {
    exists|vs: Vec<V>| #[trigger] call_ensures(V::from_seq, (vs,), w) && parts_give(f, parts, vs@)
}

/// One of `parts` gives the error `e`, and those before it give values.
pub open spec fn parts_fail<V: ValT, M, F: Fn(&M) -> ValR2<V>>(
    f: F,
    parts: Seq<Part<M>>,
    e: Error<V>,
) -> bool {
    exists|vs: Seq<V>|
        vs.len() < parts.len() && #[trigger] parts_give(f, parts.take(vs.len() as int), vs)
            && part_gives(f, parts[vs.len() as int], Err(e))
}

/// The array of the values for the parts of a text, which `f` gives for a match.
pub fn parts_value<V: ValT, M, F: Fn(&M) -> ValR2<V>>(parts: &Vec<Part<M>>, f: &F) -> (r: ValR2<V>)
    requires
        forall|m: &M| #[trigger] call_requires(*f, (m,)),
    ensures
        match r {
            Ok(w) => parts_array(*f, parts@, w),
            Err(e) => parts_fail(*f, parts@, e),
        },
{
    let mut vs: Vec<V> = Vec::with_capacity(parts.len());
    for k in 0..parts.len()
        invariant
            forall|m: &M| #[trigger] call_requires(*f, (m,)),
            parts_give(*f, parts@.take(k as int), vs@),
    {
        match part_value(&parts[k], f) {
            Ok(v) => {
                vs.push(v);
            },
            Err(e) => {
                assert(parts_give(*f, parts@.take(vs@.len() as int), vs@));
                assert(parts_fail(*f, parts@, e));
                return Err(e);
            },
        }
    }
    assert(parts@.take(parts@.len() as int) =~= parts@);
    let w = V::from_seq(vs);
    assert(parts_array(*f, parts@, w));
    Ok(w)
}

/// `g` are the flags that `new_flags` reads from the string `flags`.
pub open spec fn flags_are<V: ValT, G, N: FnOnce(&str) -> Result<G, String>>(
    flags: ValR2<V>,
    new_flags: N,
    g: G,
) -> bool {
    flags matches Ok(f) && exists|s: &str| #[trigger]
        call_ensures(V::as_str, (&f,), Some(s)) && call_ensures(
            new_flags,
            (s,),
            Ok::<G, String>(g),
        )
}

/// `e` says why `flags` are no flags: it is an error, no string, or a string with no flag in it.
pub open spec fn flags_fail<V: ValT, G, N: FnOnce(&str) -> Result<G, String>>(
    flags: ValR2<V>,
    new_flags: N,
    e: Error<V>,
) -> bool {
    match flags {
        Err(d) => e == d,
        Ok(f) => not_str(f, e) || exists|s: &str, problem: String| #[trigger]
            call_ensures(V::as_str, (&f,), Some(s)) && #[trigger] call_ensures(
                new_flags,
                (s,),
                Err::<G, String>(problem),
            ) && text_error(e, "invalid regex flag: "@ + problem@),
    }
}

/// Reads flags.
fn read_flags<V: ValT, G, N: FnOnce(&str) -> Result<G, String>>(
    flags: ValR2<V>,
    new_flags: N,
) -> (r: Result<G, Error<V>>)
    requires
        forall|s: &str| #[trigger] call_requires(new_flags, (s,)),
    ensures
        match r {
            Ok(g) => flags_are(flags, new_flags, g),
            Err(e) => flags_fail(flags, new_flags, e),
        },
{
    let f = match flags {
        Ok(f) => f,
        Err(e) => {
            return Err(e);
        },
    };
    match f.try_as_str() {
        Ok(s) => match new_flags(s) {
            Ok(g) => Ok(g),
            Err(problem) => Err(
                Error::str("invalid regex flag: ".to_owned().concat(problem.as_str())),
            ),
        },
        Err(e) => Err(e),
    }
}

/// `x` is the regular expression that `compile` makes of the string `re` with the flags `g`.
pub open spec fn regex_is<V: ValT, G, R, C: FnOnce(&G, &str) -> Result<R, String>>(
    re: ValR2<V>,
    g: G,
    compile: C,
    x: R,
) -> bool {
    re matches Ok(v) && exists|s: &str| #[trigger]
        call_ensures(V::as_str, (&v,), Some(s)) && call_ensures(
            compile,
            (&g, s),
            Ok::<R, String>(x),
        )
}

/// `e` says why `re` is no regular expression: it is an error, no string, or not well-formed.
pub open spec fn regex_fails<V: ValT, G, R, C: FnOnce(&G, &str) -> Result<R, String>>(
    re: ValR2<V>,
    g: G,
    compile: C,
    e: Error<V>,
) -> bool {
    match re {
        Err(d) => e == d,
        Ok(v) => not_str(v, e) || exists|s: &str, problem: String| #[trigger]
            call_ensures(V::as_str, (&v,), Some(s)) && #[trigger] call_ensures(
                compile,
                (&g, s),
                Err::<R, String>(problem),
            ) && text_error(e, "invalid regex: "@ + problem@),
    }
}

/// Reads a regular expression.
fn read_regex<V: ValT, G, R, C: FnOnce(&G, &str) -> Result<R, String>>(
    re: ValR2<V>,
    g: &G,
    compile: C,
) -> (r: Result<R, Error<V>>)
    requires
        forall|g: &G, s: &str| #[trigger] call_requires(compile, (g, s)),
    ensures
        match r {
            Ok(x) => regex_is(re, *g, compile, x),
            Err(e) => regex_fails(re, *g, compile, e),
        },
{
    let v = match re {
        Ok(v) => v,
        Err(e) => {
            return Err(e);
        },
    };
    match v.try_as_str() {
        Ok(s) => match compile(g, s) {
            Ok(x) => Ok(x),
            Err(problem) => Err(
                Error::str("invalid regex: ".to_owned().concat(problem.as_str())),
            ),
        },
        Err(e) => Err(e),
    }
}

/// `r` is made of the parts that `find` finds in the string `input`, or says that it is no string.
pub open spec fn found_parts<
    V: ValT,
    G,
    R,
    M,
    X: FnOnce(&str, &R, G, (bool, bool)) -> Vec<Part<M>>,
    F: Fn(&M) -> ValR2<V>,
>(input: V, x: R, g: G, sm: (bool, bool), find: X, f: F, r: ValR2<V>) -> bool {
    ||| r matches Err(e) && not_str(input, e)
    ||| exists|s: &str, parts: Vec<Part<M>>| #[trigger]
        call_ensures(V::as_str, (&input,), Some(s)) && #[trigger] call_ensures(
            find,
            (s, &x, g, sm),
            parts,
        ) && match r {
            Ok(w) => parts_array(f, parts@, w),
            Err(e) => parts_fail(f, parts@, e),
        }
}

/// `r` is what matching gives once the flags `g` have been read.
pub open spec fn matched_with<
    V: ValT,
    G,
    R,
    M,
    C: FnOnce(&G, &str) -> Result<R, String>,
    X: FnOnce(&str, &R, G, (bool, bool)) -> Vec<Part<M>>,
    F: Fn(&M) -> ValR2<V>,
>(
    re: ValR2<V>,
    g: G,
    input: V,
    sm: (bool, bool),
    compile: C,
    find: X,
    f: F,
    r: ValR2<V>,
) -> bool {
    ||| r matches Err(e) && regex_fails(re, g, compile, e)
    ||| exists|x: R| #[trigger]
        regex_is(re, g, compile, x) && found_parts(input, x, g, sm, find, f, r)
}

/// `r` is what matching gives.
pub open spec fn matched<
    V: ValT,
    G,
    R,
    M,
    N: FnOnce(&str) -> Result<G, String>,
    C: FnOnce(&G, &str) -> Result<R, String>,
    X: FnOnce(&str, &R, G, (bool, bool)) -> Vec<Part<M>>,
    F: Fn(&M) -> ValR2<V>,
>(
    re: ValR2<V>,
    flags: ValR2<V>,
    input: V,
    sm: (bool, bool),
    new_flags: N,
    compile: C,
    find: X,
    f: F,
    r: ValR2<V>,
) -> bool {
    ||| r matches Err(e) && flags_fail(flags, new_flags, e)
    ||| exists|g: G| #[trigger]
        flags_are(flags, new_flags, g) && matched_with(re, g, input, sm, compile, find, f, r)
}

/// Match the string `input` against the regular expression `pattern` with `flags`.
///
/// The first of `sm` asks for the text between matches, the second one for the matches.
/// Flags are read by `new_flags`, then the regular expression is made by `compile`,
/// then `find` finds the parts of the string, and `f` gives the value for a match.
pub fn re<
    V: ValT,
    G,
    R,
    M,
    N: FnOnce(&str) -> Result<G, String>,
    C: FnOnce(&G, &str) -> Result<R, String>,
    X: FnOnce(&str, &R, G, (bool, bool)) -> Vec<Part<M>>,
    F: Fn(&M) -> ValR2<V>,
>(
    pattern: ValR2<V>,
    flags: ValR2<V>,
    input: &V,
    sm: (bool, bool),
    new_flags: N,
    compile: C,
    find: X,
    f: F,
) -> (r: ValR2<V>)
    requires
        forall|s: &str| #[trigger] call_requires(new_flags, (s,)),
        forall|g: &G, s: &str| #[trigger] call_requires(compile, (g, s)),
        forall|s: &str, x: &R, g: G, sm: (bool, bool)| #[trigger]
            call_requires(find, (s, x, g, sm)),
        forall|m: &M| #[trigger] call_requires(f, (m,)),
    ensures
        matched(pattern, flags, *input, sm, new_flags, compile, find, f, r),
{
    let g = match read_flags(flags, new_flags) {
        Ok(g) => g,
        Err(e) => {
            return Err(e);
        },
    };
    let x = match read_regex(pattern, &g, compile) {
        Ok(x) => x,
        Err(e) => {
            let r = Err(e);
            assert(matched_with(pattern, g, *input, sm, compile, find, f, r));
            return r;
        },
    };
    let ghost flags_read = g;
    let r = match input.try_as_str() {
        Ok(s) => {
            let parts = find(s, &x, g, sm);
            parts_value(&parts, &f)
        },
        Err(e) => Err(e),
    };
    assert(found_parts(*input, x, flags_read, sm, find, f, r));
    assert(matched_with(pattern, flags_read, *input, sm, compile, find, f, r));
    r
}

/// `f` gives a value for `m`.
pub open spec fn gives_a_value<V: ValT, M, F: Fn(&M) -> ValR2<V>>(f: F, m: M) -> bool {
    exists|v: V| #[trigger] call_ensures(f, (&m,), Ok::<V, Error<V>>(v))
}

/// A part has a value.
pub open spec fn has_a_value<V: ValT, M, F: Fn(&M) -> ValR2<V>>(f: F, part: Part<M>) -> bool {
    exists|v: V| #[trigger] part_gives(f, part, Ok(v))
}

/// The value for matches is an array with one element for each of them, in their order:
/// its element `i` is what `f` gives for the match `i`, and so its first one is for the whole match.
/// The error, if there is one, is that of the first match for which `f` fails.
pub proof fn law_matches_keep_their_order<V: ValT, M, F: Fn(&M) -> ValR2<V>>(
    f: F,
    ms: Vec<M>,
    r: ValR2<V>,
)
    requires
        part_gives(f, Part::Matches(ms), r),
    ensures
        r is Ok ==> exists|vs: Vec<V>| #[trigger]
            call_ensures(V::from_seq, (vs,), r->Ok_0) && vs@.len() == ms@.len() && forall|i: int|
                0 <= i < ms@.len() ==> call_ensures(f, (&ms@[i],), Ok::<V, Error<V>>(#[trigger] vs@[i])),
        r is Err ==> exists|n: int|
            0 <= n < ms@.len() && call_ensures(
                f,
                (&#[trigger] ms@[n],),
                Err::<V, Error<V>>(r->Err_0),
            ) && forall|i: int|
                0 <= i < n ==> gives_a_value(f, #[trigger] ms@[i]),
{
    if r is Err {
        let vs = choose|vs: Seq<V>| #[trigger] fails_after(f, ms@, vs, r->Err_0);
        let n = vs.len() as int;
        assert(call_ensures(f, (&ms@[n],), Err::<V, Error<V>>(r->Err_0)));
        assert forall|i: int| 0 <= i < n implies gives_a_value(f, #[trigger] ms@[i]) by {
            assert(ms@.take(n)[i] == ms@[i]);
            assert(call_ensures(f, (&ms@.take(n)[i],), Ok::<V, Error<V>>(vs[i])));
        }
    }
}

/// The value for the text between two matches is a string with that text.
pub proof fn law_text_between_matches_is_kept<V: ValT, M, F: Fn(&M) -> ValR2<V>>(
    f: F,
    s: String,
    r: ValR2<V>,
)
    requires
        part_gives(f, Part::Mismatch(s), r),
    ensures
        r is Ok && exists|t: String|
            t@ == s@ && #[trigger] call_ensures(<V as From<String>>::from, (t,), r->Ok_0),
{
}

/// The value for the parts of a text is an array with one element for each of them, in their order.
/// The error, if there is one, is that of the first part that gives one.
pub proof fn law_parts_keep_their_order<V: ValT, M, F: Fn(&M) -> ValR2<V>>(
    f: F,
    parts: Seq<Part<M>>,
    w: V,
    e: Error<V>,
)
    ensures
        parts_array(f, parts, w) ==> exists|vs: Vec<V>| #[trigger]
            call_ensures(V::from_seq, (vs,), w) && vs@.len() == parts.len() && forall|i: int|
                0 <= i < parts.len() ==> part_gives(f, parts[i], Ok(#[trigger] vs@[i])),
        parts_fail(f, parts, e) ==> exists|n: int|
            0 <= n < parts.len() && part_gives(f, #[trigger] parts[n], Err(e)) && forall|i: int|
                0 <= i < n ==> has_a_value(f, #[trigger] parts[i]),
{
    if parts_array(f, parts, w) {
        let vs = choose|vs: Vec<V>| #[trigger]
            call_ensures(V::from_seq, (vs,), w) && parts_give(f, parts, vs@);
        assert forall|i: int| 0 <= i < parts.len() implies part_gives(
            f,
            parts[i],
            Ok(#[trigger] vs@[i]),
        ) by {
            let _ = parts[i];
        }
    }
    if parts_fail(f, parts, e) {
        let vs = choose|vs: Seq<V>|
            vs.len() < parts.len() && #[trigger] parts_give(f, parts.take(vs.len() as int), vs)
                && part_gives(f, parts[vs.len() as int], Err(e));
        let n = vs.len() as int;
        assert forall|i: int| 0 <= i < n implies has_a_value(f, #[trigger] parts[i]) by {
            assert(parts.take(n)[i] == parts[i]);
            assert(part_gives(f, parts.take(n)[i], Ok(vs[i])));
        }
        assert(part_gives(f, parts[n], Err(e)));
    }
}

/// `v` is a string with the text `s`.
pub open spec fn is_string<V: ValT>(v: V, s: &str) -> bool {
    call_ensures(V::as_str, (&v,), Some(s))
}

/// If the flags, the regular expression and the input are strings, the flags are flags and
/// the regular expression is well-formed, then the value is that of the parts that are found
/// in the input with what is asked for.
pub proof fn law_match_gives_the_parts<
    V: ValT,
    G,
    R,
    M,
    N: FnOnce(&str) -> Result<G, String>,
    C: FnOnce(&G, &str) -> Result<R, String>,
    X: FnOnce(&str, &R, G, (bool, bool)) -> Vec<Part<M>>,
    F: Fn(&M) -> ValR2<V>,
>(
    re: ValR2<V>,
    flags: ValR2<V>,
    input: V,
    sm: (bool, bool),
    new_flags: N,
    compile: C,
    find: X,
    f: F,
    w: V,
)
    requires
        call_ensures(
            crate::regex::re,
            (re, flags, &input, sm, new_flags, compile, find, f),
            Ok::<V, Error<V>>(w),
        ),
    ensures
        flags is Ok,
        re is Ok,
        exists|a: &str, b: &str, s: &str, g: G, x: R, parts: Vec<Part<M>>|
            is_string(flags->Ok_0, a) && is_string(re->Ok_0, b) && is_string(input, s)
                && #[trigger] call_ensures(new_flags, (a,), Ok::<G, String>(g))
                && #[trigger] call_ensures(compile, (&g, b), Ok::<R, String>(x))
                && #[trigger] call_ensures(find, (s, &x, g, sm), parts) && parts_array(
                f,
                parts@,
                w,
            ),
{
    let g = choose|g: G| #[trigger]
        flags_are(flags, new_flags, g) && matched_with(
            re,
            g,
            input,
            sm,
            compile,
            find,
            f,
            Ok(w),
        );
    let x = choose|x: R| #[trigger]
        regex_is(re, g, compile, x) && found_parts(input, x, g, sm, find, f, Ok(w));
    let a = choose|a: &'static str| #[trigger]
        call_ensures(V::as_str, (&flags->Ok_0,), Some(a)) && call_ensures(
            new_flags,
            (a,),
            Ok::<G, String>(g),
        );
    let b = choose|b: &'static str| #[trigger]
        call_ensures(V::as_str, (&re->Ok_0,), Some(b)) && call_ensures(
            compile,
            (&g, b),
            Ok::<R, String>(x),
        );
    let (s, parts) = choose|s: &'static str, parts: Vec<Part<M>>| #[trigger]
        call_ensures(V::as_str, (&input,), Some(s)) && #[trigger] call_ensures(
            find,
            (s, &x, g, sm),
            parts,
        ) && parts_array(f, parts@, w);
    assert(is_string(flags->Ok_0, a) && is_string(re->Ok_0, b) && is_string(input, s));
}

/// What is wrong with the flags is said before what is wrong with the regular expression.
pub proof fn law_flags_fail_first<
    V: ValT,
    G,
    R,
    M,
    N: FnOnce(&str) -> Result<G, String>,
    C: FnOnce(&G, &str) -> Result<R, String>,
    X: FnOnce(&str, &R, G, (bool, bool)) -> Vec<Part<M>>,
    F: Fn(&M) -> ValR2<V>,
>(
    re: ValR2<V>,
    flags: ValR2<V>,
    input: V,
    sm: (bool, bool),
    new_flags: N,
    compile: C,
    find: X,
    f: F,
    r: ValR2<V>,
)
    requires
        call_ensures(
            crate::regex::re,
            (re, flags, &input, sm, new_flags, compile, find, f),
            r,
        ),
    ensures
        flags is Err ==> r is Err && r->Err_0 == flags->Err_0,
        flags is Ok && (forall|o: Option<&str>| #[trigger]
            call_ensures(V::as_str, (&flags->Ok_0,), o) ==> o is None) ==> r is Err && r->Err_0
            is Type && r->Err_0->Type_1 == crate::val::Type::Str && cloned(
            flags->Ok_0,
            r->Err_0->Type_0,
        ),
        flags is Ok && (forall|s: &str, g: Result<G, String>| #[trigger]
            call_ensures(new_flags, (s,), g) ==> g is Err) ==> r is Err,
{
}

/// What is wrong with the regular expression is said before what is wrong with the input.
pub proof fn law_regex_fails_before_input<
    V: ValT,
    G,
    R,
    M,
    C: FnOnce(&G, &str) -> Result<R, String>,
    X: FnOnce(&str, &R, G, (bool, bool)) -> Vec<Part<M>>,
    F: Fn(&M) -> ValR2<V>,
>(
    re: ValR2<V>,
    g: G,
    input: V,
    sm: (bool, bool),
    compile: C,
    find: X,
    f: F,
    r: ValR2<V>,
)
    requires
        matched_with(re, g, input, sm, compile, find, f, r),
    ensures
        re is Err ==> r is Err && r->Err_0 == re->Err_0,
        re is Ok && (forall|o: Option<&str>| #[trigger]
            call_ensures(V::as_str, (&re->Ok_0,), o) ==> o is None) ==> r is Err && r->Err_0 is Type
            && r->Err_0->Type_1 == crate::val::Type::Str && cloned(re->Ok_0, r->Err_0->Type_0),
        re is Ok && (forall|s: &str, x: Result<R, String>| #[trigger]
            call_ensures(compile, (&g, s), x) ==> x is Err) ==> r is Err,
{
}

/// `e` is an error whose payload is a string with the text `s`.
pub open spec fn says<V: ValT>(e: Error<V>, s: Seq<char>) -> bool {
    e is Val && exists|t: String|
        t@ == s && #[trigger] call_ensures(<V as From<String>>::from, (t,), e->Val_0)
}

/// Flags and regular expressions that are strings, but are refused, give errors
/// that say so and why.
pub proof fn law_refusals_are_told<
    V: ValT,
    G,
    R,
    N: FnOnce(&str) -> Result<G, String>,
    C: FnOnce(&G, &str) -> Result<R, String>,
>(v: V, new_flags: N, g: G, compile: C, e: Error<V>)
    requires
        forall|o: Option<&str>| #[trigger] call_ensures(V::as_str, (&v,), o) ==> o is Some,
    ensures
        flags_fail(Ok(v), new_flags, e) ==> exists|s: &str, problem: String|
            is_string(v, s) && #[trigger] call_ensures(
                new_flags,
                (s,),
                Err::<G, String>(problem),
            ) && says(e, "invalid regex flag: "@ + problem@),
        regex_fails(Ok(v), g, compile, e) ==> exists|s: &str, problem: String|
            is_string(v, s) && #[trigger] call_ensures(
                compile,
                (&g, s),
                Err::<R, String>(problem),
            ) && says(e, "invalid regex: "@ + problem@),
{
    if flags_fail(Ok(v), new_flags, e) {
        let (s, problem) = choose|s: &'static str, problem: String| #[trigger]
            call_ensures(V::as_str, (&v,), Some(s)) && #[trigger] call_ensures(
                new_flags,
                (s,),
                Err::<G, String>(problem),
            ) && text_error(e, "invalid regex flag: "@ + problem@);
        assert(is_string(v, s));
    }
    if regex_fails(Ok(v), g, compile, e) {
        let (s, problem) = choose|s: &'static str, problem: String| #[trigger]
            call_ensures(V::as_str, (&v,), Some(s)) && #[trigger] call_ensures(
                compile,
                (&g, s),
                Err::<R, String>(problem),
            ) && text_error(e, "invalid regex: "@ + problem@);
        assert(is_string(v, s));
    }
}

/// An input that is no string gives an error that says so.
pub proof fn law_input_has_to_be_a_string<
    V: ValT,
    G,
    R,
    M,
    X: FnOnce(&str, &R, G, (bool, bool)) -> Vec<Part<M>>,
    F: Fn(&M) -> ValR2<V>,
>(input: V, x: R, g: G, sm: (bool, bool), find: X, f: F, r: ValR2<V>)
    requires
        found_parts(input, x, g, sm, find, f, r),
        forall|o: Option<&str>| #[trigger] call_ensures(V::as_str, (&input,), o) ==> o is None,
    ensures
        r is Err && r->Err_0 is Type && r->Err_0->Type_1 == crate::val::Type::Str && cloned(
            input,
            r->Err_0->Type_0,
        ),
{
}

/// `e` is what is wrong with an output that is to be a string: the error that it is,
/// or that it is no string.
pub open spec fn is_no_string<V: ValT>(v: ValR2<V>, e: Error<V>) -> bool {
    match v {
        Err(d) => e == d,
        Ok(v) => call_ensures(V::as_str, (&v,), None::<&str>) && e is Type && e->Type_1
            == crate::val::Type::Str && cloned(v, e->Type_0),
    }
}

/// `e` is what is wrong with an input, or with the parts that are found in it.
pub open spec fn wrong_in_input<
    V: ValT,
    G,
    R,
    M,
    X: FnOnce(&str, &R, G, (bool, bool)) -> Vec<Part<M>>,
    F: Fn(&M) -> ValR2<V>,
>(input: V, x: R, g: G, sm: (bool, bool), find: X, f: F, e: Error<V>) -> bool {
    is_no_string(Ok(input), e) || exists|s: &str, parts: Vec<Part<M>>|
        is_string(input, s) && #[trigger] call_ensures(find, (s, &x, g, sm), parts) && parts_fail(
            f,
            parts@,
            e,
        )
}

/// `e` is what is wrong with a regular expression, or with what follows it.
pub open spec fn wrong_in_regex<
    V: ValT,
    G,
    R,
    M,
    C: FnOnce(&G, &str) -> Result<R, String>,
    X: FnOnce(&str, &R, G, (bool, bool)) -> Vec<Part<M>>,
    F: Fn(&M) -> ValR2<V>,
>(
    re: ValR2<V>,
    g: G,
    input: V,
    sm: (bool, bool),
    compile: C,
    find: X,
    f: F,
    e: Error<V>,
) -> bool {
    is_no_string(re, e) || exists|b: &str, compiled: Result<R, String>|
        re is Ok && is_string(re->Ok_0, b) && #[trigger] call_ensures(compile, (&g, b), compiled)
            && match compiled {
            Err(problem) => says(e, "invalid regex: "@ + problem@),
            Ok(x) => wrong_in_input(input, x, g, sm, find, f, e),
        }
}

/// An error comes of the flags, of the regular expression, of the input or of the parts that
/// are found, and of the later ones only if there is nothing wrong with the earlier ones.
pub proof fn law_match_fails<
    V: ValT,
    G,
    R,
    M,
    N: FnOnce(&str) -> Result<G, String>,
    C: FnOnce(&G, &str) -> Result<R, String>,
    X: FnOnce(&str, &R, G, (bool, bool)) -> Vec<Part<M>>,
    F: Fn(&M) -> ValR2<V>,
>(
    re: ValR2<V>,
    flags: ValR2<V>,
    input: V,
    sm: (bool, bool),
    new_flags: N,
    compile: C,
    find: X,
    f: F,
    e: Error<V>,
)
    requires
        call_ensures(
            crate::regex::re,
            (re, flags, &input, sm, new_flags, compile, find, f),
            Err::<V, Error<V>>(e),
        ),
    ensures
        is_no_string(flags, e) || exists|a: &str, given: Result<G, String>|
            flags is Ok && is_string(flags->Ok_0, a) && #[trigger] call_ensures(
                new_flags,
                (a,),
                given,
            ) && match given {
                Err(problem) => says(e, "invalid regex flag: "@ + problem@),
                Ok(g) => wrong_in_regex(re, g, input, sm, compile, find, f, e),
            },
{
    if flags_fail(flags, new_flags, e) {
        if flags is Ok && !not_str(flags->Ok_0, e) {
            let (a, problem) = choose|a: &'static str, problem: String| #[trigger]
                call_ensures(V::as_str, (&flags->Ok_0,), Some(a)) && #[trigger] call_ensures(
                    new_flags,
                    (a,),
                    Err::<G, String>(problem),
                ) && text_error(e, "invalid regex flag: "@ + problem@);
            assert(is_string(flags->Ok_0, a));
        }
    } else {
        let g = choose|g: G| #[trigger]
            flags_are(flags, new_flags, g) && matched_with(
                re,
                g,
                input,
                sm,
                compile,
                find,
                f,
                Err(e),
            );
        lemma_wrong_in_regex(re, g, input, sm, compile, find, f, e);
        let a = choose|a: &'static str| #[trigger]
            call_ensures(V::as_str, (&flags->Ok_0,), Some(a)) && call_ensures(
                new_flags,
                (a,),
                Ok::<G, String>(g),
            );
        assert(is_string(flags->Ok_0, a));
    }
}

proof fn lemma_wrong_in_regex<
    V: ValT,
    G,
    R,
    M,
    C: FnOnce(&G, &str) -> Result<R, String>,
    X: FnOnce(&str, &R, G, (bool, bool)) -> Vec<Part<M>>,
    F: Fn(&M) -> ValR2<V>,
>(
    re: ValR2<V>,
    g: G,
    input: V,
    sm: (bool, bool),
    compile: C,
    find: X,
    f: F,
    e: Error<V>,
)
    requires
        matched_with(re, g, input, sm, compile, find, f, Err(e)),
    ensures
        wrong_in_regex(re, g, input, sm, compile, find, f, e),
{
    if regex_fails(re, g, compile, e) {
        if re is Ok && !not_str(re->Ok_0, e) {
            let (b, problem) = choose|b: &'static str, problem: String| #[trigger]
                call_ensures(V::as_str, (&re->Ok_0,), Some(b)) && #[trigger] call_ensures(
                    compile,
                    (&g, b),
                    Err::<R, String>(problem),
                ) && text_error(e, "invalid regex: "@ + problem@);
            assert(is_string(re->Ok_0, b));
        }
    } else {
        let x = choose|x: R| #[trigger]
            regex_is(re, g, compile, x) && found_parts(input, x, g, sm, find, f, Err(e));
        if !not_str(input, e) {
            let (s, parts) = choose|s: &'static str, parts: Vec<Part<M>>| #[trigger]
                call_ensures(V::as_str, (&input,), Some(s)) && #[trigger] call_ensures(
                    find,
                    (s, &x, g, sm),
                    parts,
                ) && parts_fail(f, parts@, e);
            assert(is_string(input, s));
        }
        assert(wrong_in_input(input, x, g, sm, find, f, e));
        let b = choose|b: &'static str| #[trigger]
            call_ensures(V::as_str, (&re->Ok_0,), Some(b)) && call_ensures(
                compile,
                (&g, b),
                Ok::<R, String>(x),
            );
        assert(is_string(re->Ok_0, b));
    }
}

} // verus!
