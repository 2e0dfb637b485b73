//! What the filters on strings mean, by their names.

use crate::array_laws::{has_elements, made_of, wants_array};
use crate::codepoints::{codepoint, imploded};
use crate::dispatch::{run_plain, run_unary};
use crate::escape::{base64, base64_problem, html, percent, percent_encoded, symbol, tsv};
use crate::filters::{core_list, lemma_named, named, Op};
use crate::natives::{byte_length, explodes_to, implodes_to, on_text};
use crate::regex::says;
use crate::text::{decimal, for_char, has_prefix, has_suffix, lower, spelled, upper};
use crate::val::{from_int, from_str, int_of, str_of, Error, Type, Val, ValR2, ValT};
use vstd::prelude::*;
use vstd::std_specs::convert::TryFromSpec;
use vstd::utf8::encode_utf8;

verus! {

/// `e` says that a string was expected in place of `v`.
pub open spec fn wants_string<V: ValT>(v: V, e: Error<V>) -> bool {
    call_ensures(V::as_str, (&v,), None::<&str>) && exists|u: V| #[trigger]
        cloned(v, u) && e == Error::Type(u, Type::Str)
}

/// `v` is a string with the text `s`.
pub open spec fn has_text<V: ValT>(v: V, s: &str) -> bool {
    call_ensures(V::as_str, (&v,), Some(s))
}

/// `w` is a string made of `t`.
pub open spec fn made_of_text<V: ValT>(t: String, w: V) -> bool {
    call_ensures(<V as From<String>>::from, (t,), w)
}

/// `w` is a string whose text is related to that of the string `v`.
pub open spec fn related<V: ValT>(
    v: V,
    rel: spec_fn(Seq<char>, Seq<char>) -> bool,
    w: V,
) -> bool {
    exists|s: &str, t: String| #[trigger]
        has_text(v, s) && #[trigger] made_of_text(t, w) && rel(s@, t@)
}

pub proof fn lemma_text<V: ValT>(v: V, s: Seq<char>) -> (t: &'static str)
    requires
        str_of(v, Some(s)),
    ensures
        has_text(v, t),
        t@ == s,
{
    let r = choose|r: Option<&'static str>| #[trigger]
        call_ensures(V::as_str, (&v,), r) && match r {
            Some(t) => Some(s) == Some(t@),
            None => Some(s) is None,
        };
    r->0
}

proof fn lemma_related<V: ValT>(
    v: V,
    f: spec_fn(Seq<char>) -> Seq<char>,
    rel: spec_fn(Seq<char>, Seq<char>) -> bool,
    r: ValR2<V>,
)
    requires
        on_text(v, f, r),
        forall|s: Seq<char>| rel(s, #[trigger] f(s)),
    ensures
        match r {
            Ok(w) => related(v, rel, w),
            Err(e) => wants_string(v, e),
        },
{
    match r {
        Ok(w) => {
            let s = choose|s: Seq<char>| #[trigger] str_of(v, Some(s)) && from_str(f(s), w);
            let a = lemma_text(v, s);
            let t = choose|t: String|
                t@ == f(s) && #[trigger] call_ensures(<V as From<String>>::from, (t,), w);
            assert(has_text(v, a) && made_of_text(t, w));
        },
        Err(e) => {
            lemma_wants_string(v, e);
        },
    }
}

pub proof fn lemma_wants_string<V: ValT>(v: V, e: Error<V>)
    requires
        crate::val::not_str(v, e),
    ensures
        wants_string(v, e),
{
    let r = choose|r: Option<&'static str>| #[trigger]
        call_ensures(V::as_str, (&v,), r) && match r {
            Some(t) => None::<Seq<char>> == Some(t@),
            None => None::<Seq<char>> is None,
        };
    assert(r is None);
    assert(cloned(v, e->Type_0));
}

/// `w` is the number of bytes that the text of `v` takes in UTF-8.
pub open spec fn counts_bytes<V: ValT>(v: V, w: V) -> bool {
    exists|s: &str| #[trigger]
        has_text(v, s) && call_ensures(
            <V as From<isize>>::from,
            (encode_utf8(s@).len() as usize as isize,),
            w,
        )
}

/// `utf8bytelength` gives the number of bytes that its input takes in UTF-8.
pub proof fn law_utf8bytelength<V: ValT + Ord>(op: Op, v: V, r: ValR2<V>)
    requires
        named(core_list(), "utf8bytelength"@, 0, op),
        call_ensures(run_plain, (op, v), r),
    ensures
        match r {
            Ok(w) => counts_bytes(v, w),
            Err(e) => wants_string(v, e),
        },
{
    assert(core_list()[10].0 == "utf8bytelength"@);
    lemma_named(10, 0, op);
    match r {
        Ok(w) => {
            let s = choose|s: Seq<char>| #[trigger]
                str_of(v, Some(s)) && from_int(encode_utf8(s).len() as usize as isize, w);
            let t = lemma_text(v, s);
        },
        Err(e) => {
            lemma_wants_string(v, e);
        },
    }
}

/// `w` is an array of the code points of the characters of `v`, in their order.
pub open spec fn lists_codepoints<V: ValT>(v: V, w: V) -> bool {
    exists|s: &str, xs: Vec<V>| #[trigger]
        has_text(v, s) && #[trigger] made_of(xs, w) && xs@.len() == s@.len() && forall|i: int|
            0 <= i < xs@.len() ==> call_ensures(
                <V as From<isize>>::from,
                (s@[i] as u32 as isize,),
                #[trigger] xs@[i],
            )
}

/// `explode` gives the array of the code points of the characters of its input, in their order.
pub proof fn law_explode<V: ValT + Ord>(op: Op, v: V, r: ValR2<V>)
    requires
        named(core_list(), "explode"@, 0, op),
        call_ensures(run_plain, (op, v), r),
    ensures
        match r {
            Ok(w) => lists_codepoints(v, w),
            Err(e) => wants_string(v, e),
        },
{
    assert(core_list()[11].0 == "explode"@);
    lemma_named(11, 0, op);
    match r {
        Ok(w) => {
            let (s, xs) = choose|s: Seq<char>, xs: Vec<V>| #[trigger]
                str_of(v, Some(s)) && #[trigger] call_ensures(V::from_seq, (xs,), w)
                    && crate::codepoints::exploded(s, xs@);
            let t = lemma_text(v, s);
            assert(has_text(v, t) && made_of(xs, w));
            assert forall|i: int| 0 <= i < xs@.len() implies call_ensures(
                <V as From<isize>>::from,
                (s[i] as u32 as isize,),
                #[trigger] xs@[i],
            ) by {
                assert(from_int(s[i] as u32 as isize, xs@[i]));
            }
        },
        Err(e) => {
            lemma_wants_string(v, e);
        },
    }
}

/// `v` is the integer that is the code point of `c`.
pub open spec fn is_codepoint_of<V: ValT>(v: V, c: char) -> bool {
    exists|i: isize| #[trigger] call_ensures(V::as_isize, (&v,), Some(i)) && i == c as u32
}

/// The elements of `xs` are the code points of the characters of `t`.
pub open spec fn are_codepoints_of<V: ValT>(xs: Seq<V>, t: Seq<char>) -> bool {
    t.len() == xs.len() && forall|i: int|
        0 <= i < xs.len() ==> is_codepoint_of(#[trigger] xs[i], t[i])
}

/// `e` says what `d` shows.
pub open spec fn is_shown<V: ValT, D: core::fmt::Display>(d: D, e: Error<V>) -> bool {
    exists|t: String| #[trigger]
        vstd::string::to_string_from_display_ensures::<D>(&d, t) && says(e, t@)
}

pub proof fn lemma_is_shown<V: ValT, D: core::fmt::Display>(d: D, e: Error<V>)
    requires
        crate::val::shown_error(d, e),
    ensures
        is_shown(d, e),
{
    let text = choose|text: Seq<char>| #[trigger]
        crate::val::shows(d, text) && crate::val::text_error(e, text);
    let t = choose|t: String| #[trigger]
        vstd::string::to_string_from_display_ensures::<D>(&d, t) && t@ == text;
    assert(says(e, t@));
}

/// `e` says why `v` is no character's code point: it is no integer, or one out of range,
/// or it lies in the gap that Unicode leaves for surrogates.
pub open spec fn is_no_codepoint<V: ValT>(v: V, e: Error<V>) -> bool {
    ||| call_ensures(V::as_isize, (&v,), None::<isize>) && exists|u: V| #[trigger]
        cloned(v, u) && e == Error::Type(u, Type::Int)
    ||| exists|i: isize| #[trigger]
        call_ensures(V::as_isize, (&v,), Some(i)) && (i < 0 || 0xd800 <= i <= 0xdfff || i
            > 0x10ffff) && if 0 <= i <= u32::MAX {
            says(e, "cannot use "@ + decimal(i as nat) + " as character"@)
        } else {
            is_shown(<u32 as TryFromSpec<isize>>::try_from_spec(i)->Err_0, e)
        }
}

/// `w` is the string whose characters have the elements of `v` as code points.
pub open spec fn spells_codepoints<V: ValT>(v: V, w: V) -> bool {
    exists|xs: Vec<V>, t: String| #[trigger]
        has_elements(v, xs) && #[trigger] made_of_text(t, w) && are_codepoints_of(xs@, t@)
}

/// `e` says why the first element of `v` that is no character's code point is none.
pub open spec fn fails_on_codepoint<V: ValT>(v: V, e: Error<V>) -> bool {
    exists|xs: Vec<V>, t: Seq<char>| #[trigger]
        has_elements(v, xs) && t.len() < xs@.len() && #[trigger] are_codepoints_of(
            xs@.take(t.len() as int),
            t,
        ) && is_no_codepoint(xs@[t.len() as int], e)
}

proof fn lemma_codepoint<V: ValT>(v: V, r: Result<char, Error<V>>)
    requires
        codepoint(v, r),
    ensures
        match r {
            Ok(c) => is_codepoint_of(v, c),
            Err(e) => is_no_codepoint(v, e),
        },
{
    let o = choose|o: Option<isize>| #[trigger]
        int_of(v, o) && match o {
            None => r matches Err(e) && crate::val::not_int(v, e),
            Some(i) => if !(0 <= i <= u32::MAX) {
                r matches Err(e) && crate::val::shown_error(
                    <u32 as TryFromSpec<isize>>::try_from_spec(i)->Err_0,
                    e,
                )
            } else if crate::codepoints::is_scalar(i as int) {
                r matches Ok(c) && c as u32 == i
            } else {
                r matches Err(e) && crate::val::text_error(
                    e,
                    crate::codepoints::no_character(i as nat),
                )
            },
        };
    assert(call_ensures(V::as_isize, (&v,), o));
    match r {
        Ok(c) => {
            assert(o is Some);
        },
        Err(e) => {
            if o is None {
                assert(cloned(v, e->Type_0));
            } else {
                let i = o->0;
                if !(0 <= i <= u32::MAX) {
                    lemma_is_shown(<u32 as TryFromSpec<isize>>::try_from_spec(i)->Err_0, e);
                }
            }
        },
    }
}

proof fn lemma_are_codepoints<V: ValT>(xs: Seq<V>, s: Seq<char>)
    requires
        imploded(xs, s),
    ensures
        are_codepoints_of(xs, s),
{
    assert forall|i: int| 0 <= i < xs.len() implies is_codepoint_of(#[trigger] xs[i], s[i]) by {
        lemma_codepoint(xs[i], Ok(s[i]));
    }
}

/// `implode` gives the string whose characters have the elements of its input as code points,
/// or says that its input is no array, or why an element is no character's code point.
pub proof fn law_implode<V: ValT + Ord>(op: Op, v: V, r: ValR2<V>)
    requires
        named(core_list(), "implode"@, 0, op),
        call_ensures(run_plain, (op, v), r),
    ensures
        match r {
            Ok(w) => spells_codepoints(v, w),
            Err(e) => wants_array(v, e) || fails_on_codepoint(v, e),
        },
{
    assert(core_list()[12].0 == "implode"@);
    lemma_named(12, 0, op);
    match r {
        Ok(w) => {
            let (xs, s) = choose|xs: Vec<V>, s: Seq<char>| #[trigger]
                call_ensures(V::into_seq, (v,), Ok(xs)) && #[trigger] imploded(xs@, s) && from_str(
                    s,
                    w,
                );
            let t = choose|t: String|
                t@ == s && #[trigger] call_ensures(<V as From<String>>::from, (t,), w);
            assert(has_elements(v, xs) && made_of_text(t, w));
            lemma_are_codepoints(xs@, s);
        },
        Err(e) => {
            if !wants_array(v, e) {
                let xs = choose|xs: Vec<V>| #[trigger]
                    call_ensures(V::into_seq, (v,), Ok(xs)) && crate::codepoints::implode_failed(
                        xs@,
                        e,
                    );
                let s = choose|s: Seq<char>|
                    s.len() < xs@.len() && #[trigger] imploded(xs@.take(s.len() as int), s)
                        && codepoint(xs@[s.len() as int], Err(e));
                assert(has_elements(v, xs));
                lemma_are_codepoints(xs@.take(s.len() as int), s);
                lemma_codepoint(xs@[s.len() as int], Err(e));
            }
        },
    }
}

/// `ascii_downcase` replaces the ASCII letters of its input by those in lower case,
/// and leaves all other characters as they are.
pub proof fn law_ascii_downcase<V: ValT + Ord>(op: Op, v: V, r: ValR2<V>)
    requires
        named(core_list(), "ascii_downcase"@, 0, op),
        call_ensures(run_plain, (op, v), r),
    ensures
        match r {
            Ok(w) => related(
                v,
                |s: Seq<char>, t: Seq<char>|
                    t.len() == s.len() && forall|i: int|
                        0 <= i < s.len() ==> if 'A' <= s[i] <= 'Z' {
                            #[trigger] t[i] as u32 == s[i] as u32 + 32
                        } else {
                            t[i] == s[i]
                        },
                w,
            ),
            Err(e) => wants_string(v, e),
        },
{
    assert(core_list()[13].0 == "ascii_downcase"@);
    lemma_named(13, 0, op);
    let rel = |s: Seq<char>, t: Seq<char>|
        t.len() == s.len() && forall|i: int|
            0 <= i < s.len() ==> if 'A' <= s[i] <= 'Z' {
                #[trigger] t[i] as u32 == s[i] as u32 + 32
            } else {
                t[i] == s[i]
            };
    lemma_related(v, |s: Seq<char>| s.map_values(|c: char| lower(c)), rel, r);
}

/// `ascii_upcase` replaces the ASCII letters of its input by those in upper case,
/// and leaves all other characters as they are.
pub proof fn law_ascii_upcase<V: ValT + Ord>(op: Op, v: V, r: ValR2<V>)
    requires
        named(core_list(), "ascii_upcase"@, 0, op),
        call_ensures(run_plain, (op, v), r),
    ensures
        match r {
            Ok(w) => related(
                v,
                |s: Seq<char>, t: Seq<char>|
                    t.len() == s.len() && forall|i: int|
                        0 <= i < s.len() ==> if 'a' <= s[i] <= 'z' {
                            #[trigger] t[i] as u32 == s[i] as u32 - 32
                        } else {
                            t[i] == s[i]
                        },
                w,
            ),
            Err(e) => wants_string(v, e),
        },
{
    assert(core_list()[14].0 == "ascii_upcase"@);
    lemma_named(14, 0, op);
    let rel = |s: Seq<char>, t: Seq<char>|
        t.len() == s.len() && forall|i: int|
            0 <= i < s.len() ==> if 'a' <= s[i] <= 'z' {
                #[trigger] t[i] as u32 == s[i] as u32 - 32
            } else {
                t[i] == s[i]
            };
    lemma_related(v, |s: Seq<char>| s.map_values(|c: char| upper(c)), rel, r);
}

/// What `f` gives for `s[i]` lies in `t` between `o[i]` and `o[i + 1]`.
pub open spec fn piece_at<S, T>(
    s: Seq<S>,
    f: spec_fn(S) -> Seq<T>,
    t: Seq<T>,
    o: Seq<int>,
    i: int,
) -> bool {
    0 <= o[i] && o[i + 1] == o[i] + f(s[i]).len() && o[i + 1] <= t.len() && t.subrange(
        o[i],
        o[i + 1],
    ) == f(s[i])
}

/// `t` is put together from what `f` gives for every one of `s`;
/// what it gives for `s[i]` lies between `o[i]` and `o[i + 1]`.
pub open spec fn pieces_at<S, T>(
    s: Seq<S>,
    f: spec_fn(S) -> Seq<T>,
    t: Seq<T>,
    o: Seq<int>,
) -> bool {
    &&& o.len() == s.len() + 1
    &&& o[0] == 0
    &&& o[s.len() as int] == t.len()
    &&& forall|i: int| 0 <= i < s.len() ==> #[trigger] piece_at(s, f, t, o, i)
}

/// `t` is put together from what `f` gives for every one of `s`.
pub open spec fn put_together<S, T>(s: Seq<S>, f: spec_fn(S) -> Seq<T>, t: Seq<T>) -> bool {
    exists|o: Seq<int>| #[trigger] pieces_at(s, f, t, o)
}

proof fn lemma_put_together<S, T>(s: Seq<S>, f: spec_fn(S) -> Seq<T>, t: Seq<T>)
    requires
        s.len() > 0,
        put_together(s.drop_last(), f, t),
    ensures
        put_together(s, f, t + f(s.last())),
{
    let o = choose|o: Seq<int>| #[trigger] pieces_at(s.drop_last(), f, t, o);
    let u = t + f(s.last());
    let p = o.push(u.len() as int);
    assert forall|i: int| 0 <= i < s.len() implies #[trigger] piece_at(s, f, u, p, i) by {
        if i < s.len() - 1 {
            assert(piece_at(s.drop_last(), f, t, o, i));
            assert(u.subrange(p[i], p[i + 1]) =~= t.subrange(o[i], o[i + 1]));
        } else {
            assert(u.subrange(p[i], p[i + 1]) =~= f(s.last()));
        }
    }
    assert(p[0] == o[0]);
    assert(p[s.len() as int] == u.len());
    assert(pieces_at(s, f, u, p));
}

proof fn lemma_spelled(s: Seq<char>, f: spec_fn(char) -> Seq<char>, g: spec_fn(char) -> Seq<char>)
    requires
        forall|c: char| #[trigger] g(c) == f(c),
    ensures
        put_together(s, f, spelled(s, g)),
    decreases s.len(),
{
    if s.len() == 0 {
        assert(pieces_at(s, f, spelled(s, g), seq![0]));
    } else {
        lemma_spelled(s.drop_last(), f, g);
        lemma_put_together(s, f, spelled(s.drop_last(), g));
        assert(g(s.last()) == f(s.last()));
    }
}

/// `escape_csv` doubles the quotation marks of its input, and leaves all other characters.
pub proof fn law_escape_csv<V: ValT + Ord>(op: Op, v: V, r: ValR2<V>)
    requires
        named(core_list(), "escape_csv"@, 0, op),
        call_ensures(run_plain, (op, v), r),
    ensures
        match r {
            Ok(w) => related(
                v,
                |s: Seq<char>, t: Seq<char>|
                    put_together(
                        s,
                        |c: char|
                            if c == '"' {
                                seq!['"', '"']
                            } else {
                                seq![c]
                            },
                        t,
                    ),
                w,
            ),
            Err(e) => wants_string(v, e),
        },
{
    assert(core_list()[28].0 == "escape_csv"@);
    lemma_named(28, 0, op);
    let f = |c: char|
        if c == '"' {
            seq!['"', '"']
        } else {
            seq![c]
        };
    let g = for_char('"', "\"\""@);
    reveal_strlit("\"\"");
    assert forall|c: char| #[trigger] g(c) == f(c) by {
        assert(g(c) =~= f(c));
    }
    assert forall|s: Seq<char>| #[trigger] put_together(s, f, spelled(s, g)) by {
        lemma_spelled(s, f, g);
    }
    let rel = |s: Seq<char>, t: Seq<char>| put_together(s, f, t);
    lemma_related(v, |s: Seq<char>| spelled(s, for_char('"', "\"\""@)), rel, r);
}

/// `escape_sh` replaces every apostrophe of its input by one that ends a quotation, one that is
/// escaped and one that starts a quotation again, and leaves all other characters.
pub proof fn law_escape_sh<V: ValT + Ord>(op: Op, v: V, r: ValR2<V>)
    requires
        named(core_list(), "escape_sh"@, 0, op),
        call_ensures(run_plain, (op, v), r),
    ensures
        match r {
            Ok(w) => related(
                v,
                |s: Seq<char>, t: Seq<char>|
                    put_together(
                        s,
                        |c: char|
                            if c == '\'' {
                                seq!['\'', '\\', '\'', '\'']
                            } else {
                                seq![c]
                            },
                        t,
                    ),
                w,
            ),
            Err(e) => wants_string(v, e),
        },
{
    assert(core_list()[29].0 == "escape_sh"@);
    lemma_named(29, 0, op);
    let f = |c: char|
        if c == '\'' {
            seq!['\'', '\\', '\'', '\'']
        } else {
            seq![c]
        };
    let g = for_char('\'', "'\\''"@);
    reveal_strlit("'\\''");
    assert forall|c: char| #[trigger] g(c) == f(c) by {
        assert(g(c) =~= f(c));
    }
    assert forall|s: Seq<char>| #[trigger] put_together(s, f, spelled(s, g)) by {
        lemma_spelled(s, f, g);
    }
    let rel = |s: Seq<char>, t: Seq<char>| put_together(s, f, t);
    lemma_related(v, |s: Seq<char>| spelled(s, for_char('\'', "'\\''"@)), rel, r);
}

/// `escape_html` replaces the characters that have a meaning in HTML by character references,
/// and leaves all other characters.
pub proof fn law_escape_html<V: ValT + Ord>(op: Op, v: V, r: ValR2<V>)
    requires
        named(core_list(), "escape_html"@, 0, op),
        call_ensures(run_plain, (op, v), r),
    ensures
        match r {
            Ok(w) => related(
                v,
                |s: Seq<char>, t: Seq<char>|
                    put_together(
                        s,
                        |c: char|
                            if c == '<' {
                                seq!['&', 'l', 't', ';']
                            } else if c == '>' {
                                seq!['&', 'g', 't', ';']
                            } else if c == '&' {
                                seq!['&', 'a', 'm', 'p', ';']
                            } else if c == '\'' {
                                seq!['&', 'a', 'p', 'o', 's', ';']
                            } else if c == '"' {
                                seq!['&', 'q', 'u', 'o', 't', ';']
                            } else {
                                seq![c]
                            },
                        t,
                    ),
                w,
            ),
            Err(e) => wants_string(v, e),
        },
{
    assert(core_list()[33].0 == "escape_html"@);
    lemma_named(33, 0, op);
    let f = |c: char|
        if c == '<' {
            seq!['&', 'l', 't', ';']
        } else if c == '>' {
            seq!['&', 'g', 't', ';']
        } else if c == '&' {
            seq!['&', 'a', 'm', 'p', ';']
        } else if c == '\'' {
            seq!['&', 'a', 'p', 'o', 's', ';']
        } else if c == '"' {
            seq!['&', 'q', 'u', 'o', 't', ';']
        } else {
            seq![c]
        };
    let g = |c: char| html(c);
    reveal_strlit("&lt;");
    reveal_strlit("&gt;");
    reveal_strlit("&amp;");
    reveal_strlit("&apos;");
    reveal_strlit("&quot;");
    assert forall|c: char| #[trigger] g(c) == f(c) by {
        assert(g(c) =~= f(c));
    }
    assert forall|s: Seq<char>| #[trigger] put_together(s, f, spelled(s, g)) by {
        lemma_spelled(s, f, g);
    }
    let rel = |s: Seq<char>, t: Seq<char>| put_together(s, f, t);
    lemma_related(v, |s: Seq<char>| spelled(s, |c: char| html(c)), rel, r);
}

/// `escape_tsv` replaces tabs, line breaks and backslashes by escape sequences,
/// and leaves all other characters.
pub proof fn law_escape_tsv<V: ValT + Ord>(op: Op, v: V, r: ValR2<V>)
    requires
        named(core_list(), "escape_tsv"@, 0, op),
        call_ensures(run_plain, (op, v), r),
    ensures
        match r {
            Ok(w) => related(
                v,
                |s: Seq<char>, t: Seq<char>|
                    put_together(
                        s,
                        |c: char|
                            if c == '\n' {
                                seq!['\\', 'n']
                            } else if c == '\r' {
                                seq!['\\', 'r']
                            } else if c == '\t' {
                                seq!['\\', 't']
                            } else if c == '\\' {
                                seq!['\\', '\\']
                            } else {
                                seq![c]
                            },
                        t,
                    ),
                w,
            ),
            Err(e) => wants_string(v, e),
        },
{
    assert(core_list()[34].0 == "escape_tsv"@);
    lemma_named(34, 0, op);
    let f = |c: char|
        if c == '\n' {
            seq!['\\', 'n']
        } else if c == '\r' {
            seq!['\\', 'r']
        } else if c == '\t' {
            seq!['\\', 't']
        } else if c == '\\' {
            seq!['\\', '\\']
        } else {
            seq![c]
        };
    let g = |c: char| tsv(c);
    reveal_strlit("\\n");
    reveal_strlit("\\r");
    reveal_strlit("\\t");
    reveal_strlit("\\\\");
    assert forall|c: char| #[trigger] g(c) == f(c) by {
        assert(g(c) =~= f(c));
    }
    assert forall|s: Seq<char>| #[trigger] put_together(s, f, spelled(s, g)) by {
        lemma_spelled(s, f, g);
    }
    let rel = |s: Seq<char>, t: Seq<char>| put_together(s, f, t);
    lemma_related(v, |s: Seq<char>| spelled(s, |c: char| tsv(c)), rel, r);
}

/// The number that a hexadecimal digit stands for, if it is one in upper case.
pub open spec fn hex_value(c: char) -> int {
    if '0' <= c <= '9' {
        c as int - '0' as int
    } else if 'A' <= c <= 'F' {
        c as int - 'A' as int + 10
    } else {
        -1
    }
}

/// `t` is how the byte `b` is written in a URI: letters, digits and `-`, `.`, `_`, `~` stand for
/// themselves, and any other byte is a percent sign with two hexadecimal digits.
pub open spec fn is_percent(b: u8, t: Seq<char>) -> bool {
    let c = b as char;
    if 'a' <= c <= 'z' || 'A' <= c <= 'Z' || '0' <= c <= '9' || c == '-' || c == '.' || c == '_'
        || c == '~' {
        t == seq![c]
    } else {
        t.len() == 3 && t[0] == '%' && hex_value(t[1]) >= 0 && hex_value(t[2]) >= 0 && hex_value(
            t[1],
        ) * 16 + hex_value(t[2]) == b
    }
}

/// `t` is put together from what is written for every byte of `bs` in a URI.
pub open spec fn is_uri_text(bs: Seq<u8>, t: Seq<char>) -> bool {
    exists|f: spec_fn(u8) -> Seq<char>| #[trigger]
        put_together(bs, f, t) && forall|b: u8| is_percent(b, #[trigger] f(b))
}

proof fn lemma_uri(bs: Seq<u8>)
    ensures
        put_together(bs, |b: u8| percent(b), percent_encoded(bs)),
    decreases bs.len(),
{
    let f = |b: u8| percent(b);
    if bs.len() == 0 {
        assert(pieces_at(bs, f, percent_encoded(bs), seq![0]));
    } else {
        lemma_uri(bs.drop_last());
        lemma_put_together(bs, f, percent_encoded(bs.drop_last()));
    }
}

proof fn lemma_is_percent(b: u8)
    ensures
        is_percent(b, percent(b)),
{
    let c = b as char;
    assert(c as u32 == b);
    assert(hex_value(crate::escape::hex(b / 16)) == b / 16);
    assert(hex_value(crate::escape::hex(b % 16)) == b % 16);
}

/// `encode_uri` writes every byte of its input in UTF-8 as in a URI.
pub proof fn law_encode_uri<V: ValT + Ord>(op: Op, v: V, r: ValR2<V>)
    requires
        named(core_list(), "encode_uri"@, 0, op),
        call_ensures(run_plain, (op, v), r),
    ensures
        match r {
            Ok(w) => related(v, |s: Seq<char>, t: Seq<char>| is_uri_text(encode_utf8(s), t), w),
            Err(e) => wants_string(v, e),
        },
{
    assert(core_list()[35].0 == "encode_uri"@);
    lemma_named(35, 0, op);
    let f = |b: u8| percent(b);
    assert forall|s: Seq<char>| #[trigger]
        is_uri_text(encode_utf8(s), percent_encoded(encode_utf8(s))) by {
        lemma_uri(encode_utf8(s));
        assert forall|b: u8| is_percent(b, #[trigger] f(b)) by {
            lemma_is_percent(b);
        }
    }
    let rel = |s: Seq<char>, t: Seq<char>| is_uri_text(encode_utf8(s), t);
    lemma_related(v, |s: Seq<char>| percent_encoded(encode_utf8(s)), rel, r);
}

/// The six bits that a character of Base64 stands for, if it is one.
pub open spec fn six_bits(c: char) -> int {
    if 'A' <= c <= 'Z' {
        c as int - 'A' as int
    } else if 'a' <= c <= 'z' {
        c as int - 'a' as int + 26
    } else if '0' <= c <= '9' {
        c as int - '0' as int + 52
    } else if c == '+' {
        62
    } else if c == '/' {
        63
    } else {
        -1
    }
}

/// The byte at `k`, or zero behind the end.
pub open spec fn byte_at(bs: Seq<u8>, k: int) -> int {
    if 0 <= k < bs.len() {
        bs[k] as int
    } else {
        0
    }
}

/// The three bytes from `3 * q` on as one number.
pub open spec fn three_bytes(bs: Seq<u8>, q: int) -> int {
    byte_at(bs, 3 * q) * 65536 + byte_at(bs, 3 * q + 1) * 256 + byte_at(bs, 3 * q + 2)
}

/// `c` is the character at `j` of `bs` in Base64: six of the bits of three bytes,
/// or padding where there are no more bytes.
pub open spec fn is_base64_char(bs: Seq<u8>, j: int, c: char) -> bool {
    let (q, k) = (j / 4, j % 4);
    if (k == 2 && 3 * q + 1 >= bs.len()) || (k == 3 && 3 * q + 2 >= bs.len()) {
        c == '='
    } else if k == 0 {
        six_bits(c) == three_bytes(bs, q) / 262144
    } else if k == 1 {
        six_bits(c) == three_bytes(bs, q) / 4096 % 64
    } else if k == 2 {
        six_bits(c) == three_bytes(bs, q) / 64 % 64
    } else {
        six_bits(c) == three_bytes(bs, q) % 64
    }
}

/// `t` is `bs` in Base64: four characters for every three bytes, the last of which are padding
/// if there are fewer bytes.
pub open spec fn is_base64_text(bs: Seq<u8>, t: Seq<char>) -> bool {
    t.len() == (bs.len() + 2) / 3 * 4 && forall|j: int|
        0 <= j < t.len() ==> is_base64_char(bs, j, #[trigger] t[j])
}

proof fn lemma_six_bits(n: int)
    requires
        0 <= n < 64,
    ensures
        six_bits(symbol(n)) == n,
{
}

proof fn lemma_quotient(n: int, d: int, q: int, r: int)
    requires
        n == q * d + r,
        0 <= r < d,
    ensures
        n / d == q,
        n % d == r,
{
    vstd::arithmetic::div_mod::lemma_fundamental_div_mod_converse(n, d, q, r);
}

proof fn lemma_three_bytes(a: int, b: int, c: int)
    requires
        0 <= a < 256,
        0 <= b < 256,
        0 <= c < 256,
    ensures
        (a * 65536 + b * 256 + c) / 262144 == a / 4,
        (a * 65536 + b * 256 + c) / 4096 % 64 == a % 4 * 16 + b / 16,
        (a * 65536 + b * 256 + c) / 64 % 64 == b % 16 * 4 + c / 64,
        (a * 65536 + b * 256 + c) % 64 == c % 64,
{
    let (a1, a0, b1, b0, c1, c0) = (a / 4, a % 4, b / 16, b % 16, c / 64, c % 64);
    let w = a * 65536 + b * 256 + c;
    let x = a1 * 4096 + a0 * 1024 + b1 * 64 + b0 * 4 + c1;
    assert(w == x * 64 + c0);
    lemma_quotient(w, 64, x, c0);
    lemma_quotient(x, 64, a1 * 64 + a0 * 16 + b1, b0 * 4 + c1);
    let y = a1 * 64 + a0 * 16 + b1;
    lemma_quotient(w, 4096, y, b0 * 256 + c);
    lemma_quotient(y, 64, a1, a0 * 16 + b1);
    lemma_quotient(w, 262144, a1, a0 * 65536 + b * 256 + c);
}

proof fn lemma_first_four(bs: Seq<u8>, j: int)
    requires
        bs.len() > 0,
        0 <= j < 4,
    ensures
        is_base64_char(bs, j, base64(bs)[j]),
{
    let (a, b, c) = (byte_at(bs, 0), byte_at(bs, 1), byte_at(bs, 2));
    lemma_three_bytes(a, b, c);
    lemma_six_bits(a / 4);
    lemma_six_bits(a % 4 * 16 + b / 16);
    lemma_six_bits(b % 16 * 4 + c / 64);
    lemma_six_bits(c % 64);
    assert(three_bytes(bs, 0) == a * 65536 + b * 256 + c);
    assert(j / 4 == 0 && j % 4 == j);
}

proof fn lemma_later_char(bs: Seq<u8>, rest: Seq<u8>, j: int, c: char)
    requires
        j >= 4,
        rest == if bs.len() > 3 {
            bs.skip(3)
        } else {
            seq![]
        },
        j < (bs.len() + 2) / 3 * 4,
        is_base64_char(rest, j - 4, c),
    ensures
        is_base64_char(bs, j, c),
{
    let q = j / 4;
    assert((j - 4) / 4 == q - 1 && (j - 4) % 4 == j % 4);
    assert(bs.len() > 3);
    assert(byte_at(rest, 3 * (q - 1)) == byte_at(bs, 3 * q));
    assert(byte_at(rest, 3 * (q - 1) + 1) == byte_at(bs, 3 * q + 1));
    assert(byte_at(rest, 3 * (q - 1) + 2) == byte_at(bs, 3 * q + 2));
    assert(three_bytes(rest, q - 1) == three_bytes(bs, q));
}

proof fn lemma_base64_text(bs: Seq<u8>)
    ensures
        is_base64_text(bs, base64(bs)),
    decreases bs.len(),
{
    let t = base64(bs);
    if bs.len() > 0 {
        let rest = if bs.len() > 3 {
            bs.skip(3)
        } else {
            seq![]
        };
        lemma_base64_text(rest);
        assert(t.len() == 4 + base64(rest).len());
        assert(t.len() == (bs.len() + 2) / 3 * 4);
        assert forall|j: int| 0 <= j < t.len() implies is_base64_char(bs, j, #[trigger] t[j]) by {
            if j >= 4 {
                assert(t[j] == base64(rest)[j - 4]);
                lemma_later_char(bs, rest, j, t[j]);
            } else {
                lemma_first_four(bs, j);
            }
        }
    }
}

proof fn lemma_base64_unique(bs: Seq<u8>, t: Seq<char>)
    requires
        is_base64_text(bs, t),
    ensures
        t == base64(bs),
{
    lemma_base64_text(bs);
    let u = base64(bs);
    assert forall|j: int| 0 <= j < t.len() implies t[j] == u[j] by {
        assert(is_base64_char(bs, j, t[j]));
        assert(is_base64_char(bs, j, u[j]));
        let word = three_bytes(bs, j / 4);
        assert(0 <= word / 262144 && 0 <= word / 4096 % 64 && 0 <= word / 64 % 64 && 0 <= word
            % 64);
    }
    assert(t =~= u);
}

/// `encode_base64` gives its input in UTF-8 in Base64.
pub proof fn law_encode_base64<V: ValT + Ord>(op: Op, v: V, r: ValR2<V>)
    requires
        named(core_list(), "encode_base64"@, 0, op),
        call_ensures(run_plain, (op, v), r),
    ensures
        match r {
            Ok(w) => related(v, |s: Seq<char>, t: Seq<char>| is_base64_text(encode_utf8(s), t), w),
            Err(e) => wants_string(v, e),
        },
{
    assert(core_list()[36].0 == "encode_base64"@);
    lemma_named(36, 0, op);
    assert forall|s: Seq<char>| #[trigger]
        is_base64_text(encode_utf8(s), base64(encode_utf8(s))) by {
        lemma_base64_text(encode_utf8(s));
    }
    let rel = |s: Seq<char>, t: Seq<char>| is_base64_text(encode_utf8(s), t);
    lemma_related(v, |s: Seq<char>| base64(encode_utf8(s)), rel, r);
}

/// `v` is a string, but there is no text that has it in Base64.
pub open spec fn is_no_base64<V: ValT>(v: V) -> bool {
    exists|s: &str| #[trigger]
        has_text(v, s) && forall|t: Seq<char>| !is_base64_text(#[trigger] encode_utf8(t), s@)
}

/// `e` says what is wrong with the string `v`: why it is not Base64,
/// or why the bytes that it has in Base64 are not UTF-8.
pub open spec fn tells_what_is_wrong<V: ValT>(v: V, e: Error<V>) -> bool {
    exists|s: &str| #[trigger]
        has_text(v, s) && {
            ||| (forall|bs: Seq<u8>| !#[trigger] is_base64_text(bs, s@)) && says(
                e,
                base64_problem(s@),
            )
            ||| exists|bs: &[u8], d: core::str::Utf8Error|
                is_base64_text(bs@, s@) && #[trigger] call_ensures(
                    core::str::from_utf8,
                    (bs,),
                    Err::<&str, core::str::Utf8Error>(d),
                ) && is_shown(d, e)
        }
}

/// `decode_base64` gives the text that has its input in Base64, if there is one,
/// and an error that says why there is none otherwise.
pub proof fn law_decode_base64<V: ValT + Ord>(op: Op, v: V, r: ValR2<V>)
    requires
        named(core_list(), "decode_base64"@, 0, op),
        call_ensures(run_plain, (op, v), r),
    ensures
        match r {
            Ok(w) => related(v, |s: Seq<char>, t: Seq<char>| is_base64_text(encode_utf8(t), s), w),
            Err(e) => wants_string(v, e) || is_no_base64(v) && tells_what_is_wrong(v, e),
        },
{
    assert(core_list()[37].0 == "decode_base64"@);
    lemma_named(37, 0, op);
    match r {
        Ok(w) => {
            let u = choose|u: Seq<char>| #[trigger]
                str_of(v, Some(base64(encode_utf8(u)))) && from_str(u, w);
            let s = lemma_text(v, base64(encode_utf8(u)));
            let t = choose|t: String|
                t@ == u && #[trigger] call_ensures(<V as From<String>>::from, (t,), w);
            lemma_base64_text(encode_utf8(u));
            assert(has_text(v, s) && made_of_text(t, w));
        },
        Err(e) => {
            if crate::val::not_str(v, e) {
                lemma_wants_string(v, e);
            } else {
                let u = choose|u: Seq<char>| #[trigger]
                    str_of(v, Some(u)) && crate::escape::base64_failed(u, e);
                let s = lemma_text(v, u);
                assert forall|t: Seq<char>| !is_base64_text(#[trigger] encode_utf8(t), s@) by {
                    if is_base64_text(encode_utf8(t), s@) {
                        lemma_base64_unique(encode_utf8(t), s@);
                    }
                }
                if crate::escape::is_base64(s@) {
                    let bs = choose|bs: Seq<u8>| #[trigger]
                        base64(bs) == s@ && crate::escape::utf8_failed(bs, e);
                    lemma_base64_text(bs);
                    let (b, d) = choose|b: &'static [u8], d: core::str::Utf8Error|
                        b@ == bs && #[trigger] call_ensures(
                            core::str::from_utf8,
                            (b,),
                            Err::<&str, core::str::Utf8Error>(d),
                        ) && crate::val::shown_error(d, e);
                    lemma_is_shown(d, e);
                } else {
                    assert forall|bs: Seq<u8>| !#[trigger] is_base64_text(bs, s@) by {
                        if is_base64_text(bs, s@) {
                            lemma_base64_unique(bs, s@);
                        }
                    }
                    assert(says(e, base64_problem(s@)));
                }
            }
        },
    }
}

/// `error` fails with its input as the payload of the error.
pub proof fn law_error<V: ValT + Ord>(op: Op, v: V, r: ValR2<V>)
    requires
        named(core_list(), "error"@, 0, op),
        call_ensures(run_plain, (op, v), r),
    ensures
        r == Err::<V, Error<V>>(Error::Val(v)),
{
    assert(core_list()[30].0 == "error"@);
    lemma_named(30, 0, op);
}

/// `startswith` says of two strings whether there is a text that makes up the first one
/// with the second one at its start.
pub proof fn law_startswith(op: Op, v: String, part: String, r: ValR2<Val>)
    requires
        named(core_list(), "startswith"@, 1, op),
        call_ensures(run_unary, (op, &Val::Str(v), Val::Str(part)), r),
    ensures
        r matches Ok(Val::Bool(b)) && (b <==> exists|rest: Seq<char>| #[trigger] (part@ + rest)
            == v@),
{
    assert(core_list()[24].0 == "startswith"@);
    lemma_named(24, 1, op);
    if has_prefix(v@, part@) {
        assert(part@ + v@.skip(part@.len() as int) =~= v@);
    }
    assert forall|rest: Seq<char>| #[trigger] (part@ + rest) == v@ implies has_prefix(
        v@,
        part@,
    ) by {
        assert(v@.subrange(0, part@.len() as int) =~= part@);
    }
}

/// `endswith` says of two strings whether there is a text that makes up the first one
/// with the second one at its end.
pub proof fn law_endswith(op: Op, v: String, part: String, r: ValR2<Val>)
    requires
        named(core_list(), "endswith"@, 1, op),
        call_ensures(run_unary, (op, &Val::Str(v), Val::Str(part)), r),
    ensures
        r matches Ok(Val::Bool(b)) && (b <==> exists|rest: Seq<char>| #[trigger] (rest + part@)
            == v@),
{
    assert(core_list()[25].0 == "endswith"@);
    lemma_named(25, 1, op);
    if has_suffix(v@, part@) {
        assert(v@.take(v@.len() - part@.len()) + part@ =~= v@);
    }
    assert forall|rest: Seq<char>| #[trigger] (rest + part@) == v@ implies has_suffix(
        v@,
        part@,
    ) by {
        assert(v@.subrange(v@.len() - part@.len(), v@.len() as int) =~= part@);
    }
}

/// `ltrimstr` gives of two strings the text that makes up the first one with the second one
/// at its start, or the first one if there is no such text.
pub proof fn law_ltrimstr(op: Op, v: String, part: String, r: ValR2<Val>)
    requires
        named(core_list(), "ltrimstr"@, 1, op),
        call_ensures(run_unary, (op, &Val::Str(v), Val::Str(part)), r),
    ensures
        r matches Ok(Val::Str(t)) && (part@ + t@ == v@ || (t@ == v@ && forall|rest: Seq<char>|
            #[trigger] (part@ + rest) != v@)),
{
    assert(core_list()[26].0 == "ltrimstr"@);
    lemma_named(26, 1, op);
    if has_prefix(v@, part@) {
        assert(part@ + v@.skip(part@.len() as int) =~= v@);
    }
    assert forall|rest: Seq<char>| #[trigger] (part@ + rest) == v@ implies has_prefix(v@, part@) by {
        assert(v@.subrange(0, part@.len() as int) =~= part@);
    }
}

/// `rtrimstr` gives of two strings the text that makes up the first one with the second one
/// at its end, or the first one if there is no such text.
pub proof fn law_rtrimstr(op: Op, v: String, part: String, r: ValR2<Val>)
    requires
        named(core_list(), "rtrimstr"@, 1, op),
        call_ensures(run_unary, (op, &Val::Str(v), Val::Str(part)), r),
    ensures
        r matches Ok(Val::Str(t)) && (t@ + part@ == v@ || (t@ == v@ && forall|rest: Seq<char>|
            #[trigger] (rest + part@) != v@)),
{
    assert(core_list()[27].0 == "rtrimstr"@);
    lemma_named(27, 1, op);
    if has_suffix(v@, part@) {
        assert(v@.take(v@.len() - part@.len()) + part@ =~= v@);
    }
    assert forall|rest: Seq<char>| #[trigger] (rest + part@) == v@ implies has_suffix(v@, part@) by {
        assert(v@.subrange(v@.len() - part@.len(), v@.len() as int) =~= part@);
    }
}

/// The filters on two strings say that a string was expected in place of the first value
/// that is none.
pub proof fn law_two_strings_are_wanted<V: ValT>(op: Op, v: V, part: V, e: Error<V>)
    requires
        call_ensures(run_unary, (op, &v, part), Err(e)),
    ensures
        wants_string(v, e) || (wants_string(part, e) && exists|s: &str| has_text(v, s)),
{
    if crate::val::not_str(v, e) {
        lemma_wants_string(v, e);
    } else {
        lemma_wants_string(part, e);
        let s = choose|s: Seq<char>| #[trigger] str_of(v, Some(s));
        let t = lemma_text(v, s);
        assert(has_text(v, t));
    }
}

} // verus!
