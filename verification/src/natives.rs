//! Native filters, as functions from values to values.

use crate::codepoints;
use crate::codepoints::{exploded, implode_failed, imploded};
use crate::escape;
use crate::escape::{base64, base64_failed, html, percent_encoded, tsv};
use crate::json::{expected, from_json, is_blank, json_failed, starts_at, unread};
use crate::search;
use crate::search::found;
use crate::select;
use crate::select::{greatest_by, least_by};
use crate::sort;
use crate::sort::{first_failure, group_array, sorted, sorted_by};
use crate::text;
use crate::text::{for_char, has_prefix, has_suffix, lower, spelled, upper};
use crate::time::{from_iso8601, iso8601_parsed, iso8601_written, timestamp_read, to_iso8601};
use crate::val::{
    arr_failed, arr_mutated, from_bool, from_int, from_str, not_arr, not_str, str_mutated, str_of,
    text_error, Error, Val, ValR2, ValT, ValTx,
};
use vstd::prelude::*;
use vstd::utf8::encode_utf8;

verus! {

/// `w` is a string made of the text that `f` gives for that of `v`.
pub open spec fn text_mapped<V: ValT>(v: V, f: spec_fn(Seq<char>) -> Seq<char>, w: V) -> bool {
    exists|s: Seq<char>| #[trigger] str_of(v, Some(s)) && from_str(f(s), w)
}

/// `r` is a string made of the text that `f` gives for that of `v`, or says that `v` is no string.
pub open spec fn on_text<V: ValT>(
    v: V,
    f: spec_fn(Seq<char>) -> Seq<char>,
    r: ValR2<V>,
) -> bool {
    match r {
        Ok(w) => text_mapped(v, f, w),
        Err(e) => not_str(v, e),
    }
}

/// `w` is an array whose elements are related to those of `v` by `rel`.
pub open spec fn array_mapped<V: ValT>(
    v: V,
    rel: spec_fn(Seq<V>, Seq<V>) -> bool,
    w: V,
) -> bool {
    exists|xs: Vec<V>, ys: Vec<V>| #[trigger]
        call_ensures(V::into_seq, (v,), Ok(xs)) && #[trigger] call_ensures(V::from_seq, (ys,), w)
            && rel(xs@, ys@)
}

/// The elements of `v` satisfy `p`.
pub open spec fn array_satisfies<V: ValT>(v: V, p: spec_fn(Seq<V>) -> bool) -> bool {
    exists|xs: Vec<V>| #[trigger] call_ensures(V::into_seq, (v,), Ok(xs)) && p(xs@)
}

/// An input that has been read, or the error that reading it gave.
pub fn input<V: ValT>(r: Result<V, String>) -> (o: ValR2<V>)
    ensures
        match r {
            Ok(v) => o == Ok::<V, Error<V>>(v),
            Err(t) => o matches Err(e) && text_error(e, t@),
        },
{
    match r {
        Ok(v) => Ok(v),
        Err(t) => Err(Error::str(t)),
    }
}

/// `w` is a string made of what `show` gives for `v`.
pub open spec fn shown<V: ValT, S: FnOnce(&V) -> String>(v: V, show: S, w: V) -> bool {
    exists|t: String| #[trigger] call_ensures(show, (&v,), t) && from_str(t@, w)
}

/// Convert a value to JSON text, as `show` shows it.
pub fn tojson<V: ValT, S: FnOnce(&V) -> String>(v: &V, show: S) -> (r: ValR2<V>)
    requires
        call_requires(show, (v,)),
    ensures
        r matches Ok(w) && shown(*v, show, w),
{
    let t = show(v);
    let w = V::from(t);
    assert(from_str(t@, w));
    Ok(w)
}

/// `w` is the number of bytes of the text of `v` in UTF-8.
pub open spec fn byte_length<V: ValT>(v: V, w: V) -> bool {
    exists|s: Seq<char>| #[trigger]
        str_of(v, Some(s)) && from_int(encode_utf8(s).len() as usize as isize, w)
}

/// The number of bytes of a string in UTF-8.
pub fn utf8bytelength<V: ValT>(v: &V) -> (r: ValR2<V>)
    ensures
        match r {
            Ok(w) => byte_length(*v, w),
            Err(e) => not_str(*v, e),
        },
{
    match v.try_as_str() {
        Ok(s) => {
            let n = s.as_bytes().len();
            let w = V::from(n as isize);
            assert(byte_length(*v, w));
            Ok(w)
        },
        Err(e) => Err(e),
    }
}

/// `w` is the array of the code points of the text of `v`.
pub open spec fn explodes_to<V: ValT>(v: V, w: V) -> bool {
    exists|s: Seq<char>, xs: Vec<V>| #[trigger]
        str_of(v, Some(s)) && #[trigger] call_ensures(V::from_seq, (xs,), w) && exploded(s, xs@)
}

/// Convert a string into an array of its Unicode codepoints.
pub fn explode<V: ValT>(v: &V) -> (r: ValR2<V>)
    ensures
        match r {
            Ok(w) => explodes_to(*v, w),
            Err(e) => not_str(*v, e),
        },
{
    match v.try_as_str() {
        Ok(s) => {
            let xs = codepoints::explode::<V>(s);
            let w = V::from_seq(xs);
            assert(explodes_to(*v, w));
            Ok(w)
        },
        Err(e) => Err(e),
    }
}

/// `w` is the string whose code points the elements of `v` are.
pub open spec fn implodes_to<V: ValT>(v: V, w: V) -> bool {
    exists|xs: Vec<V>, s: Seq<char>| #[trigger]
        call_ensures(V::into_seq, (v,), Ok(xs)) && #[trigger] imploded(xs@, s) && from_str(s, w)
}

/// Convert an array of Unicode codepoints into a string.
pub fn implode<V: ValT>(v: V) -> (r: ValR2<V>)
    ensures
        match r {
            Ok(w) => implodes_to(v, w),
            Err(e) => not_arr(v, e) || array_satisfies(v, |xs: Seq<V>| implode_failed(xs, e)),
        },
{
    match v.into_vec() {
        Ok(xs) => match codepoints::implode(&xs) {
            Ok(s) => {
                let w = V::from(s);
                assert(from_str(s@, w));
                assert(implodes_to(v, w));
                Ok(w)
            },
            Err(e) => {
                assert(array_satisfies(v, |xs: Seq<V>| implode_failed(xs, e)));
                Err(e)
            },
        },
        Err(e) => Err(e),
    }
}

proof fn lemma_text_mapped<V: ValT, F: FnOnce(&str) -> String>(
    v: V,
    f: F,
    g: spec_fn(Seq<char>) -> Seq<char>,
    w: V,
)
    requires
        str_mutated(v, f, w),
        forall|s: &str, t: String| #[trigger] call_ensures(f, (s,), t) ==> t@ == g(s@),
    ensures
        text_mapped(v, g, w),
{
    let (s, t) = choose|s: &str, t: String| #[trigger]
        call_ensures(V::as_str, (&v,), Some(s)) && call_ensures(f, (s,), t) && #[trigger]
        call_ensures(<V as From<String>>::from, (t,), w);
    assert(str_of(v, Some(s@)));
    assert(from_str(t@, w));
}

/// Put the ASCII letters of a string in lower case.
pub fn ascii_downcase<V: ValT>(v: V) -> (r: ValR2<V>)
    ensures
        on_text(v, |s: Seq<char>| s.map_values(|c: char| lower(c)), r),
{
    let f = |s: &str| -> (t: String)
        ensures
            t@ == s@.map_values(|c: char| lower(c)),
        { text::to_lower(s) };
    let r = v.mutate_str(f);
    proof {
        if r is Ok {
            lemma_text_mapped(v, f, |s: Seq<char>| s.map_values(|c: char| lower(c)), r->Ok_0);
        }
    }
    r
}

/// Put the ASCII letters of a string in upper case.
pub fn ascii_upcase<V: ValT>(v: V) -> (r: ValR2<V>)
    ensures
        on_text(v, |s: Seq<char>| s.map_values(|c: char| upper(c)), r),
{
    let f = |s: &str| -> (t: String)
        ensures
            t@ == s@.map_values(|c: char| upper(c)),
        { text::to_upper(s) };
    let r = v.mutate_str(f);
    proof {
        if r is Ok {
            lemma_text_mapped(v, f, |s: Seq<char>| s.map_values(|c: char| upper(c)), r->Ok_0);
        }
    }
    r
}

proof fn lemma_array_mapped<V: ValT, F: FnOnce(Vec<V>) -> Result<Vec<V>, Error<V>>>(
    v: V,
    f: F,
    rel: spec_fn(Seq<V>, Seq<V>) -> bool,
    w: V,
)
    requires
        arr_mutated(v, f, w),
        forall|xs: Vec<V>, ys: Vec<V>| #[trigger]
            call_ensures(f, (xs,), Ok::<Vec<V>, Error<V>>(ys)) ==> rel(xs@, ys@),
    ensures
        array_mapped(v, rel, w),
{
    let (xs, ys) = choose|xs: Vec<V>, ys: Vec<V>| #[trigger]
        call_ensures(V::into_seq, (v,), Ok(xs)) && call_ensures(f, (xs,), Ok(ys)) && #[trigger]
        call_ensures(V::from_seq, (ys,), w);
    assert(call_ensures(V::into_seq, (v,), Ok(xs)) && call_ensures(V::from_seq, (ys,), w));
}

proof fn lemma_array_satisfies<V: ValT, F: FnOnce(Vec<V>) -> Result<Vec<V>, Error<V>>>(
    v: V,
    f: F,
    p: spec_fn(Seq<V>) -> bool,
    e: Error<V>,
)
    requires
        arr_failed(v, f, e),
        forall|xs: Vec<V>| #[trigger]
            call_ensures(f, (xs,), Err::<Vec<V>, Error<V>>(e)) ==> p(xs@),
    ensures
        array_satisfies(v, p),
{
    let xs = choose|xs: Vec<V>| #[trigger]
        call_ensures(V::into_seq, (v,), Ok(xs)) && call_ensures(f, (xs,), Err(e));
    assert(call_ensures(V::into_seq, (v,), Ok(xs)) && p(xs@));
}

/// Reverse an array.
pub fn reverse<V: ValT>(v: V) -> (r: ValR2<V>)
    ensures
        match r {
            Ok(w) => array_mapped(v, |xs: Seq<V>, ys: Seq<V>| ys == xs.reverse(), w),
            Err(e) => not_arr(v, e),
        },
{
    let f = |xs: Vec<V>| -> (r: Result<Vec<V>, Error<V>>)
        ensures
            r matches Ok(ys) && ys@ == xs@.reverse(),
        { Ok(sort::reverse(xs)) };
    let r = v.mutate_arr(f);
    proof {
        if r is Ok {
            lemma_array_mapped(v, f, |xs: Seq<V>, ys: Seq<V>| ys == xs.reverse(), r->Ok_0);
        }
    }
    r
}

/// Sort an array.
pub fn sort<V: ValT + Ord>(v: V) -> (r: ValR2<V>)
    ensures
        match r {
            Ok(w) => array_mapped(v, |xs: Seq<V>, ys: Seq<V>| sorted(xs, ys), w),
            Err(e) => not_arr(v, e),
        },
{
    let f = |xs: Vec<V>| -> (r: Result<Vec<V>, Error<V>>)
        ensures
            r matches Ok(ys) && sorted(xs@, ys@),
        { Ok(sort::sort(xs)) };
    let r = v.mutate_arr(f);
    proof {
        if r is Ok {
            lemma_array_mapped(v, f, |xs: Seq<V>, ys: Seq<V>| sorted(xs, ys), r->Ok_0);
        }
    }
    r
}

/// Sorting `xs` by `f` gives `ys`: the same if there are fewer than two elements.
pub open spec fn sorts_to<V: Ord, E, F: Fn(&V) -> Result<Vec<V>, E>>(
    f: F,
    xs: Seq<V>,
    ys: Seq<V>,
) -> bool {
    if xs.len() < 2 {
        ys == xs
    } else {
        sorted_by(f, xs, ys)
    }
}

/// Sort an array by the given function.
pub fn sort_by<V: ValT + Ord, F: Fn(&V) -> Result<Vec<V>, Error<V>>>(v: V, f: F) -> (r: ValR2<V>)
    requires
        forall|x: &V| #[trigger] call_requires(f, (x,)),
    ensures
        match r {
            Ok(w) => array_mapped(v, |xs: Seq<V>, ys: Seq<V>| sorts_to(f, xs, ys), w),
            Err(e) => not_arr(v, e) || array_satisfies(
                v,
                |xs: Seq<V>| xs.len() >= 2 && first_failure(f, xs, e),
            ),
        },
{
    let g = |xs: Vec<V>| -> (r: Result<Vec<V>, Error<V>>)
        ensures
            match r {
                Ok(ys) => sorts_to(f, xs@, ys@),
                Err(e) => xs@.len() >= 2 && first_failure(f, xs@, e),
            },
        { sort::sort_by(xs, f) };
    let r = v.mutate_arr(g);
    proof {
        if r is Ok {
            lemma_array_mapped(v, g, |xs: Seq<V>, ys: Seq<V>| sorts_to(f, xs, ys), r->Ok_0);
        } else if !not_arr(v, r->Err_0) {
            let e = r->Err_0;
            lemma_array_satisfies(
                v,
                g,
                |xs: Seq<V>| xs.len() >= 2 && first_failure(f, xs, e),
                e,
            );
        }
    }
    r
}

/// Group an array by the given function.
pub fn group_by<V: ValT + Ord, F: Fn(&V) -> Result<Vec<V>, Error<V>>>(v: V, f: F) -> (r: ValR2<V>)
    requires
        forall|x: &V| #[trigger] call_requires(f, (x,)),
    ensures
        match r {
            Ok(w) => array_satisfies(v, |xs: Seq<V>| group_array(f, xs, w)),
            Err(e) => not_arr(v, e) || array_satisfies(v, |xs: Seq<V>| first_failure(f, xs, e)),
        },
{
    match v.into_vec() {
        Ok(xs) => match sort::group_by(xs, f) {
            Ok(w) => {
                assert(array_satisfies(v, |xs: Seq<V>| group_array(f, xs, w)));
                Ok(w)
            },
            Err(e) => {
                assert(array_satisfies(v, |xs: Seq<V>| first_failure(f, xs, e)));
                Err(e)
            },
        },
        Err(e) => Err(e),
    }
}

/// The least element of an array by the given function, the first one if there are several,
/// or none if the array is empty.
pub fn min_by_or_empty<V: ValT + Ord, F: Fn(&V) -> Result<Vec<V>, Error<V>>>(v: V, f: F) -> (r:
    Option<ValR2<V>>)
    requires
        forall|x: &V| #[trigger] call_requires(f, (x,)),
    ensures
        match r {
            None => array_satisfies(v, |xs: Seq<V>| xs.len() == 0),
            Some(Ok(x)) => array_satisfies(v, |xs: Seq<V>| least_by(f, xs, x)),
            Some(Err(e)) => not_arr(v, e) || array_satisfies(
                v,
                |xs: Seq<V>| first_failure(f, xs, e),
            ),
        },
{
    match v.into_vec() {
        Ok(xs) => match select::min_by_or_empty(xs, f) {
            Ok(None) => {
                assert(array_satisfies(v, |xs: Seq<V>| xs.len() == 0));
                None
            },
            Ok(Some(x)) => {
                assert(array_satisfies(v, |xs: Seq<V>| least_by(f, xs, x)));
                Some(Ok(x))
            },
            Err(e) => {
                assert(array_satisfies(v, |xs: Seq<V>| first_failure(f, xs, e)));
                Some(Err(e))
            },
        },
        Err(e) => Some(Err(e)),
    }
}

/// The greatest element of an array by the given function, the last one if there are several,
/// or none if the array is empty.
pub fn max_by_or_empty<V: ValT + Ord, F: Fn(&V) -> Result<Vec<V>, Error<V>>>(v: V, f: F) -> (r:
    Option<ValR2<V>>)
    requires
        forall|x: &V| #[trigger] call_requires(f, (x,)),
    ensures
        match r {
            None => array_satisfies(v, |xs: Seq<V>| xs.len() == 0),
            Some(Ok(x)) => array_satisfies(v, |xs: Seq<V>| greatest_by(f, xs, x)),
            Some(Err(e)) => not_arr(v, e) || array_satisfies(
                v,
                |xs: Seq<V>| first_failure(f, xs, e),
            ),
        },
{
    match v.into_vec() {
        Ok(xs) => match select::max_by_or_empty(xs, f) {
            Ok(None) => {
                assert(array_satisfies(v, |xs: Seq<V>| xs.len() == 0));
                None
            },
            Ok(Some(x)) => {
                assert(array_satisfies(v, |xs: Seq<V>| greatest_by(f, xs, x)));
                Some(Ok(x))
            },
            Err(e) => {
                assert(array_satisfies(v, |xs: Seq<V>| first_failure(f, xs, e)));
                Some(Err(e))
            },
        },
        Err(e) => Some(Err(e)),
    }
}

/// `e` says that `v` is no string, or that `v` is one but `part` is none.
pub open spec fn not_strings<V: ValT>(v: V, part: V, e: Error<V>) -> bool {
    not_str(v, e) || (not_str(part, e) && exists|s: Seq<char>| #[trigger] str_of(v, Some(s)))
}

/// `w` says whether the text of `v` starts with that of `part`.
pub open spec fn starts_said<V: ValT>(v: V, part: V, w: V) -> bool {
    exists|s: Seq<char>, t: Seq<char>| #[trigger]
        str_of(v, Some(s)) && #[trigger] str_of(part, Some(t)) && from_bool(has_prefix(s, t), w)
}

/// Whether a string starts with another one.
pub fn startswith<V: ValT>(v: &V, part: V) -> (r: ValR2<V>)
    ensures
        match r {
            Ok(w) => starts_said(*v, part, w),
            Err(e) => not_strings(*v, part, e),
        },
{
    let s = match v.try_as_str() {
        Ok(s) => s,
        Err(e) => {
            return Err(e);
        },
    };
    let t = match part.try_as_str() {
        Ok(t) => t,
        Err(e) => {
            assert(str_of(*v, Some(s@)));
            return Err(e);
        },
    };
    let w = V::from(text::starts_with(s, t));
    assert(str_of(*v, Some(s@)) && str_of(part, Some(t@)));
    Ok(w)
}

/// `w` says whether the text of `v` ends with that of `part`.
pub open spec fn ends_said<V: ValT>(v: V, part: V, w: V) -> bool {
    exists|s: Seq<char>, t: Seq<char>| #[trigger]
        str_of(v, Some(s)) && #[trigger] str_of(part, Some(t)) && from_bool(has_suffix(s, t), w)
}

/// Whether a string ends with another one.
pub fn endswith<V: ValT>(v: &V, part: V) -> (r: ValR2<V>)
    ensures
        match r {
            Ok(w) => ends_said(*v, part, w),
            Err(e) => not_strings(*v, part, e),
        },
{
    let s = match v.try_as_str() {
        Ok(s) => s,
        Err(e) => {
            return Err(e);
        },
    };
    let t = match part.try_as_str() {
        Ok(t) => t,
        Err(e) => {
            assert(str_of(*v, Some(s@)));
            return Err(e);
        },
    };
    let w = V::from(text::ends_with(s, t));
    assert(str_of(*v, Some(s@)) && str_of(part, Some(t@)));
    Ok(w)
}

/// `w` is the text of `v` without that of `part` at its start, or `v` if it is not there.
pub open spec fn left_trimmed<V: ValT>(v: V, part: V, w: V) -> bool {
    exists|s: Seq<char>, t: Seq<char>| #[trigger]
        str_of(v, Some(s)) && #[trigger] str_of(part, Some(t)) && if has_prefix(s, t) {
            from_str(s.skip(t.len() as int), w)
        } else {
            cloned(v, w)
        }
}

/// Remove a string from the start of a string, if that starts with it.
pub fn ltrimstr<V: ValT>(v: &V, part: V) -> (r: ValR2<V>)
    ensures
        match r {
            Ok(w) => left_trimmed(*v, part, w),
            Err(e) => not_strings(*v, part, e),
        },
{
    let s = match v.try_as_str() {
        Ok(s) => s,
        Err(e) => {
            return Err(e);
        },
    };
    let t = match part.try_as_str() {
        Ok(t) => t,
        Err(e) => {
            assert(str_of(*v, Some(s@)));
            return Err(e);
        },
    };
    let w = match text::strip_prefix(s, t) {
        Some(rest) => {
            let w = V::from(rest);
            assert(from_str(rest@, w));
            w
        },
        None => v.clone(),
    };
    assert(str_of(*v, Some(s@)) && str_of(part, Some(t@)));
    Ok(w)
}

/// `w` is the text of `v` without that of `part` at its end, or `v` if it is not there.
pub open spec fn right_trimmed<V: ValT>(v: V, part: V, w: V) -> bool {
    exists|s: Seq<char>, t: Seq<char>| #[trigger]
        str_of(v, Some(s)) && #[trigger] str_of(part, Some(t)) && if has_suffix(s, t) {
            from_str(s.take(s.len() - t.len()), w)
        } else {
            cloned(v, w)
        }
}

/// Remove a string from the end of a string, if that ends with it.
pub fn rtrimstr<V: ValT>(v: &V, part: V) -> (r: ValR2<V>)
    ensures
        match r {
            Ok(w) => right_trimmed(*v, part, w),
            Err(e) => not_strings(*v, part, e),
        },
{
    let s = match v.try_as_str() {
        Ok(s) => s,
        Err(e) => {
            return Err(e);
        },
    };
    let t = match part.try_as_str() {
        Ok(t) => t,
        Err(e) => {
            assert(str_of(*v, Some(s@)));
            return Err(e);
        },
    };
    let w = match text::strip_suffix(s, t) {
        Some(rest) => {
            let w = V::from(rest);
            assert(from_str(rest@, w));
            w
        },
        None => v.clone(),
    };
    assert(str_of(*v, Some(s@)) && str_of(part, Some(t@)));
    Ok(w)
}

/// Escape a string for CSV, by doubling its quotation marks.
pub fn escape_csv<V: ValT>(v: &V) -> (r: ValR2<V>)
    ensures
        on_text(*v, |s: Seq<char>| spelled(s, for_char('"', "\"\""@)), r),
{
    match v.try_as_str() {
        Ok(s) => {
            let t = text::replace_char(s, '"', "\"\"");
            let w = V::from(t);
            assert(str_of(*v, Some(s@)));
            assert(from_str(t@, w));
            Ok(w)
        },
        Err(e) => Err(e),
    }
}

/// Escape a string for a shell, where it stands between apostrophes.
pub fn escape_sh<V: ValT>(v: &V) -> (r: ValR2<V>)
    ensures
        on_text(*v, |s: Seq<char>| spelled(s, for_char('\'', "'\\''"@)), r),
{
    match v.try_as_str() {
        Ok(s) => {
            let t = text::replace_char(s, '\'', "'\\''");
            let w = V::from(t);
            assert(str_of(*v, Some(s@)));
            assert(from_str(t@, w));
            Ok(w)
        },
        Err(e) => Err(e),
    }
}

/// Escape a string for HTML.
pub fn escape_html<V: ValT>(v: &V) -> (r: ValR2<V>)
    ensures
        on_text(*v, |s: Seq<char>| spelled(s, |c: char| html(c)), r),
{
    match v.try_as_str() {
        Ok(s) => {
            let t = escape::escape_html(s);
            let w = V::from(t);
            assert(str_of(*v, Some(s@)));
            assert(from_str(t@, w));
            Ok(w)
        },
        Err(e) => Err(e),
    }
}

/// Escape a string for TSV.
pub fn escape_tsv<V: ValT>(v: &V) -> (r: ValR2<V>)
    ensures
        on_text(*v, |s: Seq<char>| spelled(s, |c: char| tsv(c)), r),
{
    match v.try_as_str() {
        Ok(s) => {
            let t = escape::escape_tsv(s);
            let w = V::from(t);
            assert(str_of(*v, Some(s@)));
            assert(from_str(t@, w));
            Ok(w)
        },
        Err(e) => Err(e),
    }
}

/// Encode a string for use in a URI.
pub fn encode_uri<V: ValT>(v: &V) -> (r: ValR2<V>)
    ensures
        on_text(*v, |s: Seq<char>| percent_encoded(encode_utf8(s)), r),
{
    match v.try_as_str() {
        Ok(s) => {
            let t = escape::encode_uri(s);
            let w = V::from(t);
            assert(str_of(*v, Some(s@)));
            assert(from_str(t@, w));
            Ok(w)
        },
        Err(e) => Err(e),
    }
}

/// Encode a string in Base64.
pub fn encode_base64<V: ValT>(v: &V) -> (r: ValR2<V>)
    ensures
        on_text(*v, |s: Seq<char>| base64(encode_utf8(s)), r),
{
    match v.try_as_str() {
        Ok(s) => {
            let t = escape::encode_base64(s);
            let w = V::from(t);
            assert(str_of(*v, Some(s@)));
            assert(from_str(t@, w));
            Ok(w)
        },
        Err(e) => Err(e),
    }
}

/// `w` is a string whose text has that of `v` in Base64.
pub open spec fn base64_decoded<V: ValT>(v: V, w: V) -> bool {
    exists|t: Seq<char>| #[trigger] str_of(v, Some(base64(encode_utf8(t)))) && from_str(t, w)
}

/// `v` is a string that is not Base64 of a text, and `e` says so.
pub open spec fn not_base64<V: ValT>(v: V, e: Error<V>) -> bool {
    exists|s: Seq<char>| #[trigger] str_of(v, Some(s)) && base64_failed(s, e)
}

/// Decode a string from Base64.
pub fn decode_base64<V: ValT>(v: &V) -> (r: ValR2<V>)
    ensures
        match r {
            Ok(w) => base64_decoded(*v, w),
            Err(e) => not_str(*v, e) || not_base64(*v, e),
        },
{
    match v.try_as_str() {
        Ok(s) => match escape::decode_base64(s) {
            Ok(t) => {
                let w = V::from(t);
                assert(str_of(*v, Some(base64(encode_utf8(t@)))));
                assert(from_str(t@, w));
                Ok(w)
            },
            Err(e) => {
                assert(str_of(*v, Some(s@)));
                assert(not_base64(*v, e));
                Err(e)
            },
        },
        Err(e) => Err(e),
    }
}

/// Convert a string to the value that it holds as JSON.
///
/// The value is read by `parse`, from its first token on.
pub fn fromjson<
    V: ValT,
    E: From<hifijson::token::Expect> + core::fmt::Display,
    P: FnOnce(hifijson::Token, &mut hifijson::SliceLexer<'_>) -> Result<V, E>,
>(v: &V, parse: P) -> (r: ValR2<V>)
    requires
        forall|token: hifijson::Token, lexer: &mut hifijson::SliceLexer<'_>| #[trigger]
            call_requires(parse, (token, lexer)),
    ensures
        match r {
            Ok(w) => exists|
                s: Seq<char>,
                token: hifijson::Token,
                lexer: &mut hifijson::SliceLexer<'_>,
            | #[trigger]
                str_of(*v, Some(s)) && #[trigger] call_ensures(
                    parse,
                    (token, lexer),
                    Ok::<V, E>(w),
                ) && starts_at(s, token, *lexer) && is_blank(unread(*final(lexer))),
            Err(e) => not_str(*v, e) || exists|s: Seq<char>, d: E| #[trigger]
                str_of(*v, Some(s)) && #[trigger] json_failed(s, d, e) && {
                    ||| is_blank(encode_utf8(s)) && expected(hifijson::token::Expect::Value, d)
                    ||| exists|token: hifijson::Token, lexer: &mut hifijson::SliceLexer<'_>|
                        #[trigger] call_ensures(parse, (token, lexer), Err::<V, E>(d))
                            && starts_at(s, token, *lexer)
                    ||| expected(hifijson::token::Expect::Eof, d) && exists|
                        token: hifijson::Token,
                        lexer: &mut hifijson::SliceLexer<'_>,
                        w: V,
                    | #[trigger]
                        call_ensures(parse, (token, lexer), Ok::<V, E>(w)) && starts_at(
                            s,
                            token,
                            *lexer,
                        ) && !is_blank(unread(*final(lexer)))
                },
        },
{
    match v.try_as_str() {
        Ok(s) => {
            let r = from_json(s, parse);
            assert(str_of(*v, Some(s@)));
            r
        },
        Err(e) => Err(e),
    }
}

/// `r` is the number for the timestamp that the text of `v` is.
pub open spec fn date_read<V: ValT, F: FnOnce(i64, u32) -> V>(
    v: V,
    fractional: F,
    r: ValR2<V>,
) -> bool {
    exists|s: Seq<char>| #[trigger]
        str_of(v, Some(s)) && timestamp_read(s, iso8601_parsed(s), fractional, r)
}

/// Parse an ISO-8601 timestamp string to a number.
///
/// A text with a decimal sign gives the number that `fractional` makes of seconds and nanoseconds,
/// any other text an integer.
pub fn fromdateiso8601<V: ValT, F: FnOnce(i64, u32) -> V>(v: &V, fractional: F) -> (r: ValR2<V>)
    requires
        forall|seconds: i64, nanos: u32| #[trigger] call_requires(fractional, (seconds, nanos)),
    ensures
        date_read(*v, fractional, r) || (r matches Err(e) && not_str(*v, e)),
{
    match v.try_as_str() {
        Ok(s) => {
            let r = from_iso8601(s, fractional);
            assert(str_of(*v, Some(s@)));
            r
        },
        Err(e) => Err(e),
    }
}

/// `w` is a string made of the timestamp for `v`.
pub open spec fn date_written<
    V: ValT,
    N: FnOnce(&V) -> Result<i128, Error<V>>,
    S: FnOnce(&V) -> String,
>(v: V, nanos: N, show: S, w: V) -> bool {
    exists|t: String| #[trigger] iso8601_written(v, nanos, show, Ok(t)) && from_str(t@, w)
}

/// Format a number as an ISO-8601 timestamp string.
///
/// A number that is no integer is taken as the nanoseconds that `nanos` makes of it.
/// An error speaks of the value as `show` shows it.
pub fn todateiso8601<
    V: ValT,
    N: FnOnce(&V) -> Result<i128, Error<V>>,
    S: FnOnce(&V) -> String,
>(v: &V, nanos: N, show: S) -> (r: ValR2<V>)
    requires
        call_requires(nanos, (v,)),
        call_requires(show, (v,)),
    ensures
        match r {
            Ok(w) => date_written(*v, nanos, show, w),
            Err(e) => iso8601_written(*v, nanos, show, Err(e)),
        },
{
    match to_iso8601(v, nanos, show) {
        Ok(t) => {
            let w = V::from(t);
            assert(from_str(t@, w));
            assert(date_written(*v, nanos, show, w));
            Ok(w)
        },
        Err(e) => Err(e),
    }
}

/// Raise an error with the value as its payload.
pub fn error<V>(v: V) -> (r: ValR2<V>)
    ensures
        r == Err::<V, Error<V>>(Error::Val(v)),
{
    Err(Error::Val(v))
}

/// `w` is the truth value that `test` gives for `x` and `y`.
pub open spec fn said<V: ValT, C: FnOnce(&V, &V) -> bool>(x: V, y: V, test: C, w: V) -> bool {
    exists|b: bool| #[trigger] call_ensures(test, (&x, &y), b) && from_bool(b, w)
}

/// Whether a value contains another one, which `test` decides.
pub fn contains<V: ValT, C: FnOnce(&V, &V) -> bool>(x: &V, y: V, test: C) -> (r: ValR2<V>)
    requires
        call_requires(test, (x, &y)),
    ensures
        r matches Ok(w) && said(*x, y, test, w),
{
    let b = test(x, &y);
    let w = V::from(b);
    assert(from_bool(b, w));
    Ok(w)
}

/// `w` is the truth value that `test` gives for `v` and `k`, if it gives one.
pub open spec fn has_said<V: ValT, H: FnOnce(&V, &V) -> Result<bool, Error<V>>>(
    v: V,
    k: V,
    test: H,
    w: V,
) -> bool {
    exists|b: bool| #[trigger]
        call_ensures(test, (&v, &k), Ok::<bool, Error<V>>(b)) && from_bool(b, w)
}

/// Whether a value has a key, which `test` decides.
pub fn has<V: ValT, H: FnOnce(&V, &V) -> Result<bool, Error<V>>>(v: &V, k: V, test: H) -> (r: ValR2<
    V,
>)
    requires
        call_requires(test, (v, &k)),
    ensures
        match r {
            Ok(w) => has_said(*v, k, test, w),
            Err(e) => call_ensures(test, (v, &k), Err::<bool, Error<V>>(e)),
        },
{
    match test(v, &k) {
        Ok(b) => {
            let w = V::from(b);
            assert(from_bool(b, w));
            assert(has_said(*v, k, test, w));
            Ok(w)
        },
        Err(e) => Err(e),
    }
}

/// `w` is the array of the keys that `keys` gives for `v`.
pub open spec fn keys_array<V: ValT, K: FnOnce(&V) -> Result<Vec<V>, Error<V>>>(
    v: V,
    keys: K,
    w: V,
) -> bool {
    exists|ks: Vec<V>| #[trigger]
        call_ensures(keys, (&v,), Ok::<Vec<V>, Error<V>>(ks)) && call_ensures(
            V::from_seq,
            (ks,),
            w,
        )
}

/// The keys of a value as an array, if `keys` gives any.
pub fn keys_unsorted<V: ValT, K: FnOnce(&V) -> Result<Vec<V>, Error<V>>>(v: &V, keys: K) -> (r:
    ValR2<V>)
    requires
        call_requires(keys, (v,)),
    ensures
        match r {
            Ok(w) => keys_array(*v, keys, w),
            Err(e) => call_ensures(keys, (v,), Err::<Vec<V>, Error<V>>(e)),
        },
{
    match keys(v) {
        Ok(ks) => {
            let w = V::from_seq(ks);
            assert(keys_array(*v, keys, w));
            Ok(w)
        },
        Err(e) => Err(e),
    }
}

/// `w` is the array of the numbers `ps`.
pub open spec fn is_int_array(ps: Seq<usize>, w: Val) -> bool {
    w matches Val::Arr(is) && is@.len() == ps.len() && forall|k: int|
        0 <= k < ps.len() ==> #[trigger] is@[k] == Val::Int(ps[k] as isize)
}

/// `w` is the array of the positions of `y` in `x`.
pub open spec fn found_array<E: Fn(&Val, &Val) -> bool>(eq: E, x: Val, y: Val, w: Val) -> bool {
    exists|ps: Seq<usize>| #[trigger] found(eq, x, y, Ok(ps)) && is_int_array(ps, w)
}

/// The indices of a value in a string or an array.
///
/// Values are compared by `eq`.
pub fn indices<E: Fn(&Val, &Val) -> bool>(x: &Val, y: Val, eq: E) -> (r: ValR2<Val>)
    requires
        forall|a: &Val, b: &Val| #[trigger] call_requires(eq, (a, b)),
    ensures
        match r {
            Ok(w) => found_array(eq, *x, y, w),
            Err(e) => found(eq, *x, y, Err(e)),
        },
{
    match search::indices(x, &y, eq) {
        Ok(ps) => {
            let mut is: Vec<Val> = Vec::with_capacity(ps.len());
            for k in 0..ps.len()
                invariant
                    is@.len() == k,
                    forall|l: int| 0 <= l < k ==> #[trigger] is@[l] == Val::Int(ps@[l] as isize),
            {
                is.push(Val::Int(ps[k] as isize));
            }
            let w = Val::from_seq(is);
            assert(is_int_array(ps@, w));
            assert(found_array(eq, *x, y, w));
            Ok(w)
        },
        Err(e) => Err(e),
    }
}

} // verus!
