//! What each native filter does, by its entry in the table of filters.

use crate::codepoints::implode_failed;
use crate::escape::{base64, html, percent_encoded, tsv};
use crate::filters::{core_run_rows, is_row, law_name_stands_for_one_operation, Math, Op};
use crate::json::{expected, is_blank, json_failed, starts_at, unread};
use crate::laws::{law_ltrimstr_on_json, law_rtrimstr_on_json};
use crate::natives;
use crate::natives::{
    array_mapped, array_satisfies, base64_decoded, byte_length, date_read, date_written, ends_said,
    explodes_to, found_array, has_said, implodes_to, keys_array, left_trimmed, not_base64,
    not_strings, on_text, right_trimmed, said, shown, sorts_to, starts_said,
};
use crate::range::{range_of, range_starts, Range};
use crate::search::found;
use crate::select::{greatest_by, least_by};
use crate::sort::{first_failure, group_array, sorted};
use crate::stream::{first, limit, limited, unary_step, with_debug, Limit};
use crate::text::{for_char, has_prefix, has_suffix, lower, spelled, upper};
use crate::time::iso8601_written;
use crate::val::{
    int_of, length, length_is, not_arr, not_str, rounded, str_of, text_error, Error, Val, ValR2,
    ValT, ValTx,
};
use vstd::prelude::*;
use vstd::utf8::encode_utf8;

verus! {

/// How a filter is run.
#[derive(Clone, Copy, Debug, PartialEq, Eq, Structural)]
pub enum Kind {
    /// by [`run_plain`]: one output, which depends on the input alone
    Plain,
    /// by [`run_unary`]: one output for every output of the argument
    Unary,
    /// by [`run_by_key`]: compares elements by the outputs of the argument
    ByKey,
    /// by [`run_round`]: rounds a number
    Round,
    /// by [`run_convert`]: converts between values and text
    Convert,
    /// by [`run_json`]: one output, which depends on what a JSON value is made of
    Json,
    /// by [`run_json_unary`]: the same, for every output of the argument
    JsonUnary,
    /// by [`run_limited`]: the first outputs of an argument
    Limited,
    /// by [`run_range`]: values at equal distances
    Range,
    /// by [`run_input`]: what is read
    Input,
    /// by [`run_from_json`]: parses JSON
    FromJson,
    /// by [`run_debug`]: shows the input
    Debug,
    /// by asking for the environment
    Env,
    /// by asking the clock
    Now,
    /// by a mathematical function
    Math(Math),
    /// by [`crate::regex::re`], which is asked for the text between matches or not,
    /// and for the matches or not
    Regex(bool, bool),
}

/// How a filter is run.
pub open spec fn kind_of(op: Op) -> Kind {
    match op {
        Op::Utf8ByteLength
        | Op::Explode
        | Op::Implode
        | Op::AsciiDowncase
        | Op::AsciiUpcase
        | Op::Reverse
        | Op::Sort
        | Op::EscapeCsv
        | Op::EscapeSh
        | Op::Error
        | Op::EscapeHtml
        | Op::EscapeTsv
        | Op::EncodeUri
        | Op::EncodeBase64
        | Op::DecodeBase64 => Kind::Plain,
        Op::StartsWith | Op::EndsWith | Op::LTrimStr | Op::RTrimStr => Kind::Unary,
        Op::SortBy | Op::GroupBy | Op::MinByOrEmpty | Op::MaxByOrEmpty => Kind::ByKey,
        Op::Floor | Op::Round | Op::Ceil => Kind::Round,
        Op::ToJson | Op::FromDateIso8601 | Op::ToDateIso8601 => Kind::Convert,
        Op::Length | Op::KeysUnsorted => Kind::Json,
        Op::Contains | Op::Has | Op::Indices => Kind::JsonUnary,
        Op::First | Op::Limit => Kind::Limited,
        Op::Range => Kind::Range,
        Op::Inputs => Kind::Input,
        Op::FromJson => Kind::FromJson,
        Op::Debug => Kind::Debug,
        Op::Env => Kind::Env,
        Op::Now => Kind::Now,
        Op::Math(m) => Kind::Math(m),
        Op::Matches => Kind::Regex(false, true),
        Op::SplitMatches => Kind::Regex(true, true),
        Op::Split => Kind::Regex(true, false),
    }
}

/// How a filter is run.
pub fn kind(op: Op) -> (k: Kind)
    ensures
        k == kind_of(op),
{
    match op {
        Op::Utf8ByteLength
        | Op::Explode
        | Op::Implode
        | Op::AsciiDowncase
        | Op::AsciiUpcase
        | Op::Reverse
        | Op::Sort
        | Op::EscapeCsv
        | Op::EscapeSh
        | Op::Error
        | Op::EscapeHtml
        | Op::EscapeTsv
        | Op::EncodeUri
        | Op::EncodeBase64
        | Op::DecodeBase64 => Kind::Plain,
        Op::StartsWith | Op::EndsWith | Op::LTrimStr | Op::RTrimStr => Kind::Unary,
        Op::SortBy | Op::GroupBy | Op::MinByOrEmpty | Op::MaxByOrEmpty => Kind::ByKey,
        Op::Floor | Op::Round | Op::Ceil => Kind::Round,
        Op::ToJson | Op::FromDateIso8601 | Op::ToDateIso8601 => Kind::Convert,
        Op::Length | Op::KeysUnsorted => Kind::Json,
        Op::Contains | Op::Has | Op::Indices => Kind::JsonUnary,
        Op::First | Op::Limit => Kind::Limited,
        Op::Range => Kind::Range,
        Op::Inputs => Kind::Input,
        Op::FromJson => Kind::FromJson,
        Op::Debug => Kind::Debug,
        Op::Env => Kind::Env,
        Op::Now => Kind::Now,
        Op::Math(m) => Kind::Math(m),
        Op::Matches => Kind::Regex(false, true),
        Op::SplitMatches => Kind::Regex(true, true),
        Op::Split => Kind::Regex(true, false),
    }
}

/// `w` is an output of a plain filter.
pub open spec fn plain_gives<V: ValT + Ord>(op: Op, v: V, w: V) -> bool {
    match op {
        Op::Utf8ByteLength => byte_length(v, w),
        Op::Explode => explodes_to(v, w),
        Op::Implode => implodes_to(v, w),
        Op::AsciiDowncase => on_text(v, |s: Seq<char>| s.map_values(|c: char| lower(c)), Ok(w)),
        Op::AsciiUpcase => on_text(v, |s: Seq<char>| s.map_values(|c: char| upper(c)), Ok(w)),
        Op::Reverse => array_mapped(v, |xs: Seq<V>, ys: Seq<V>| ys == xs.reverse(), w),
        Op::Sort => array_mapped(v, |xs: Seq<V>, ys: Seq<V>| sorted(xs, ys), w),
        Op::EscapeCsv => on_text(v, |s: Seq<char>| spelled(s, for_char('"', "\"\""@)), Ok(w)),
        Op::EscapeSh => on_text(v, |s: Seq<char>| spelled(s, for_char('\'', "'\\''"@)), Ok(w)),
        Op::EscapeHtml => on_text(v, |s: Seq<char>| spelled(s, |c: char| html(c)), Ok(w)),
        Op::EscapeTsv => on_text(v, |s: Seq<char>| spelled(s, |c: char| tsv(c)), Ok(w)),
        Op::EncodeUri => on_text(v, |s: Seq<char>| percent_encoded(encode_utf8(s)), Ok(w)),
        Op::EncodeBase64 => on_text(v, |s: Seq<char>| base64(encode_utf8(s)), Ok(w)),
        Op::DecodeBase64 => base64_decoded(v, w),
        _ => false,
    }
}

/// `e` is the error of a plain filter.
pub open spec fn plain_fails<V: ValT + Ord>(op: Op, v: V, e: Error<V>) -> bool {
    match op {
        Op::Error => e == Error::Val(v),
        Op::Reverse | Op::Sort => not_arr(v, e),
        Op::Implode => not_arr(v, e) || array_satisfies(v, |xs: Seq<V>| implode_failed(xs, e)),
        Op::DecodeBase64 => not_str(v, e) || not_base64(v, e),
        _ => not_str(v, e),
    }
}

/// Run a plain filter.
pub fn run_plain<V: ValT + Ord>(op: Op, v: V) -> (r: ValR2<V>)
    requires
        kind_of(op) == Kind::Plain,
    ensures
        match r {
            Ok(w) => plain_gives(op, v, w),
            Err(e) => plain_fails(op, v, e),
        },
{
    match op {
        Op::Utf8ByteLength => natives::utf8bytelength(&v),
        Op::Explode => natives::explode(&v),
        Op::Implode => natives::implode(v),
        Op::AsciiDowncase => natives::ascii_downcase(v),
        Op::AsciiUpcase => natives::ascii_upcase(v),
        Op::Reverse => natives::reverse(v),
        Op::Sort => natives::sort(v),
        Op::EscapeCsv => natives::escape_csv(&v),
        Op::EscapeSh => natives::escape_sh(&v),
        Op::EscapeHtml => natives::escape_html(&v),
        Op::EscapeTsv => natives::escape_tsv(&v),
        Op::EncodeUri => natives::encode_uri(&v),
        Op::EncodeBase64 => natives::encode_base64(&v),
        Op::DecodeBase64 => natives::decode_base64(&v),
        _ => natives::error(v),
    }
}

/// `w` is the output of a filter for the output `y` of its argument.
pub open spec fn unary_gives<V: ValT>(op: Op, v: V, y: V, w: V) -> bool {
    match op {
        Op::StartsWith => starts_said(v, y, w),
        Op::EndsWith => ends_said(v, y, w),
        Op::LTrimStr => left_trimmed(v, y, w),
        Op::RTrimStr => right_trimmed(v, y, w),
        _ => false,
    }
}

/// `r` is what a filter gives for the output `y` of its argument.
pub open spec fn unary_outcome<V: ValT>(op: Op, v: V, y: V, r: ValR2<V>) -> bool {
    match r {
        Ok(w) => unary_gives(op, v, y, w),
        Err(e) => not_strings(v, y, e),
    }
}

/// Run a filter on an output of its argument.
pub fn run_unary<V: ValT>(op: Op, v: &V, y: V) -> (r: ValR2<V>)
    requires
        kind_of(op) == Kind::Unary,
    ensures
        unary_outcome(op, *v, y, r),
{
    match op {
        Op::StartsWith => natives::startswith(v, y),
        Op::EndsWith => natives::endswith(v, y),
        Op::LTrimStr => natives::ltrimstr(v, y),
        _ => natives::rtrimstr(v, y),
    }
}

/// `w` is the output of a filter that compares elements by `f`.
pub open spec fn by_key_gives<V: ValT + Ord, F: Fn(&V) -> Result<Vec<V>, Error<V>>>(
    op: Op,
    v: V,
    f: F,
    w: V,
) -> bool {
    match op {
        Op::SortBy => array_mapped(v, |xs: Seq<V>, ys: Seq<V>| sorts_to(f, xs, ys), w),
        Op::GroupBy => array_satisfies(v, |xs: Seq<V>| group_array(f, xs, w)),
        Op::MinByOrEmpty => array_satisfies(v, |xs: Seq<V>| least_by(f, xs, w)),
        Op::MaxByOrEmpty => array_satisfies(v, |xs: Seq<V>| greatest_by(f, xs, w)),
        _ => false,
    }
}

/// `e` is the error of a filter that compares elements by `f`.
pub open spec fn by_key_fails<V: ValT + Ord, F: Fn(&V) -> Result<Vec<V>, Error<V>>>(
    op: Op,
    v: V,
    f: F,
    e: Error<V>,
) -> bool {
    not_arr(v, e) || array_satisfies(
        v,
        |xs: Seq<V>| first_failure(f, xs, e) && (op == Op::SortBy ==> xs.len() >= 2),
    )
}

/// Run a filter that compares the elements of an array by what `f` gives for them.
pub fn run_by_key<V: ValT + Ord, F: Fn(&V) -> Result<Vec<V>, Error<V>>>(op: Op, v: V, f: F) -> (r:
    Option<ValR2<V>>)
    requires
        kind_of(op) == Kind::ByKey,
        forall|x: &V| #[trigger] call_requires(f, (x,)),
    ensures
        match r {
            None => (op == Op::MinByOrEmpty || op == Op::MaxByOrEmpty) && array_satisfies(
                v,
                |xs: Seq<V>| xs.len() == 0,
            ),
            Some(Ok(w)) => by_key_gives(op, v, f, w),
            Some(Err(e)) => by_key_fails(op, v, f, e),
        },
{
    let r = match op {
        Op::SortBy => Some(natives::sort_by(v, f)),
        Op::GroupBy => Some(natives::group_by(v, f)),
        Op::MinByOrEmpty => natives::min_by_or_empty(v, f),
        _ => natives::max_by_or_empty(v, f),
    };
    proof {
        if r is Some && r->0 is Err && !not_arr(v, r->0->Err_0) {
            let e = r->0->Err_0;
            let p = |xs: Seq<V>|
                first_failure(f, xs, e) && (op == Op::SortBy ==> xs.len() >= 2);
            if op == Op::SortBy {
                lemma_satisfies(
                    v,
                    |xs: Seq<V>| xs.len() >= 2 && first_failure(f, xs, e),
                    p,
                );
            } else {
                lemma_satisfies(v, |xs: Seq<V>| first_failure(f, xs, e), p);
            }
        }
    }
    r
}

proof fn lemma_satisfies<V: ValT>(v: V, p: spec_fn(Seq<V>) -> bool, q: spec_fn(Seq<V>) -> bool)
    requires
        array_satisfies(v, p),
        forall|xs: Seq<V>| #[trigger] p(xs) ==> q(xs),
    ensures
        array_satisfies(v, q),
{
    let xs = choose|xs: Vec<V>| #[trigger] call_ensures(V::into_seq, (v,), Ok(xs)) && p(xs@);
    assert(call_ensures(V::into_seq, (v,), Ok(xs)) && q(xs@));
}

/// Round a number by one of three functions, unless it is an integer already.
pub fn run_round<
    V: ValT,
    F: FnOnce(&V) -> ValR2<V>,
    R: FnOnce(&V) -> ValR2<V>,
    C: FnOnce(&V) -> ValR2<V>,
>(op: Op, v: V, floor: F, round: R, ceil: C) -> (r: ValR2<V>)
    requires
        kind_of(op) == Kind::Round,
        call_requires(floor, (&v,)),
        call_requires(round, (&v,)),
        call_requires(ceil, (&v,)),
    ensures
        match op {
            Op::Floor => rounded(v, floor, r),
            Op::Round => rounded(v, round, r),
            _ => rounded(v, ceil, r),
        },
{
    match op {
        Op::Floor => v.round(floor),
        Op::Round => v.round(round),
        _ => v.round(ceil),
    }
}

/// Run a filter that converts between values and text.
///
/// Values are shown by `show`. Timestamps with a decimal sign become numbers by `fractional`,
/// and numbers that are no integers become nanoseconds by `nanos`.
pub fn run_convert<
    V: ValT,
    S: FnOnce(&V) -> String,
    F: FnOnce(i64, u32) -> V,
    N: FnOnce(&V) -> Result<i128, Error<V>>,
>(op: Op, v: &V, show: S, fractional: F, nanos: N) -> (r: ValR2<V>)
    requires
        kind_of(op) == Kind::Convert,
        call_requires(show, (v,)),
        forall|seconds: i64, nanos: u32| #[trigger] call_requires(fractional, (seconds, nanos)),
        call_requires(nanos, (v,)),
    ensures
        match op {
            Op::ToJson => r matches Ok(w) && shown(*v, show, w),
            Op::FromDateIso8601 => date_read(*v, fractional, r) || (r matches Err(e) && not_str(
                *v,
                e,
            )),
            _ => match r {
                Ok(w) => date_written(*v, nanos, show, w),
                Err(e) => iso8601_written(*v, nanos, show, Err(e)),
            },
        },
{
    match op {
        Op::ToJson => natives::tojson(v, show),
        Op::FromDateIso8601 => natives::fromdateiso8601(v, fractional),
        _ => natives::todateiso8601(v, nanos, show),
    }
}

/// Run a filter on a JSON value.
///
/// Decimal numbers are read by `from_dec_str`, and the keys of a value are given by `keys`.
pub fn run_json<D: FnOnce(&str) -> Option<u64>, K: FnOnce(&Val) -> Result<Vec<Val>, Error<Val>>>(
    op: Op,
    v: &Val,
    from_dec_str: D,
    keys: K,
) -> (r: ValR2<Val>)
    requires
        kind_of(op) == Kind::Json,
        forall|s: &str| #[trigger] from_dec_str.requires((s,)),
        call_requires(keys, (v,)),
    ensures
        match op {
            Op::Length => length_is(*v, from_dec_str, r),
            _ => match r {
                Ok(w) => keys_array(*v, keys, w),
                Err(e) => call_ensures(keys, (v,), Err::<Vec<Val>, Error<Val>>(e)),
            },
        },
{
    match op {
        Op::Length => length(v, from_dec_str),
        _ => natives::keys_unsorted(v, keys),
    }
}

/// Run a filter on a JSON value and an output of its argument.
///
/// Whether a value contains another one, has a key or equals another one
/// is decided by `contains`, `has` and `eq`.
pub fn run_json_unary<
    C: FnOnce(&Val, &Val) -> bool,
    H: FnOnce(&Val, &Val) -> Result<bool, Error<Val>>,
    E: Fn(&Val, &Val) -> bool,
>(op: Op, v: &Val, y: Val, contains: C, has: H, eq: E) -> (r: ValR2<Val>)
    requires
        kind_of(op) == Kind::JsonUnary,
        call_requires(contains, (v, &y)),
        call_requires(has, (v, &y)),
        forall|a: &Val, b: &Val| #[trigger] call_requires(eq, (a, b)),
    ensures
        match op {
            Op::Contains => r matches Ok(w) && said(*v, y, contains, w),
            Op::Has => match r {
                Ok(w) => has_said(*v, y, has, w),
                Err(e) => call_ensures(has, (v, &y), Err::<bool, Error<Val>>(e)),
            },
            _ => match r {
                Ok(w) => found_array(eq, *v, y, w),
                Err(e) => found(eq, *v, y, Err(e)),
            },
        },
{
    match op {
        Op::Contains => natives::contains(v, y, contains),
        Op::Has => natives::has(v, y, has),
        _ => natives::indices(v, y, eq),
    }
}

/// `s` are the outputs that `run` gives, of which `first` takes one and `limit` as many as `n` says.
pub open spec fn limited_outcome<V: ValT, I: Iterator<Item = ValR2<V>>, R: FnOnce() -> I>(
    op: Op,
    n: Option<ValR2<V>>,
    run: R,
    s: Limit<I, Error<V>>,
) -> bool {
    match (op, n) {
        (Op::First, None) => s matches Limit::Limited(t) && call_ensures(run, (), t.outputs)
            && t.left == 1,
        (Op::Limit, Some(n)) => limited(n, run, s),
        _ => false,
    }
}

/// Run a filter that gives the first outputs of what `run` gives.
///
/// The number of outputs is an argument of `limit`, but not of `first`.
pub fn run_limited<V: ValT, I: Iterator<Item = ValR2<V>>, R: FnOnce() -> I>(
    op: Op,
    n: Option<ValR2<V>>,
    run: R,
) -> (s: Limit<I, Error<V>>)
    requires
        op == Op::First && n is None || op == Op::Limit && n is Some,
        call_requires(run, ()),
    ensures
        limited_outcome(op, n, run, s),
{
    match n {
        None => Limit::Limited(first(run())),
        Some(n) => limit(n, run),
    }
}

/// Run `range` on an output of each of its arguments.
///
/// Values are added by `plus`.
pub fn run_range<V: ValT + Ord, P: Fn(&V, &V) -> ValR2<V>>(
    op: Op,
    from: ValR2<V>,
    to: ValR2<V>,
    by: ValR2<V>,
    plus: P,
) -> (r: Result<Range<V, Error<V>, P>, Error<V>>)
    requires
        op == Op::Range,
    ensures
        match (to, by) {
            (Err(e), _) => r == Err::<Range<V, Error<V>, P>, Error<V>>(e),
            (Ok(_), Err(e)) => r == Err::<Range<V, Error<V>, P>, Error<V>>(e),
            (Ok(to), Ok(by)) => r matches Ok(s) && range_starts(from, to, by, plus, s),
        },
{
    range_of(from, to, by, plus)
}

/// Run `inputs` on something that has been read.
pub fn run_input<V: ValT>(op: Op, r: Result<V, String>) -> (o: ValR2<V>)
    requires
        op == Op::Inputs,
    ensures
        match r {
            Ok(v) => o == Ok::<V, Error<V>>(v),
            Err(t) => o matches Err(e) && text_error(e, t@),
        },
{
    natives::input(r)
}

/// Run `fromjson`.
///
/// The value is read by `parse`, from its first token on.
pub fn run_from_json<
    V: ValT,
    E: From<hifijson::token::Expect> + core::fmt::Display,
    P: FnOnce(hifijson::Token, &mut hifijson::SliceLexer<'_>) -> Result<V, E>,
>(op: Op, v: &V, parse: P) -> (r: ValR2<V>)
    requires
        op == Op::FromJson,
        forall|token: hifijson::Token, lexer: &mut hifijson::SliceLexer<'_>| #[trigger]
            call_requires(parse, (token, lexer)),
    ensures
        match r {
            Ok(w) => exists|
                s: Seq<char>,
                token: hifijson::Token,
                lexer: &mut hifijson::SliceLexer<'_>,
            | #[trigger]
                str_of(*v, Some(s)) && #[trigger] call_ensures(
                    parse,
                    (token, lexer),
                    Ok::<V, E>(w),
                ) && starts_at(s, token, *lexer) && is_blank(unread(*final(lexer))),
            Err(e) => not_str(*v, e) || exists|s: Seq<char>, d: E| #[trigger]
                str_of(*v, Some(s)) && #[trigger] json_failed(s, d, e) && {
                    ||| is_blank(encode_utf8(s)) && expected(hifijson::token::Expect::Value, d)
                    ||| exists|token: hifijson::Token, lexer: &mut hifijson::SliceLexer<'_>|
                        #[trigger] call_ensures(parse, (token, lexer), Err::<V, E>(d))
                            && starts_at(s, token, *lexer)
                    ||| expected(hifijson::token::Expect::Eof, d) && exists|
                        token: hifijson::Token,
                        lexer: &mut hifijson::SliceLexer<'_>,
                        w: V,
                    | #[trigger]
                        call_ensures(parse, (token, lexer), Ok::<V, E>(w)) && starts_at(
                            s,
                            token,
                            *lexer,
                        ) && !is_blank(unread(*final(lexer)))
                },
        },
{
    natives::fromjson(v, parse)
}

/// Run `debug`: passes the input on after it has been shown by `show`.
pub fn run_debug<V, D: FnOnce(&V)>(op: Op, v: V, show: D) -> (r: ValR2<V>)
    requires
        op == Op::Debug,
        call_requires(show, (&v,)),
    ensures
        r == Ok::<V, Error<V>>(v),
        call_ensures(show, (&v,), ()),
{
    Ok(with_debug(v, show))
}

/// Run a filter under an update by `f`:
/// `error` fails as when it is run, and `debug` updates the input after it has been shown by `show`.
pub fn run_update<V, O, D: FnOnce(&V), F: FnOnce(V) -> O>(op: Op, v: V, show: D, f: F) -> (r: Result<
    O,
    Error<V>,
>)
    requires
        op == Op::Error || op == Op::Debug,
        call_requires(show, (&v,)),
        call_requires(f, (v,)),
    ensures
        match op {
            Op::Error => r == Err::<O, Error<V>>(Error::Val(v)),
            _ => call_ensures(show, (&v,), ()) && (r matches Ok(o) && call_ensures(f, (v,), o)),
        },
{
    match op {
        Op::Error => Err(Error::Val(v)),
        _ => Ok(f(with_debug(v, show))),
    }
}

/// The filters of each kind are those, and no others, and the filters for regular expressions
/// ask for different things: `matches` for the matches, `split_` for what lies between them,
/// and `split_matches` for both.
pub proof fn law_kinds(op: Op, k: Kind, m: Math)
    requires
        call_ensures(kind, (op,), k),
    ensures
        k == kind_of(op),
        k == Kind::Plain <==> op == Op::Utf8ByteLength || op == Op::Explode || op == Op::Implode
            || op == Op::AsciiDowncase || op == Op::AsciiUpcase || op == Op::Reverse
            || op == Op::Sort || op == Op::EscapeCsv || op == Op::EscapeSh || op == Op::Error
            || op == Op::EscapeHtml || op == Op::EscapeTsv || op == Op::EncodeUri
            || op == Op::EncodeBase64 || op == Op::DecodeBase64,
        k == Kind::Unary <==> op == Op::StartsWith || op == Op::EndsWith || op == Op::LTrimStr
            || op == Op::RTrimStr,
        k == Kind::ByKey <==> op == Op::SortBy || op == Op::GroupBy || op == Op::MinByOrEmpty
            || op == Op::MaxByOrEmpty,
        k == Kind::Round <==> op == Op::Floor || op == Op::Round || op == Op::Ceil,
        k == Kind::Convert <==> op == Op::ToJson || op == Op::FromDateIso8601
            || op == Op::ToDateIso8601,
        k == Kind::Json <==> op == Op::Length || op == Op::KeysUnsorted,
        k == Kind::JsonUnary <==> op == Op::Contains || op == Op::Has || op == Op::Indices,
        k == Kind::Limited <==> op == Op::First || op == Op::Limit,
        k == Kind::Range <==> op == Op::Range,
        k == Kind::Input <==> op == Op::Inputs,
        k == Kind::FromJson <==> op == Op::FromJson,
        k == Kind::Debug <==> op == Op::Debug,
        k == Kind::Env <==> op == Op::Env,
        k == Kind::Now <==> op == Op::Now,
        k == Kind::Math(m) <==> op == Op::Math(m),
        k == Kind::Regex(false, true) <==> op == Op::Matches,
        k == Kind::Regex(true, false) <==> op == Op::Split,
        k == Kind::Regex(true, true) <==> op == Op::SplitMatches,
{
}

/// `first` gives what `limit` gives with a limit of one, by the entries of the two in the table:
/// both are the same stream if they are made of the same outputs.
pub proof fn law_first_is_limit_of_one<V: ValT, I: Iterator<Item = ValR2<V>>, R: FnOnce() -> I>(
    first_op: Op,
    limit_op: Op,
    one: V,
    run: R,
    a: Limit<I, Error<V>>,
    b: Limit<I, Error<V>>,
)
    requires
        is_row(core_run_rows(), "first"@, 1, first_op),
        is_row(core_run_rows(), "limit"@, 2, limit_op),
        forall|i: Option<isize>| #[trigger] int_of(one, i) ==> i == Some(1isize),
        forall|o: I, p: I| #[trigger]
            call_ensures(run, (), o) && #[trigger] call_ensures(run, (), p) ==> o == p,
        limited_outcome(limit_op, Some(Ok(one)), run, a),
        limited_outcome(first_op, None, run, b),
    ensures
        b == a,
        b matches Limit::Limited(t) && call_ensures(run, (), t.outputs) && t.left == 1,
{
    lemma_rows();
    law_name_stands_for_one_operation(16, 1, first_op);
    law_name_stands_for_one_operation(17, 2, limit_op);
}

/// `first` gives the first output of its argument, whether value or error, and none if that has
/// none; after that it gives none.
pub proof fn law_first_gives_the_first_output<
    V: ValT,
    I: Iterator<Item = ValR2<V>>,
    R: FnOnce() -> I,
>(
    first_op: Op,
    run: R,
    before: Limit<I, Error<V>>,
    r: Option<ValR2<V>>,
    between: Limit<I, Error<V>>,
    s: Option<ValR2<V>>,
    after: Limit<I, Error<V>>,
)
    requires
        is_row(core_run_rows(), "first"@, 1, first_op),
        limited_outcome(first_op, None, run, before),
        before matches Limit::Limited(t) && between matches Limit::Limited(u) && (t.left > 0
            ==> u.left == t.left - 1 && exists|outputs: &mut I|
            *outputs == t.outputs && *final(outputs) == u.outputs && #[trigger] call_ensures(
                I::next,
                (outputs,),
                r,
            )),
        between matches Limit::Limited(u) && after matches Limit::Limited(w) && (u.left == 0 ==> s
            is None && w == u),
    ensures
        exists|outputs: &mut I|
            call_ensures(run, (), *outputs) && #[trigger] call_ensures(I::next, (outputs,), r),
        s is None,
{
    lemma_rows();
    law_name_stands_for_one_operation(16, 1, first_op);
}

/// If the argument of a filter gives one output, then so does the filter:
/// what it gives for that output.
pub proof fn law_one_argument_gives_one_output<V, E, F: Fn(&V, V) -> Result<V, E>>(
    f: F,
    input: V,
    y: V,
    r: Option<Result<V, E>>,
    rest: Seq<Result<V, E>>,
    s: Option<Result<V, E>>,
    end: Seq<Result<V, E>>,
)
    requires
        unary_step(f, input, seq![Ok(y)], r, rest),
        unary_step(f, input, rest, s, end),
    ensures
        r matches Some(x) && call_ensures(f, (&input, y), x),
        s is None,
{
}

/// On strings, `startswith` and `ltrimstr` give one output each for an output of their argument,
/// by the entries of the two in the table: a truth value `b` and a string `r`.
/// If `b` is true, then `part` and `r` make up `v`, else `r` is `v`.
pub proof fn law_table_ltrimstr_removes_what_startswith_finds(
    test_op: Op,
    trim_op: Op,
    v: String,
    part: String,
    found: ValR2<Val>,
    trimmed: ValR2<Val>,
)
    requires
        is_row(core_run_rows(), "startswith"@, 1, test_op),
        is_row(core_run_rows(), "ltrimstr"@, 1, trim_op),
        unary_outcome(test_op, Val::Str(v), Val::Str(part), found),
        unary_outcome(trim_op, Val::Str(v), Val::Str(part), trimmed),
    ensures
        found matches Ok(Val::Bool(b)) && trimmed matches Ok(Val::Str(r)) && b == has_prefix(
            v@,
            part@,
        ) && if b {
            part@ + r@ == v@
        } else {
            r@ == v@
        },
{
    lemma_rows();
    law_name_stands_for_one_operation(19, 1, test_op);
    law_name_stands_for_one_operation(21, 1, trim_op);
    law_ltrimstr_on_json(v, part, found, trimmed);
}

/// On strings, `endswith` and `rtrimstr` give one output each for an output of their argument,
/// by the entries of the two in the table: a truth value `b` and a string `r`.
/// If `b` is true, then `r` and `part` make up `v`, else `r` is `v`.
pub proof fn law_table_rtrimstr_removes_what_endswith_finds(
    test_op: Op,
    trim_op: Op,
    v: String,
    part: String,
    found: ValR2<Val>,
    trimmed: ValR2<Val>,
)
    requires
        is_row(core_run_rows(), "endswith"@, 1, test_op),
        is_row(core_run_rows(), "rtrimstr"@, 1, trim_op),
        unary_outcome(test_op, Val::Str(v), Val::Str(part), found),
        unary_outcome(trim_op, Val::Str(v), Val::Str(part), trimmed),
    ensures
        found matches Ok(Val::Bool(b)) && trimmed matches Ok(Val::Str(r)) && b == has_suffix(
            v@,
            part@,
        ) && if b {
            r@ + part@ == v@
        } else {
            r@ == v@
        },
{
    lemma_rows();
    law_name_stands_for_one_operation(20, 1, test_op);
    law_name_stands_for_one_operation(22, 1, trim_op);
    law_rtrimstr_on_json(v, part, found, trimmed);
}

/// Where some filters stand in the table.
proof fn lemma_rows()
    ensures
        core_run_rows().len() == 25,
        core_run_rows()[16] == ("first"@, 1usize, Op::First),
        core_run_rows()[17] == ("limit"@, 2usize, Op::Limit),
        core_run_rows()[19] == ("startswith"@, 1usize, Op::StartsWith),
        core_run_rows()[20] == ("endswith"@, 1usize, Op::EndsWith),
        core_run_rows()[21] == ("ltrimstr"@, 1usize, Op::LTrimStr),
        core_run_rows()[22] == ("rtrimstr"@, 1usize, Op::RTrimStr),
{
}

} // verus!
