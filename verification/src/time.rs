//! Timestamps as text and as numbers.

use crate::text::{decimal, to_decimal};
use crate::val::{from_int, int_of, text_error, Error, ValR2, ValT};
use vstd::prelude::*;
use vstd::string::StringExecFns;

verus! {

/// What `time` reads an ISO-8601 timestamp as: the whole seconds since 1970/01/01,
/// and the nanoseconds on top of them; or what it says of other text.
pub uninterp spec fn iso8601_parsed(s: Seq<char>) -> Result<(i64, u32), Seq<char>>;

/// The ISO-8601 timestamp that `time` writes for whole seconds since 1970/01/01,
/// or what it says if it cannot.
pub uninterp spec fn iso8601_seconds(i: i64) -> Result<Seq<char>, Seq<char>>;

/// The ISO-8601 timestamp that `time` writes for nanoseconds since 1970/01/01,
/// or what it says if it cannot.
pub uninterp spec fn iso8601_nanos(n: i128) -> Result<Seq<char>, Seq<char>>;

/// The first second of the year 0 and the last one of the year 9999, since 1970/01/01.
pub open spec fn in_four_digit_years(seconds: int) -> bool {
    -62_167_219_200 <= seconds <= 253_402_300_799
}

/// Whether `s` has a decimal sign, which is a point or a comma.
pub open spec fn has_fraction(s: Seq<char>) -> bool {
    s.contains('.') || s.contains(',')
}

/// `t` is the timestamp for `i` seconds, and reads as `i` seconds again.
pub open spec fn is_seconds_text(i: i64, t: Seq<char>) -> bool {
    &&& iso8601_seconds(i) == Ok::<Seq<char>, Seq<char>>(t)
    &&& iso8601_parsed(t) == Ok::<(i64, u32), Seq<char>>((i, 0))
    &&& !has_fraction(t)
}

/// `t` is the timestamp for `n` nanoseconds, has a decimal sign,
/// and reads as the same nanoseconds again.
pub open spec fn is_nanos_text(n: i128, t: Seq<char>) -> bool {
    &&& iso8601_nanos(n) == Ok::<Seq<char>, Seq<char>>(t)
    &&& has_fraction(t)
    &&& iso8601_parsed(t) matches Ok((seconds, nanos)) && seconds == n as int / 1_000_000_000
        && nanos == n as int % 1_000_000_000
}

/// Calls [`time::OffsetDateTime::parse`] with [`time::format_description::well_known::Iso8601`],
/// and takes `unix_timestamp` and `nanosecond` of what it gives, or the text of its error.
///
/// The result depends on nothing but the text.
#[verifier::external_body]
fn parse(s: &str) -> (r: Result<(i64, u32), String>)
    ensures
        iso8601_parsed(s@) == match r {
            Ok(p) => Ok::<(i64, u32), Seq<char>>(p),
            Err(t) => Err(t@),
        },
{
    let format = time::format_description::well_known::Iso8601::DEFAULT;
    time::OffsetDateTime::parse(s, &format).map(|d| (d.unix_timestamp(), d.nanosecond())).map_err(
        |e| e.to_string(),
    )
}

/// Calls [`time::OffsetDateTime::from_unix_timestamp`] and formats what it gives by `format`
/// with [`time::format_description::well_known::Rfc3339`],
/// which is how ISO-8601 writes whole seconds in UTC.
///
/// The result depends on nothing but the number. There is one exactly for the years that have
/// up to four digits. It has no fraction, and parsing it gives the number back.
#[verifier::external_body]
fn format_seconds(i: i64) -> (r: Result<String, String>)
    ensures
        iso8601_seconds(i) == match r {
            Ok(t) => Ok::<Seq<char>, Seq<char>>(t@),
            Err(p) => Err(p@),
        },
        r is Ok <==> in_four_digit_years(i as int),
        r matches Ok(t) ==> is_seconds_text(i, t@),
{
    let format = time::format_description::well_known::Rfc3339;
    let date = time::OffsetDateTime::from_unix_timestamp(i).map_err(|e| e.to_string())?;
    date.format(&format).map_err(|e| e.to_string())
}

/// Calls [`time::OffsetDateTime::from_unix_timestamp_nanos`] and formats what it gives by `format`
/// with [`time::format_description::well_known::Iso8601`].
///
/// The result depends on nothing but the number. There is one exactly for the years that have
/// up to four digits. It has nine digits behind the decimal sign, and parsing it gives
/// the number back, as whole seconds and the nanoseconds on top of them.
#[verifier::external_body]
fn format_nanos(n: i128) -> (r: Result<String, String>)
    ensures
        iso8601_nanos(n) == match r {
            Ok(t) => Ok::<Seq<char>, Seq<char>>(t@),
            Err(p) => Err(p@),
        },
        r is Ok <==> in_four_digit_years(n as int / 1_000_000_000),
        r matches Ok(t) ==> is_nanos_text(n, t@),
{
    let format = time::format_description::well_known::Iso8601::DEFAULT;
    let date = time::OffsetDateTime::from_unix_timestamp_nanos(n).map_err(|e| e.to_string())?;
    date.format(&format).map_err(|e| e.to_string())
}

/// `i` in decimal, with a sign if it is negative.
pub open spec fn signed_decimal(i: int) -> Seq<char> {
    if i < 0 {
        "-"@ + decimal((-i) as nat)
    } else {
        decimal(i as nat)
    }
}

/// `i` in decimal, with a sign if it is negative.
fn to_signed_decimal(i: i64) -> (s: String)
    ensures
        s@ == signed_decimal(i as int),
{
    if i >= 0 {
        to_decimal(i as u64)
    } else if i == i64::MIN {
        "-".to_owned().concat(to_decimal(0x8000_0000_0000_0000).as_str())
    } else {
        "-".to_owned().concat(to_decimal((-i) as u64).as_str())
    }
}

/// Whether `s` has a decimal sign.
fn has_decimal_sign(s: &str) -> (r: bool)
    ensures
        r == has_fraction(s@),
{
    for c in it: s.chars()
        invariant
            it.seq() == s@,
            forall|k: int| 0 <= k < it.index() ==> s@[k] != '.' && s@[k] != ',',
    {
        if c == '.' || c == ',' {
            assert(s@[it.index()] == c);
            return true;
        }
    }
    false
}

/// `r` is what `V` makes of the decimal text `n`.
pub open spec fn number_of<V: ValT>(n: Seq<char>, r: ValR2<V>) -> bool {
    exists|t: &str| t@ == n && #[trigger] call_ensures(V::from_num, (t,), r)
}

/// The text of the error for text that is no timestamp for the reason `problem`.
pub open spec fn no_timestamp(s: Seq<char>, problem: Seq<char>) -> Seq<char> {
    "cannot parse "@ + s + " as ISO-8601 timestamp: "@ + problem
}

/// `r` is the number for the text `s`, if that has been parsed as `parsed`.
pub open spec fn timestamp_read<V: ValT, F: FnOnce(i64, u32) -> V>(
    s: Seq<char>,
    parsed: Result<(i64, u32), Seq<char>>,
    fractional: F,
    r: ValR2<V>,
) -> bool {
    match parsed {
        Err(problem) => r matches Err(e) && text_error(e, no_timestamp(s, problem)),
        Ok((seconds, nanos)) => if has_fraction(s) {
            r matches Ok(v) && call_ensures(fractional, (seconds, nanos), v)
        } else if isize::MIN <= seconds <= isize::MAX {
            r matches Ok(v) && from_int(seconds as isize, v)
        } else {
            number_of(signed_decimal(seconds as int), r)
        },
    }
}

/// The number for the text `s`, if that has been parsed as `parsed`:
/// seconds and nanoseconds, or the text of an error.
///
/// A text with a decimal sign gives the number that `fractional` makes of seconds and nanoseconds,
/// any other text an integer.
pub fn timestamp<V: ValT, F: FnOnce(i64, u32) -> V>(
    s: &str,
    parsed: Result<(i64, u32), String>,
    fractional: F,
) -> (r: ValR2<V>)
    requires
        forall|seconds: i64, nanos: u32| #[trigger] call_requires(fractional, (seconds, nanos)),
    ensures
        match parsed {
            Ok(p) => timestamp_read(s@, Ok(p), fractional, r),
            Err(problem) => timestamp_read(s@, Err(problem@), fractional, r),
        },
{
    let (seconds, nanos) = match parsed {
        Ok(p) => p,
        Err(problem) => {
            return Err(
                Error::str(
                    "cannot parse ".to_owned().concat(s).concat(
                        " as ISO-8601 timestamp: ",
                    ).concat(problem.as_str()),
                ),
            );
        },
    };
    if has_decimal_sign(s) {
        Ok(fractional(seconds, nanos))
    } else {
        match isize::try_from(seconds) {
            Ok(i) => Ok(V::from(i)),
            Err(_) => {
                let n = to_signed_decimal(seconds);
                let r = V::from_num(n.as_str());
                assert(number_of(signed_decimal(seconds as int), r));
                r
            },
        }
    }
}

/// Parse an ISO-8601 timestamp string to a number holding the equivalent UNIX timestamp
/// (seconds elapsed since 1970/01/01).
///
/// A text with a decimal sign gives the number that `fractional` makes of seconds and nanoseconds,
/// any other text an integer.
pub fn from_iso8601<V: ValT, F: FnOnce(i64, u32) -> V>(s: &str, fractional: F) -> (r: ValR2<V>)
    requires
        forall|seconds: i64, nanos: u32| #[trigger] call_requires(fractional, (seconds, nanos)),
    ensures
        timestamp_read(s@, iso8601_parsed(s@), fractional, r),
{
    timestamp(s, parse(s), fractional)
}

/// The text of the error for a value that cannot be formatted for the reason `problem`.
pub open spec fn no_timestamp_text(shown: Seq<char>, problem: Seq<char>) -> Seq<char> {
    "cannot format "@ + shown + " as ISO-8601 timestamp: "@ + problem
}

/// `e` says that `v` cannot be formatted for the reason `problem`.
pub open spec fn format_failed<V: ValT, S: FnOnce(&V) -> String>(
    v: V,
    problem: Seq<char>,
    show: S,
    e: Error<V>,
) -> bool {
    exists|shown: String| #[trigger]
        call_ensures(show, (&v,), shown) && text_error(e, no_timestamp_text(shown@, problem))
}

/// `r` is the text for `v`, if that has been formatted as `formatted`.
pub open spec fn timestamp_written<V: ValT, S: FnOnce(&V) -> String>(
    v: V,
    formatted: Result<Seq<char>, Seq<char>>,
    show: S,
    r: Result<String, Error<V>>,
) -> bool {
    match formatted {
        Ok(t) => r matches Ok(u) && u@ == t,
        Err(problem) => r matches Err(e) && format_failed(v, problem, show, e),
    }
}

/// The text for `v`, if that has been formatted as `formatted`: a text, or that of an error.
///
/// An error speaks of the value as `show` shows it.
pub fn timestamp_text<V: ValT, S: FnOnce(&V) -> String>(
    v: &V,
    formatted: Result<String, String>,
    show: S,
) -> (r: Result<String, Error<V>>)
    requires
        call_requires(show, (v,)),
    ensures
        match formatted {
            Ok(t) => timestamp_written(*v, Ok(t@), show, r),
            Err(problem) => timestamp_written(*v, Err(problem@), show, r),
        },
{
    match formatted {
        Ok(t) => Ok(t),
        Err(problem) => {
            let shown = show(v);
            let e = Error::str(
                "cannot format ".to_owned().concat(shown.as_str()).concat(
                    " as ISO-8601 timestamp: ",
                ).concat(problem.as_str()),
            );
            assert(format_failed(*v, problem@, show, e));
            Err(e)
        },
    }
}

/// `r` is the timestamp for the integer `i` that `v` is.
pub open spec fn integer_written<V: ValT, S: FnOnce(&V) -> String>(
    v: V,
    i: isize,
    show: S,
    r: Result<String, Error<V>>,
) -> bool {
    &&& timestamp_written(v, iso8601_seconds(i as i64), show, r)
    &&& r is Ok <==> in_four_digit_years(i as int)
    &&& r matches Ok(t) ==> is_seconds_text(i as i64, t@)
}

/// `r` is the timestamp for `n`, which is `v` in nanoseconds, or the error that `n` is.
pub open spec fn nanos_written<V: ValT, S: FnOnce(&V) -> String>(
    v: V,
    n: Result<i128, Error<V>>,
    show: S,
    r: Result<String, Error<V>>,
) -> bool {
    match n {
        Ok(n) => {
            &&& timestamp_written(v, iso8601_nanos(n), show, r)
            &&& r is Ok <==> in_four_digit_years(n as int / 1_000_000_000)
            &&& r matches Ok(t) ==> is_nanos_text(n, t@)
        },
        Err(e) => r == Err::<String, Error<V>>(e),
    }
}

/// `r` is the timestamp for `v`: by seconds if it is an integer, else by nanoseconds.
pub open spec fn iso8601_written<
    V: ValT,
    N: FnOnce(&V) -> Result<i128, Error<V>>,
    S: FnOnce(&V) -> String,
>(v: V, nanos: N, show: S, r: Result<String, Error<V>>) -> bool {
    ||| exists|i: isize| #[trigger] int_of(v, Some(i)) && integer_written(v, i, show, r)
    ||| int_of(v, None) && exists|n: Result<i128, Error<V>>| #[trigger]
        call_ensures(nanos, (&v,), n) && nanos_written(v, n, show, r)
}

/// Format a number as an ISO-8601 timestamp string.
///
/// A number that is no integer is taken as the nanoseconds that `nanos` makes of it.
/// An error speaks of the value as `show` shows it.
pub fn to_iso8601<
    V: ValT,
    N: FnOnce(&V) -> Result<i128, Error<V>>,
    S: FnOnce(&V) -> String,
>(v: &V, nanos: N, show: S) -> (r: Result<String, Error<V>>)
    requires
        call_requires(nanos, (v,)),
        call_requires(show, (v,)),
    ensures
        iso8601_written(*v, nanos, show, r),
{
    let o = v.as_isize();
    assert(int_of(*v, o));
    match o {
        Some(i) => {
            let r = timestamp_text(v, format_seconds(i as i64), show);
            assert(integer_written(*v, i, show, r));
            r
        },
        None => {
            let n = nanos(v);
            let r = match n {
                Ok(n) => timestamp_text(v, format_nanos(n), show),
                Err(e) => Err(e),
            };
            assert(nanos_written(*v, n, show, r));
            r
        },
    }
}

/// Parsing the timestamp for an integer gives the integer back.
pub proof fn law_iso8601_round_trip<V: ValT, S: FnOnce(&V) -> String, F: FnOnce(i64, u32) -> V>(
    v: V,
    i: isize,
    show: S,
    text: Result<String, Error<V>>,
    fractional: F,
    r: ValR2<V>,
)
    requires
        integer_written(v, i, show, text),
        text is Ok,
        timestamp_read(text->Ok_0@, iso8601_parsed(text->Ok_0@), fractional, r),
    ensures
        r matches Ok(w) && from_int(i, w),
{
}

/// Parsing the timestamp for a number of nanoseconds gives what `fractional` makes of
/// the same number, as whole seconds and the nanoseconds on top of them.
pub proof fn law_iso8601_round_trip_of_nanos<
    V: ValT,
    S: FnOnce(&V) -> String,
    F: FnOnce(i64, u32) -> V,
>(
    v: V,
    n: i128,
    show: S,
    text: Result<String, Error<V>>,
    fractional: F,
    r: ValR2<V>,
)
    requires
        nanos_written(v, Ok(n), show, text),
        text is Ok,
        timestamp_read(text->Ok_0@, iso8601_parsed(text->Ok_0@), fractional, r),
    ensures
        exists|seconds: i64, nanos: u32|
            seconds * 1_000_000_000 + nanos == n && nanos < 1_000_000_000 && r is Ok && #[trigger]
            call_ensures(fractional, (seconds, nanos), r->Ok_0),
{
    let (seconds, nanos) = iso8601_parsed(text->Ok_0@)->Ok_0;
    assert(call_ensures(fractional, (seconds, nanos), r->Ok_0));
}

/// Timestamps can be written for the ten thousand years from the year 0 on:
/// these have 3652425 days, of which 719528 come before 1970/01/01.
pub proof fn law_four_digit_years(seconds: int)
    ensures
        in_four_digit_years(seconds) <==> 0 <= seconds + 719528 * 86400 < 3652425 * 86400,
{
}

} // verus!
