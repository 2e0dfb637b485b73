//! Which native filters there are.

use crate::names::lemma_places;
use vstd::prelude::*;

verus! {

/// Mathematical function on floating-point numbers.
#[derive(Clone, Copy, Debug, PartialEq, Eq, Structural)]
pub enum Math {
    Acos,
    Acosh,
    Asin,
    Asinh,
    Atan,
    Atanh,
    Cbrt,
    Cos,
    Cosh,
    Erf,
    Erfc,
    Exp,
    Exp10,
    Exp2,
    Expm1,
    Fabs,
    Frexp,
    Ilogb,
    J0,
    J1,
    Lgamma,
    Log,
    Log10,
    Log1p,
    Log2,
    Modf,
    Round,
    Rint,
    Sin,
    Sinh,
    Sqrt,
    Tan,
    Tanh,
    Tgamma,
    Trunc,
    Y0,
    Y1,
    Atan2,
    Copysign,
    Fdim,
    Fmax,
    Fmin,
    Fmod,
    Hypot,
    Jn,
    Ldexp,
    Nextafter,
    Pow,
    Remainder,
    Scalbn,
    Yn,
    Fma,
}

/// What a native filter does.
#[derive(Clone, Copy, Debug, PartialEq, Eq, Structural)]
pub enum Op {
    Length,
    KeysUnsorted,
    Contains,
    Has,
    Indices,
    Inputs,
    ToJson,
    Floor,
    Round,
    Ceil,
    Utf8ByteLength,
    Explode,
    Implode,
    AsciiDowncase,
    AsciiUpcase,
    Reverse,
    Sort,
    SortBy,
    GroupBy,
    MinByOrEmpty,
    MaxByOrEmpty,
    First,
    Limit,
    Range,
    StartsWith,
    EndsWith,
    LTrimStr,
    RTrimStr,
    EscapeCsv,
    EscapeSh,
    Error,
    Env,
    Now,
    EscapeHtml,
    EscapeTsv,
    EncodeUri,
    EncodeBase64,
    DecodeBase64,
    Math(Math),
    Matches,
    SplitMatches,
    Split,
    FromDateIso8601,
    ToDateIso8601,
    Debug,
    FromJson,
}

/// A native filter: what it does to its input, and what it does to its input under an update,
/// if it can be updated.
#[derive(Clone, Copy, Debug, PartialEq, Eq, Structural)]
pub struct Native {
    pub run: Op,
    pub update: Option<Op>,
}

/// The name of a filter, the number of its arguments, and what it does.
pub type Filter = (String, usize, Native);

/// The names of `fs`, with what belongs to them.
pub open spec fn listed(fs: Seq<Filter>) -> Seq<(Seq<char>, usize, Native)> {
    fs.map_values(|f: Filter| (f.0@, f.1, f.2))
}

/// The names of `fs`, with what belongs to them.
pub open spec fn rows(fs: Seq<(&'static str, usize, Op)>) -> Seq<(Seq<char>, usize, Op)> {
    fs.map_values(|f: (&'static str, usize, Op)| (f.0@, f.1, f.2))
}

/// Filters that can be run, but not updated.
pub open spec fn runs(rows: Seq<(Seq<char>, usize, Op)>) -> Seq<(Seq<char>, usize, Native)> {
    rows.map_values(|r: (Seq<char>, usize, Op)| (r.0, r.1, Native { run: r.2, update: None }))
}

/// A filter that does `op` when it is run and when it is updated.
pub open spec fn updates(
    name: Seq<char>,
    arity: usize,
    op: Op,
) -> Seq<(Seq<char>, usize, Native)> {
    seq![(name, arity, Native { run: op, update: Some(op) })]
}

/// A filter that can be run, but not updated.
fn run(name: &str, arity: usize, op: Op) -> (f: Filter)
    ensures
        f.0@ == name@,
        f.1 == arity,
        f.2 == (Native { run: op, update: None }),
{
    (name.to_owned(), arity, Native { run: op, update: None })
}

/// A filter that does `op` when it is run and when it is updated.
fn upd(name: &str, arity: usize, op: Op) -> (f: Filter)
    ensures
        f.0@ == name@,
        f.1 == arity,
        f.2 == (Native { run: op, update: Some(op) }),
{
    (name.to_owned(), arity, Native { run: op, update: Some(op) })
}

/// Filters that can be run, but not updated.
fn run_many(fs: Vec<(&'static str, usize, Op)>) -> (r: Vec<Filter>)
    ensures
        listed(r@) == runs(rows(fs@)),
{
    let mut r: Vec<Filter> = Vec::with_capacity(fs.len());
    for i in 0..fs.len()
        invariant
            r@.len() == i,
            forall|k: int|
                0 <= k < i ==> (#[trigger] r@[k]).0@ == fs@[k].0@ && r@[k].1 == fs@[k].1 && r@[k].2
                    == (Native { run: fs@[k].2, update: None }),
    {
        let (name, arity, op) = fs[i];
        r.push(run(name, arity, op));
    }
    assert(listed(r@) =~= runs(rows(fs@)));
    r
}

/// Adds `gs` to `fs`.
fn chain(fs: Vec<Filter>, gs: Vec<Filter>) -> (r: Vec<Filter>)
    ensures
        listed(r@) == listed(fs@) + listed(gs@),
{
    let mut r = fs;
    let mut rest = gs;
    r.append(&mut rest);
    assert(listed(r@) =~= listed(fs@) + listed(gs@));
    r
}

/// Filters on JSON values.
pub open spec fn json_minimal_rows() -> Seq<(Seq<char>, usize, Op)> {
    seq![
        ("length"@, 0, Op::Length),
        ("keys_unsorted"@, 0, Op::KeysUnsorted),
        ("contains"@, 1, Op::Contains),
        ("has"@, 1, Op::Has),
        ("indices"@, 1, Op::Indices),
    ]
}

/// Filters on JSON values.
pub fn json_minimal() -> (r: Vec<(&'static str, usize, Op)>)
    ensures
        rows(r@) == json_minimal_rows(),
{
    let r = vec![
        ("length", 0, Op::Length),
        ("keys_unsorted", 0, Op::KeysUnsorted),
        ("contains", 1, Op::Contains),
        ("has", 1, Op::Has),
        ("indices", 1, Op::Indices),
    ];
    assert(rows(r@) =~= json_minimal_rows());
    r
}

/// Filters that every interpreter has.
pub open spec fn core_run_rows() -> Seq<(Seq<char>, usize, Op)> {
    seq![
        ("inputs"@, 0, Op::Inputs),
        ("tojson"@, 0, Op::ToJson),
        ("floor"@, 0, Op::Floor),
        ("round"@, 0, Op::Round),
        ("ceil"@, 0, Op::Ceil),
        ("utf8bytelength"@, 0, Op::Utf8ByteLength),
        ("explode"@, 0, Op::Explode),
        ("implode"@, 0, Op::Implode),
        ("ascii_downcase"@, 0, Op::AsciiDowncase),
        ("ascii_upcase"@, 0, Op::AsciiUpcase),
        ("reverse"@, 0, Op::Reverse),
        ("sort"@, 0, Op::Sort),
        ("sort_by"@, 1, Op::SortBy),
        ("group_by"@, 1, Op::GroupBy),
        ("min_by_or_empty"@, 1, Op::MinByOrEmpty),
        ("max_by_or_empty"@, 1, Op::MaxByOrEmpty),
        ("first"@, 1, Op::First),
        ("limit"@, 2, Op::Limit),
        ("range"@, 3, Op::Range),
        ("startswith"@, 1, Op::StartsWith),
        ("endswith"@, 1, Op::EndsWith),
        ("ltrimstr"@, 1, Op::LTrimStr),
        ("rtrimstr"@, 1, Op::RTrimStr),
        ("escape_csv"@, 0, Op::EscapeCsv),
        ("escape_sh"@, 0, Op::EscapeSh),
    ]
}

/// Filters that every interpreter has.
pub fn core_run() -> (r: Vec<(&'static str, usize, Op)>)
    ensures
        rows(r@) == core_run_rows(),
{
    let r = vec![
        ("inputs", 0, Op::Inputs),
        ("tojson", 0, Op::ToJson),
        ("floor", 0, Op::Floor),
        ("round", 0, Op::Round),
        ("ceil", 0, Op::Ceil),
        ("utf8bytelength", 0, Op::Utf8ByteLength),
        ("explode", 0, Op::Explode),
        ("implode", 0, Op::Implode),
        ("ascii_downcase", 0, Op::AsciiDowncase),
        ("ascii_upcase", 0, Op::AsciiUpcase),
        ("reverse", 0, Op::Reverse),
        ("sort", 0, Op::Sort),
        ("sort_by", 1, Op::SortBy),
        ("group_by", 1, Op::GroupBy),
        ("min_by_or_empty", 1, Op::MinByOrEmpty),
        ("max_by_or_empty", 1, Op::MaxByOrEmpty),
        ("first", 1, Op::First),
        ("limit", 2, Op::Limit),
        ("range", 3, Op::Range),
        ("startswith", 1, Op::StartsWith),
        ("endswith", 1, Op::EndsWith),
        ("ltrimstr", 1, Op::LTrimStr),
        ("rtrimstr", 1, Op::RTrimStr),
        ("escape_csv", 0, Op::EscapeCsv),
        ("escape_sh", 0, Op::EscapeSh),
    ];
    assert(rows(r@) =~= core_run_rows());
    r
}

/// Filters that ask the environment.
pub open spec fn std_run_rows() -> Seq<(Seq<char>, usize, Op)> {
    seq![
        ("env"@, 0, Op::Env),
        ("now"@, 0, Op::Now),
    ]
}

/// Filters that ask the environment.
pub fn std_run() -> (r: Vec<(&'static str, usize, Op)>)
    ensures
        rows(r@) == std_run_rows(),
{
    let r = vec![
        ("env", 0, Op::Env),
        ("now", 0, Op::Now),
    ];
    assert(rows(r@) =~= std_run_rows());
    r
}

/// Filters that escape and encode text.
pub open spec fn format_run_rows() -> Seq<(Seq<char>, usize, Op)> {
    seq![
        ("escape_html"@, 0, Op::EscapeHtml),
        ("escape_tsv"@, 0, Op::EscapeTsv),
        ("encode_uri"@, 0, Op::EncodeUri),
        ("encode_base64"@, 0, Op::EncodeBase64),
        ("decode_base64"@, 0, Op::DecodeBase64),
    ]
}

/// Filters that escape and encode text.
pub fn format_run() -> (r: Vec<(&'static str, usize, Op)>)
    ensures
        rows(r@) == format_run_rows(),
{
    let r = vec![
        ("escape_html", 0, Op::EscapeHtml),
        ("escape_tsv", 0, Op::EscapeTsv),
        ("encode_uri", 0, Op::EncodeUri),
        ("encode_base64", 0, Op::EncodeBase64),
        ("decode_base64", 0, Op::DecodeBase64),
    ];
    assert(rows(r@) =~= format_run_rows());
    r
}

/// Filters for mathematical functions.
pub open spec fn math_run_rows() -> Seq<(Seq<char>, usize, Op)> {
    seq![
        ("acos"@, 0, Op::Math(Math::Acos)),
        ("acosh"@, 0, Op::Math(Math::Acosh)),
        ("asin"@, 0, Op::Math(Math::Asin)),
        ("asinh"@, 0, Op::Math(Math::Asinh)),
        ("atan"@, 0, Op::Math(Math::Atan)),
        ("atanh"@, 0, Op::Math(Math::Atanh)),
        ("cbrt"@, 0, Op::Math(Math::Cbrt)),
        ("cos"@, 0, Op::Math(Math::Cos)),
        ("cosh"@, 0, Op::Math(Math::Cosh)),
        ("erf"@, 0, Op::Math(Math::Erf)),
        ("erfc"@, 0, Op::Math(Math::Erfc)),
        ("exp"@, 0, Op::Math(Math::Exp)),
        ("exp10"@, 0, Op::Math(Math::Exp10)),
        ("exp2"@, 0, Op::Math(Math::Exp2)),
        ("expm1"@, 0, Op::Math(Math::Expm1)),
        ("fabs"@, 0, Op::Math(Math::Fabs)),
        ("frexp"@, 0, Op::Math(Math::Frexp)),
        ("ilogb"@, 0, Op::Math(Math::Ilogb)),
        ("j0"@, 0, Op::Math(Math::J0)),
        ("j1"@, 0, Op::Math(Math::J1)),
        ("lgamma"@, 0, Op::Math(Math::Lgamma)),
        ("log"@, 0, Op::Math(Math::Log)),
        ("log10"@, 0, Op::Math(Math::Log10)),
        ("log1p"@, 0, Op::Math(Math::Log1p)),
        ("log2"@, 0, Op::Math(Math::Log2)),
        ("modf"@, 0, Op::Math(Math::Modf)),
        ("nearbyint"@, 0, Op::Math(Math::Round)),
        ("rint"@, 0, Op::Math(Math::Rint)),
        ("sin"@, 0, Op::Math(Math::Sin)),
        ("sinh"@, 0, Op::Math(Math::Sinh)),
        ("sqrt"@, 0, Op::Math(Math::Sqrt)),
        ("tan"@, 0, Op::Math(Math::Tan)),
        ("tanh"@, 0, Op::Math(Math::Tanh)),
        ("tgamma"@, 0, Op::Math(Math::Tgamma)),
        ("trunc"@, 0, Op::Math(Math::Trunc)),
        ("y0"@, 0, Op::Math(Math::Y0)),
        ("y1"@, 0, Op::Math(Math::Y1)),
        ("atan2"@, 2, Op::Math(Math::Atan2)),
        ("copysign"@, 2, Op::Math(Math::Copysign)),
        ("fdim"@, 2, Op::Math(Math::Fdim)),
        ("fmax"@, 2, Op::Math(Math::Fmax)),
        ("fmin"@, 2, Op::Math(Math::Fmin)),
        ("fmod"@, 2, Op::Math(Math::Fmod)),
        ("hypot"@, 2, Op::Math(Math::Hypot)),
        ("jn"@, 2, Op::Math(Math::Jn)),
        ("ldexp"@, 2, Op::Math(Math::Ldexp)),
        ("nextafter"@, 2, Op::Math(Math::Nextafter)),
        ("pow"@, 2, Op::Math(Math::Pow)),
        ("remainder"@, 2, Op::Math(Math::Remainder)),
        ("scalbln"@, 2, Op::Math(Math::Scalbn)),
        ("yn"@, 2, Op::Math(Math::Yn)),
        ("fma"@, 3, Op::Math(Math::Fma)),
    ]
}

/// Filters for mathematical functions.
pub fn math_run() -> (r: Vec<(&'static str, usize, Op)>)
    ensures
        rows(r@) == math_run_rows(),
{
    let r = vec![
        ("acos", 0, Op::Math(Math::Acos)),
        ("acosh", 0, Op::Math(Math::Acosh)),
        ("asin", 0, Op::Math(Math::Asin)),
        ("asinh", 0, Op::Math(Math::Asinh)),
        ("atan", 0, Op::Math(Math::Atan)),
        ("atanh", 0, Op::Math(Math::Atanh)),
        ("cbrt", 0, Op::Math(Math::Cbrt)),
        ("cos", 0, Op::Math(Math::Cos)),
        ("cosh", 0, Op::Math(Math::Cosh)),
        ("erf", 0, Op::Math(Math::Erf)),
        ("erfc", 0, Op::Math(Math::Erfc)),
        ("exp", 0, Op::Math(Math::Exp)),
        ("exp10", 0, Op::Math(Math::Exp10)),
        ("exp2", 0, Op::Math(Math::Exp2)),
        ("expm1", 0, Op::Math(Math::Expm1)),
        ("fabs", 0, Op::Math(Math::Fabs)),
        ("frexp", 0, Op::Math(Math::Frexp)),
        ("ilogb", 0, Op::Math(Math::Ilogb)),
        ("j0", 0, Op::Math(Math::J0)),
        ("j1", 0, Op::Math(Math::J1)),
        ("lgamma", 0, Op::Math(Math::Lgamma)),
        ("log", 0, Op::Math(Math::Log)),
        ("log10", 0, Op::Math(Math::Log10)),
        ("log1p", 0, Op::Math(Math::Log1p)),
        ("log2", 0, Op::Math(Math::Log2)),
        ("modf", 0, Op::Math(Math::Modf)),
        ("nearbyint", 0, Op::Math(Math::Round)),
        ("rint", 0, Op::Math(Math::Rint)),
        ("sin", 0, Op::Math(Math::Sin)),
        ("sinh", 0, Op::Math(Math::Sinh)),
        ("sqrt", 0, Op::Math(Math::Sqrt)),
        ("tan", 0, Op::Math(Math::Tan)),
        ("tanh", 0, Op::Math(Math::Tanh)),
        ("tgamma", 0, Op::Math(Math::Tgamma)),
        ("trunc", 0, Op::Math(Math::Trunc)),
        ("y0", 0, Op::Math(Math::Y0)),
        ("y1", 0, Op::Math(Math::Y1)),
        ("atan2", 2, Op::Math(Math::Atan2)),
        ("copysign", 2, Op::Math(Math::Copysign)),
        ("fdim", 2, Op::Math(Math::Fdim)),
        ("fmax", 2, Op::Math(Math::Fmax)),
        ("fmin", 2, Op::Math(Math::Fmin)),
        ("fmod", 2, Op::Math(Math::Fmod)),
        ("hypot", 2, Op::Math(Math::Hypot)),
        ("jn", 2, Op::Math(Math::Jn)),
        ("ldexp", 2, Op::Math(Math::Ldexp)),
        ("nextafter", 2, Op::Math(Math::Nextafter)),
        ("pow", 2, Op::Math(Math::Pow)),
        ("remainder", 2, Op::Math(Math::Remainder)),
        ("scalbln", 2, Op::Math(Math::Scalbn)),
        ("yn", 2, Op::Math(Math::Yn)),
        ("fma", 3, Op::Math(Math::Fma)),
    ];
    assert(rows(r@) =~= math_run_rows());
    r
}

/// Filters for regular expressions.
pub open spec fn regex_run_rows() -> Seq<(Seq<char>, usize, Op)> {
    seq![
        ("matches"@, 2, Op::Matches),
        ("split_matches"@, 2, Op::SplitMatches),
        ("split_"@, 2, Op::Split),
    ]
}

/// Filters for regular expressions.
pub fn regex_run() -> (r: Vec<(&'static str, usize, Op)>)
    ensures
        rows(r@) == regex_run_rows(),
{
    let r = vec![
        ("matches", 2, Op::Matches),
        ("split_matches", 2, Op::SplitMatches),
        ("split_", 2, Op::Split),
    ];
    assert(rows(r@) =~= regex_run_rows());
    r
}

/// Filters for timestamps.
pub open spec fn time_run_rows() -> Seq<(Seq<char>, usize, Op)> {
    seq![
        ("fromdateiso8601"@, 0, Op::FromDateIso8601),
        ("todateiso8601"@, 0, Op::ToDateIso8601),
    ]
}

/// Filters for timestamps.
pub fn time_run() -> (r: Vec<(&'static str, usize, Op)>)
    ensures
        rows(r@) == time_run_rows(),
{
    let r = vec![
        ("fromdateiso8601", 0, Op::FromDateIso8601),
        ("todateiso8601", 0, Op::ToDateIso8601),
    ];
    assert(rows(r@) =~= time_run_rows());
    r
}

/// The filters of [`generic_base`].
pub open spec fn base_list() -> Seq<(Seq<char>, usize, Native)> {
    runs(core_run_rows()) + updates("error"@, 0, Op::Error)
}

/// The filters of [`minimal`].
pub open spec fn minimal_list() -> Seq<(Seq<char>, usize, Native)> {
    runs(json_minimal_rows()) + base_list()
}

/// The filters of [`generic_extra`].
pub open spec fn extra_list() -> Seq<(Seq<char>, usize, Native)> {
    runs(std_run_rows()) + runs(format_run_rows()) + runs(math_run_rows()) + runs(regex_run_rows())
        + runs(time_run_rows()) + updates("debug"@, 0, Op::Debug)
}

/// The filters of [`core_filters`].
pub open spec fn core_list() -> Seq<(Seq<char>, usize, Native)> {
    minimal_list() + extra_list() + runs(seq![("fromjson"@, 0usize, Op::FromJson)])
}

/// Return the minimal set of named filters available in jaq
/// which are implemented as native filters, such as `length`, `keys_unsorted`, ...,
/// but not `now`, `debug`, `fromdateiso8601`, ...
///
/// Does not return filters from the standard library, such as `map`.
pub fn minimal() -> (r: Vec<Filter>)
    ensures
        listed(r@) == minimal_list(),
{
    chain(run_many(json_minimal()), generic_base())
}

/// Minimal set of filters that are generic over the value type.
pub fn generic_base() -> (r: Vec<Filter>)
    ensures
        listed(r@) == base_list(),
{
    let error = vec![upd("error", 0, Op::Error)];
    assert(listed(error@) =~= updates("error"@, 0, Op::Error));
    chain(run_many(core_run()), error)
}

/// Supplementary set of filters that are generic over the value type.
pub fn generic_extra() -> (r: Vec<Filter>)
    ensures
        listed(r@) == extra_list(),
{
    let debug = vec![upd("debug", 0, Op::Debug)];
    assert(listed(debug@) =~= updates("debug"@, 0, Op::Debug));
    let r = run_many(std_run());
    let r = chain(r, run_many(format_run()));
    let r = chain(r, run_many(math_run()));
    let r = chain(r, run_many(regex_run()));
    let r = chain(r, run_many(time_run()));
    chain(r, debug)
}

/// Return those named filters available by default in jaq
/// which are implemented as native filters, such as `length`, `keys_unsorted`, ...,
/// but also `now`, `debug`, `fromdateiso8601`, ...
///
/// Does not return filters from the standard library, such as `map`.
pub fn core_filters() -> (r: Vec<Filter>)
    ensures
        listed(r@) == core_list(),
{
    let parse_json = vec![run("fromjson", 0, Op::FromJson)];
    assert(listed(parse_json@) =~= runs(seq![("fromjson"@, 0usize, Op::FromJson)]));
    chain(chain(minimal(), generic_extra()), parse_json)
}

/// Whether `fs` has a filter with the given name.
pub open spec fn has_name(fs: Seq<(Seq<char>, usize, Native)>, name: Seq<char>) -> bool {
    exists|k: int| 0 <= k < fs.len() && (#[trigger] fs[k]).0 == name
}

/// The minimal set of filters has no filter that asks the environment, writes to the log
/// or deals with timestamps.
pub proof fn law_minimal_lacks_supplement()
    ensures
        !has_name(minimal_list(), "now"@),
        !has_name(minimal_list(), "env"@),
        !has_name(minimal_list(), "debug"@),
        !has_name(minimal_list(), "fromdateiso8601"@),
        !has_name(minimal_list(), "todateiso8601"@),
{
    let (m, c) = (minimal_list(), core_list());
    let n = m.len() as int;
    let dates = n + std_run_rows().len() + format_run_rows().len() + math_run_rows().len()
        + regex_run_rows().len();
    assert(c[n].0 == "env"@);
    assert(c[n + 1].0 == "now"@);
    assert(c[dates].0 == "fromdateiso8601"@);
    assert(c[dates + 1].0 == "todateiso8601"@);
    assert(c[dates + 2].0 == "debug"@);
    assert forall|k: int, i: int|
        0 <= k < n && n <= i < c.len() implies (#[trigger] m[k]).0 != (#[trigger] c[i]).0 by {
        assert(c[k] == m[k]);
        if c[k].0 == c[i].0 {
            law_no_name_occurs_twice(k, i);
        }
    }
}

/// The filters that are there by default begin with the minimal set,
/// and all supplementary filters come after it.
pub proof fn law_core_extends_minimal()
    ensures
        minimal_list().is_prefix_of(core_list()),
        core_list().len() == minimal_list().len() + extra_list().len() + 1,
        forall|name: Seq<char>| #[trigger]
            has_name(core_list(), name) <==> has_name(minimal_list(), name) || has_name(
                extra_list(),
                name,
            ) || name == "fromjson"@,
{
    let (m, x, c) = (minimal_list(), extra_list(), core_list());
    assert(c.subrange(0, m.len() as int) =~= m);
    assert forall|name: Seq<char>| #[trigger]
        has_name(c, name) <==> has_name(m, name) || has_name(x, name) || name == "fromjson"@ by {
        if has_name(m, name) {
            let k = choose|k: int| 0 <= k < m.len() && (#[trigger] m[k]).0 == name;
            assert(c[k] == m[k]);
        }
        if has_name(x, name) {
            let k = choose|k: int| 0 <= k < x.len() && (#[trigger] x[k]).0 == name;
            assert(c[m.len() + k] == x[k]);
        }
        if name == "fromjson"@ {
            assert(c[m.len() as int + x.len()].0 == name);
        }
        if has_name(c, name) {
            let k = choose|k: int| 0 <= k < c.len() && (#[trigger] c[k]).0 == name;
            if k < m.len() {
                assert(m[k] == c[k]);
            } else if k < m.len() + x.len() {
                assert(x[k - m.len()] == c[k]);
            }
        }
    }
}

/// The filters that are there by default have those that the minimal set lacks.
pub proof fn law_core_has_supplement()
    ensures
        has_name(core_list(), "now"@),
        has_name(core_list(), "env"@),
        has_name(core_list(), "debug"@),
        has_name(core_list(), "fromdateiso8601"@),
        has_name(core_list(), "todateiso8601"@),
{
    law_core_extends_minimal();
    let x = extra_list();
    let before = std_run_rows().len() + format_run_rows().len() + math_run_rows().len()
        + regex_run_rows().len();
    assert(x[0].0 == "env"@);
    assert(x[1].0 == "now"@);
    assert(x[before as int].0 == "fromdateiso8601"@);
    assert(x[before as int + 1].0 == "todateiso8601"@);
    assert(x[before as int + 2].0 == "debug"@);
}

/// No name occurs twice among the filters that are there by default,
/// so none occurs twice in any of the sets of filters that they are put together from.
pub proof fn law_no_name_occurs_twice(i: int, j: int)
    requires
        0 <= i < core_list().len(),
        0 <= j < core_list().len(),
        core_list()[i].0 == core_list()[j].0,
    ensures
        i == j,
{
    lemma_places();
}

/// The filter with the given name and number of arguments does `op` when it is run.
pub open spec fn named(
    fs: Seq<(Seq<char>, usize, Native)>,
    name: Seq<char>,
    arity: usize,
    op: Op,
) -> bool {
    exists|k: int|
        0 <= k < fs.len() && (#[trigger] fs[k]).0 == name && fs[k].1 == arity && fs[k].2.run == op
}

/// A name of a filter that is there by default stands for one operation.
pub proof fn lemma_named(k: int, arity: usize, op: Op)
    requires
        0 <= k < core_list().len(),
        named(core_list(), core_list()[k].0, arity, op),
    ensures
        arity == core_list()[k].1,
        op == core_list()[k].2.run,
{
    let fs = core_list();
    let j = choose|j: int|
        0 <= j < fs.len() && (#[trigger] fs[j]).0 == fs[k].0 && fs[j].1 == arity && fs[j].2.run
            == op;
    law_no_name_occurs_twice(k, j);
}

/// The filter with the given name and number of arguments does `op`, by the table `rows`.
pub open spec fn is_row(
    rows: Seq<(Seq<char>, usize, Op)>,
    name: Seq<char>,
    arity: usize,
    op: Op,
) -> bool {
    rows.contains((name, arity, op))
}

/// A name stands for one operation in the table of filters that every interpreter has.
pub proof fn law_name_stands_for_one_operation(k: int, arity: usize, op: Op)
    requires
        0 <= k < core_run_rows().len(),
        is_row(core_run_rows(), core_run_rows()[k].0, arity, op),
    ensures
        arity == core_run_rows()[k].1,
        op == core_run_rows()[k].2,
{
    let rows = core_run_rows();
    let j = choose|j: int| 0 <= j < rows.len() && rows[j] == (rows[k].0, arity, op);
    let n = json_minimal_rows().len() as int;
    assert(core_list()[n + k].0 == rows[k].0);
    assert(core_list()[n + j].0 == rows[j].0);
    law_no_name_occurs_twice(n + k, n + j);
}

} // verus!
