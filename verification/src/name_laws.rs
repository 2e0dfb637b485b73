//! Which operation each name stands for.

use crate::filters::{
    base_list, core_list, core_run_rows, extra_list, format_run_rows, json_minimal_rows,
    lemma_named, math_run_rows, minimal_list, named, regex_run_rows, std_run_rows, time_run_rows,
    Math, Op,
};
use vstd::prelude::*;

verus! {

/// The names of the filters on JSON values stand for these operations, and for no other ones.
pub proof fn law_names_json_minimal(op: Op)
    ensures
        json_minimal_rows().len() == 5,
        named(minimal_list(), "length"@, 0, Op::Length),
        named(core_list(), "length"@, 0, op) ==> op == Op::Length,
        named(minimal_list(), "keys_unsorted"@, 0, Op::KeysUnsorted),
        named(core_list(), "keys_unsorted"@, 0, op) ==> op == Op::KeysUnsorted,
        named(minimal_list(), "contains"@, 1, Op::Contains),
        named(core_list(), "contains"@, 1, op) ==> op == Op::Contains,
        named(minimal_list(), "has"@, 1, Op::Has),
        named(core_list(), "has"@, 1, op) ==> op == Op::Has,
        named(minimal_list(), "indices"@, 1, Op::Indices),
        named(core_list(), "indices"@, 1, op) ==> op == Op::Indices,
{
    assert(core_list()[0].0 == "length"@);
    assert(minimal_list()[0] == core_list()[0]);
    if named(core_list(), "length"@, 0, op) {
        lemma_named(0, 0, op);
    }
    assert(core_list()[1].0 == "keys_unsorted"@);
    assert(minimal_list()[1] == core_list()[1]);
    if named(core_list(), "keys_unsorted"@, 0, op) {
        lemma_named(1, 0, op);
    }
    assert(core_list()[2].0 == "contains"@);
    assert(minimal_list()[2] == core_list()[2]);
    if named(core_list(), "contains"@, 1, op) {
        lemma_named(2, 1, op);
    }
    assert(core_list()[3].0 == "has"@);
    assert(minimal_list()[3] == core_list()[3]);
    if named(core_list(), "has"@, 1, op) {
        lemma_named(3, 1, op);
    }
    assert(core_list()[4].0 == "indices"@);
    assert(minimal_list()[4] == core_list()[4]);
    if named(core_list(), "indices"@, 1, op) {
        lemma_named(4, 1, op);
    }
}

/// The names of the filters that every interpreter has stand for these operations, and for no other ones.
pub proof fn law_names_core_run(op: Op)
    ensures
        core_run_rows().len() == 25,
        named(minimal_list(), "inputs"@, 0, Op::Inputs),
        named(core_list(), "inputs"@, 0, op) ==> op == Op::Inputs,
        named(minimal_list(), "tojson"@, 0, Op::ToJson),
        named(core_list(), "tojson"@, 0, op) ==> op == Op::ToJson,
        named(minimal_list(), "floor"@, 0, Op::Floor),
        named(core_list(), "floor"@, 0, op) ==> op == Op::Floor,
        named(minimal_list(), "round"@, 0, Op::Round),
        named(core_list(), "round"@, 0, op) ==> op == Op::Round,
        named(minimal_list(), "ceil"@, 0, Op::Ceil),
        named(core_list(), "ceil"@, 0, op) ==> op == Op::Ceil,
        named(minimal_list(), "utf8bytelength"@, 0, Op::Utf8ByteLength),
        named(core_list(), "utf8bytelength"@, 0, op) ==> op == Op::Utf8ByteLength,
        named(minimal_list(), "explode"@, 0, Op::Explode),
        named(core_list(), "explode"@, 0, op) ==> op == Op::Explode,
        named(minimal_list(), "implode"@, 0, Op::Implode),
        named(core_list(), "implode"@, 0, op) ==> op == Op::Implode,
        named(minimal_list(), "ascii_downcase"@, 0, Op::AsciiDowncase),
        named(core_list(), "ascii_downcase"@, 0, op) ==> op == Op::AsciiDowncase,
        named(minimal_list(), "ascii_upcase"@, 0, Op::AsciiUpcase),
        named(core_list(), "ascii_upcase"@, 0, op) ==> op == Op::AsciiUpcase,
        named(minimal_list(), "reverse"@, 0, Op::Reverse),
        named(core_list(), "reverse"@, 0, op) ==> op == Op::Reverse,
        named(minimal_list(), "sort"@, 0, Op::Sort),
        named(core_list(), "sort"@, 0, op) ==> op == Op::Sort,
        named(minimal_list(), "sort_by"@, 1, Op::SortBy),
        named(core_list(), "sort_by"@, 1, op) ==> op == Op::SortBy,
        named(minimal_list(), "group_by"@, 1, Op::GroupBy),
        named(core_list(), "group_by"@, 1, op) ==> op == Op::GroupBy,
        named(minimal_list(), "min_by_or_empty"@, 1, Op::MinByOrEmpty),
        named(core_list(), "min_by_or_empty"@, 1, op) ==> op == Op::MinByOrEmpty,
        named(minimal_list(), "max_by_or_empty"@, 1, Op::MaxByOrEmpty),
        named(core_list(), "max_by_or_empty"@, 1, op) ==> op == Op::MaxByOrEmpty,
        named(minimal_list(), "first"@, 1, Op::First),
        named(core_list(), "first"@, 1, op) ==> op == Op::First,
        named(minimal_list(), "limit"@, 2, Op::Limit),
        named(core_list(), "limit"@, 2, op) ==> op == Op::Limit,
        named(minimal_list(), "range"@, 3, Op::Range),
        named(core_list(), "range"@, 3, op) ==> op == Op::Range,
        named(minimal_list(), "startswith"@, 1, Op::StartsWith),
        named(core_list(), "startswith"@, 1, op) ==> op == Op::StartsWith,
        named(minimal_list(), "endswith"@, 1, Op::EndsWith),
        named(core_list(), "endswith"@, 1, op) ==> op == Op::EndsWith,
        named(minimal_list(), "ltrimstr"@, 1, Op::LTrimStr),
        named(core_list(), "ltrimstr"@, 1, op) ==> op == Op::LTrimStr,
        named(minimal_list(), "rtrimstr"@, 1, Op::RTrimStr),
        named(core_list(), "rtrimstr"@, 1, op) ==> op == Op::RTrimStr,
        named(minimal_list(), "escape_csv"@, 0, Op::EscapeCsv),
        named(core_list(), "escape_csv"@, 0, op) ==> op == Op::EscapeCsv,
        named(minimal_list(), "escape_sh"@, 0, Op::EscapeSh),
        named(core_list(), "escape_sh"@, 0, op) ==> op == Op::EscapeSh,
{
    assert(core_list()[5].0 == "inputs"@);
    assert(minimal_list()[5] == core_list()[5]);
    if named(core_list(), "inputs"@, 0, op) {
        lemma_named(5, 0, op);
    }
    assert(core_list()[6].0 == "tojson"@);
    assert(minimal_list()[6] == core_list()[6]);
    if named(core_list(), "tojson"@, 0, op) {
        lemma_named(6, 0, op);
    }
    assert(core_list()[7].0 == "floor"@);
    assert(minimal_list()[7] == core_list()[7]);
    if named(core_list(), "floor"@, 0, op) {
        lemma_named(7, 0, op);
    }
    assert(core_list()[8].0 == "round"@);
    assert(minimal_list()[8] == core_list()[8]);
    if named(core_list(), "round"@, 0, op) {
        lemma_named(8, 0, op);
    }
    assert(core_list()[9].0 == "ceil"@);
    assert(minimal_list()[9] == core_list()[9]);
    if named(core_list(), "ceil"@, 0, op) {
        lemma_named(9, 0, op);
    }
    assert(core_list()[10].0 == "utf8bytelength"@);
    assert(minimal_list()[10] == core_list()[10]);
    if named(core_list(), "utf8bytelength"@, 0, op) {
        lemma_named(10, 0, op);
    }
    assert(core_list()[11].0 == "explode"@);
    assert(minimal_list()[11] == core_list()[11]);
    if named(core_list(), "explode"@, 0, op) {
        lemma_named(11, 0, op);
    }
    assert(core_list()[12].0 == "implode"@);
    assert(minimal_list()[12] == core_list()[12]);
    if named(core_list(), "implode"@, 0, op) {
        lemma_named(12, 0, op);
    }
    assert(core_list()[13].0 == "ascii_downcase"@);
    assert(minimal_list()[13] == core_list()[13]);
    if named(core_list(), "ascii_downcase"@, 0, op) {
        lemma_named(13, 0, op);
    }
    assert(core_list()[14].0 == "ascii_upcase"@);
    assert(minimal_list()[14] == core_list()[14]);
    if named(core_list(), "ascii_upcase"@, 0, op) {
        lemma_named(14, 0, op);
    }
    assert(core_list()[15].0 == "reverse"@);
    assert(minimal_list()[15] == core_list()[15]);
    if named(core_list(), "reverse"@, 0, op) {
        lemma_named(15, 0, op);
    }
    assert(core_list()[16].0 == "sort"@);
    assert(minimal_list()[16] == core_list()[16]);
    if named(core_list(), "sort"@, 0, op) {
        lemma_named(16, 0, op);
    }
    assert(core_list()[17].0 == "sort_by"@);
    assert(minimal_list()[17] == core_list()[17]);
    if named(core_list(), "sort_by"@, 1, op) {
        lemma_named(17, 1, op);
    }
    assert(core_list()[18].0 == "group_by"@);
    assert(minimal_list()[18] == core_list()[18]);
    if named(core_list(), "group_by"@, 1, op) {
        lemma_named(18, 1, op);
    }
    assert(core_list()[19].0 == "min_by_or_empty"@);
    assert(minimal_list()[19] == core_list()[19]);
    if named(core_list(), "min_by_or_empty"@, 1, op) {
        lemma_named(19, 1, op);
    }
    assert(core_list()[20].0 == "max_by_or_empty"@);
    assert(minimal_list()[20] == core_list()[20]);
    if named(core_list(), "max_by_or_empty"@, 1, op) {
        lemma_named(20, 1, op);
    }
    assert(core_list()[21].0 == "first"@);
    assert(minimal_list()[21] == core_list()[21]);
    if named(core_list(), "first"@, 1, op) {
        lemma_named(21, 1, op);
    }
    assert(core_list()[22].0 == "limit"@);
    assert(minimal_list()[22] == core_list()[22]);
    if named(core_list(), "limit"@, 2, op) {
        lemma_named(22, 2, op);
    }
    assert(core_list()[23].0 == "range"@);
    assert(minimal_list()[23] == core_list()[23]);
    if named(core_list(), "range"@, 3, op) {
        lemma_named(23, 3, op);
    }
    assert(core_list()[24].0 == "startswith"@);
    assert(minimal_list()[24] == core_list()[24]);
    if named(core_list(), "startswith"@, 1, op) {
        lemma_named(24, 1, op);
    }
    assert(core_list()[25].0 == "endswith"@);
    assert(minimal_list()[25] == core_list()[25]);
    if named(core_list(), "endswith"@, 1, op) {
        lemma_named(25, 1, op);
    }
    assert(core_list()[26].0 == "ltrimstr"@);
    assert(minimal_list()[26] == core_list()[26]);
    if named(core_list(), "ltrimstr"@, 1, op) {
        lemma_named(26, 1, op);
    }
    assert(core_list()[27].0 == "rtrimstr"@);
    assert(minimal_list()[27] == core_list()[27]);
    if named(core_list(), "rtrimstr"@, 1, op) {
        lemma_named(27, 1, op);
    }
    assert(core_list()[28].0 == "escape_csv"@);
    assert(minimal_list()[28] == core_list()[28]);
    if named(core_list(), "escape_csv"@, 0, op) {
        lemma_named(28, 0, op);
    }
    assert(core_list()[29].0 == "escape_sh"@);
    assert(minimal_list()[29] == core_list()[29]);
    if named(core_list(), "escape_sh"@, 0, op) {
        lemma_named(29, 0, op);
    }
}

/// The names of the filters that ask the environment stand for these operations, and for no other ones.
pub proof fn law_names_std_run(op: Op)
    ensures
        std_run_rows().len() == 2,
        named(extra_list(), "env"@, 0, Op::Env),
        named(core_list(), "env"@, 0, op) ==> op == Op::Env,
        named(extra_list(), "now"@, 0, Op::Now),
        named(core_list(), "now"@, 0, op) ==> op == Op::Now,
{
    assert(core_list()[31].0 == "env"@);
    assert(extra_list()[0] == core_list()[31]);
    if named(core_list(), "env"@, 0, op) {
        lemma_named(31, 0, op);
    }
    assert(core_list()[32].0 == "now"@);
    assert(extra_list()[1] == core_list()[32]);
    if named(core_list(), "now"@, 0, op) {
        lemma_named(32, 0, op);
    }
}

/// The names of the filters that escape and encode text stand for these operations, and for no other ones.
pub proof fn law_names_format_run(op: Op)
    ensures
        format_run_rows().len() == 5,
        named(extra_list(), "escape_html"@, 0, Op::EscapeHtml),
        named(core_list(), "escape_html"@, 0, op) ==> op == Op::EscapeHtml,
        named(extra_list(), "escape_tsv"@, 0, Op::EscapeTsv),
        named(core_list(), "escape_tsv"@, 0, op) ==> op == Op::EscapeTsv,
        named(extra_list(), "encode_uri"@, 0, Op::EncodeUri),
        named(core_list(), "encode_uri"@, 0, op) ==> op == Op::EncodeUri,
        named(extra_list(), "encode_base64"@, 0, Op::EncodeBase64),
        named(core_list(), "encode_base64"@, 0, op) ==> op == Op::EncodeBase64,
        named(extra_list(), "decode_base64"@, 0, Op::DecodeBase64),
        named(core_list(), "decode_base64"@, 0, op) ==> op == Op::DecodeBase64,
{
    assert(core_list()[33].0 == "escape_html"@);
    assert(extra_list()[2] == core_list()[33]);
    if named(core_list(), "escape_html"@, 0, op) {
        lemma_named(33, 0, op);
    }
    assert(core_list()[34].0 == "escape_tsv"@);
    assert(extra_list()[3] == core_list()[34]);
    if named(core_list(), "escape_tsv"@, 0, op) {
        lemma_named(34, 0, op);
    }
    assert(core_list()[35].0 == "encode_uri"@);
    assert(extra_list()[4] == core_list()[35]);
    if named(core_list(), "encode_uri"@, 0, op) {
        lemma_named(35, 0, op);
    }
    assert(core_list()[36].0 == "encode_base64"@);
    assert(extra_list()[5] == core_list()[36]);
    if named(core_list(), "encode_base64"@, 0, op) {
        lemma_named(36, 0, op);
    }
    assert(core_list()[37].0 == "decode_base64"@);
    assert(extra_list()[6] == core_list()[37]);
    if named(core_list(), "decode_base64"@, 0, op) {
        lemma_named(37, 0, op);
    }
}

/// The names of the mathematical filters from `acos` to `expm1` stand for these operations,
/// and for no other ones.
pub proof fn law_names_math_to_expm1(op: Op)
    ensures
        math_run_rows().len() == 52,
        named(extra_list(), "acos"@, 0, Op::Math(Math::Acos)),
        named(core_list(), "acos"@, 0, op) ==> op == Op::Math(Math::Acos),
        named(extra_list(), "acosh"@, 0, Op::Math(Math::Acosh)),
        named(core_list(), "acosh"@, 0, op) ==> op == Op::Math(Math::Acosh),
        named(extra_list(), "asin"@, 0, Op::Math(Math::Asin)),
        named(core_list(), "asin"@, 0, op) ==> op == Op::Math(Math::Asin),
        named(extra_list(), "asinh"@, 0, Op::Math(Math::Asinh)),
        named(core_list(), "asinh"@, 0, op) ==> op == Op::Math(Math::Asinh),
        named(extra_list(), "atan"@, 0, Op::Math(Math::Atan)),
        named(core_list(), "atan"@, 0, op) ==> op == Op::Math(Math::Atan),
        named(extra_list(), "atanh"@, 0, Op::Math(Math::Atanh)),
        named(core_list(), "atanh"@, 0, op) ==> op == Op::Math(Math::Atanh),
        named(extra_list(), "cbrt"@, 0, Op::Math(Math::Cbrt)),
        named(core_list(), "cbrt"@, 0, op) ==> op == Op::Math(Math::Cbrt),
        named(extra_list(), "cos"@, 0, Op::Math(Math::Cos)),
        named(core_list(), "cos"@, 0, op) ==> op == Op::Math(Math::Cos),
        named(extra_list(), "cosh"@, 0, Op::Math(Math::Cosh)),
        named(core_list(), "cosh"@, 0, op) ==> op == Op::Math(Math::Cosh),
        named(extra_list(), "erf"@, 0, Op::Math(Math::Erf)),
        named(core_list(), "erf"@, 0, op) ==> op == Op::Math(Math::Erf),
        named(extra_list(), "erfc"@, 0, Op::Math(Math::Erfc)),
        named(core_list(), "erfc"@, 0, op) ==> op == Op::Math(Math::Erfc),
        named(extra_list(), "exp"@, 0, Op::Math(Math::Exp)),
        named(core_list(), "exp"@, 0, op) ==> op == Op::Math(Math::Exp),
        named(extra_list(), "exp10"@, 0, Op::Math(Math::Exp10)),
        named(core_list(), "exp10"@, 0, op) ==> op == Op::Math(Math::Exp10),
        named(extra_list(), "exp2"@, 0, Op::Math(Math::Exp2)),
        named(core_list(), "exp2"@, 0, op) ==> op == Op::Math(Math::Exp2),
        named(extra_list(), "expm1"@, 0, Op::Math(Math::Expm1)),
        named(core_list(), "expm1"@, 0, op) ==> op == Op::Math(Math::Expm1),
{
    assert(core_list()[38].0 == "acos"@);
    assert(extra_list()[7] == core_list()[38]);
    if named(core_list(), "acos"@, 0, op) {
        lemma_named(38, 0, op);
    }
    assert(core_list()[39].0 == "acosh"@);
    assert(extra_list()[8] == core_list()[39]);
    if named(core_list(), "acosh"@, 0, op) {
        lemma_named(39, 0, op);
    }
    assert(core_list()[40].0 == "asin"@);
    assert(extra_list()[9] == core_list()[40]);
    if named(core_list(), "asin"@, 0, op) {
        lemma_named(40, 0, op);
    }
    assert(core_list()[41].0 == "asinh"@);
    assert(extra_list()[10] == core_list()[41]);
    if named(core_list(), "asinh"@, 0, op) {
        lemma_named(41, 0, op);
    }
    assert(core_list()[42].0 == "atan"@);
    assert(extra_list()[11] == core_list()[42]);
    if named(core_list(), "atan"@, 0, op) {
        lemma_named(42, 0, op);
    }
    assert(core_list()[43].0 == "atanh"@);
    assert(extra_list()[12] == core_list()[43]);
    if named(core_list(), "atanh"@, 0, op) {
        lemma_named(43, 0, op);
    }
    assert(core_list()[44].0 == "cbrt"@);
    assert(extra_list()[13] == core_list()[44]);
    if named(core_list(), "cbrt"@, 0, op) {
        lemma_named(44, 0, op);
    }
    assert(core_list()[45].0 == "cos"@);
    assert(extra_list()[14] == core_list()[45]);
    if named(core_list(), "cos"@, 0, op) {
        lemma_named(45, 0, op);
    }
    assert(core_list()[46].0 == "cosh"@);
    assert(extra_list()[15] == core_list()[46]);
    if named(core_list(), "cosh"@, 0, op) {
        lemma_named(46, 0, op);
    }
    assert(core_list()[47].0 == "erf"@);
    assert(extra_list()[16] == core_list()[47]);
    if named(core_list(), "erf"@, 0, op) {
        lemma_named(47, 0, op);
    }
    assert(core_list()[48].0 == "erfc"@);
    assert(extra_list()[17] == core_list()[48]);
    if named(core_list(), "erfc"@, 0, op) {
        lemma_named(48, 0, op);
    }
    assert(core_list()[49].0 == "exp"@);
    assert(extra_list()[18] == core_list()[49]);
    if named(core_list(), "exp"@, 0, op) {
        lemma_named(49, 0, op);
    }
    assert(core_list()[50].0 == "exp10"@);
    assert(extra_list()[19] == core_list()[50]);
    if named(core_list(), "exp10"@, 0, op) {
        lemma_named(50, 0, op);
    }
    assert(core_list()[51].0 == "exp2"@);
    assert(extra_list()[20] == core_list()[51]);
    if named(core_list(), "exp2"@, 0, op) {
        lemma_named(51, 0, op);
    }
    assert(core_list()[52].0 == "expm1"@);
    assert(extra_list()[21] == core_list()[52]);
    if named(core_list(), "expm1"@, 0, op) {
        lemma_named(52, 0, op);
    }
}

/// The names of the mathematical filters from `fabs` to `rint` stand for these operations,
/// and for no other ones.
pub proof fn law_names_math_to_rint(op: Op)
    ensures
        math_run_rows().len() == 52,
        named(extra_list(), "fabs"@, 0, Op::Math(Math::Fabs)),
        named(core_list(), "fabs"@, 0, op) ==> op == Op::Math(Math::Fabs),
        named(extra_list(), "frexp"@, 0, Op::Math(Math::Frexp)),
        named(core_list(), "frexp"@, 0, op) ==> op == Op::Math(Math::Frexp),
        named(extra_list(), "ilogb"@, 0, Op::Math(Math::Ilogb)),
        named(core_list(), "ilogb"@, 0, op) ==> op == Op::Math(Math::Ilogb),
        named(extra_list(), "j0"@, 0, Op::Math(Math::J0)),
        named(core_list(), "j0"@, 0, op) ==> op == Op::Math(Math::J0),
        named(extra_list(), "j1"@, 0, Op::Math(Math::J1)),
        named(core_list(), "j1"@, 0, op) ==> op == Op::Math(Math::J1),
        named(extra_list(), "lgamma"@, 0, Op::Math(Math::Lgamma)),
        named(core_list(), "lgamma"@, 0, op) ==> op == Op::Math(Math::Lgamma),
        named(extra_list(), "log"@, 0, Op::Math(Math::Log)),
        named(core_list(), "log"@, 0, op) ==> op == Op::Math(Math::Log),
        named(extra_list(), "log10"@, 0, Op::Math(Math::Log10)),
        named(core_list(), "log10"@, 0, op) ==> op == Op::Math(Math::Log10),
        named(extra_list(), "log1p"@, 0, Op::Math(Math::Log1p)),
        named(core_list(), "log1p"@, 0, op) ==> op == Op::Math(Math::Log1p),
        named(extra_list(), "log2"@, 0, Op::Math(Math::Log2)),
        named(core_list(), "log2"@, 0, op) ==> op == Op::Math(Math::Log2),
        named(extra_list(), "modf"@, 0, Op::Math(Math::Modf)),
        named(core_list(), "modf"@, 0, op) ==> op == Op::Math(Math::Modf),
        named(extra_list(), "nearbyint"@, 0, Op::Math(Math::Round)),
        named(core_list(), "nearbyint"@, 0, op) ==> op == Op::Math(Math::Round),
        named(extra_list(), "rint"@, 0, Op::Math(Math::Rint)),
        named(core_list(), "rint"@, 0, op) ==> op == Op::Math(Math::Rint),
{
    assert(core_list()[53].0 == "fabs"@);
    assert(extra_list()[22] == core_list()[53]);
    if named(core_list(), "fabs"@, 0, op) {
        lemma_named(53, 0, op);
    }
    assert(core_list()[54].0 == "frexp"@);
    assert(extra_list()[23] == core_list()[54]);
    if named(core_list(), "frexp"@, 0, op) {
        lemma_named(54, 0, op);
    }
    assert(core_list()[55].0 == "ilogb"@);
    assert(extra_list()[24] == core_list()[55]);
    if named(core_list(), "ilogb"@, 0, op) {
        lemma_named(55, 0, op);
    }
    assert(core_list()[56].0 == "j0"@);
    assert(extra_list()[25] == core_list()[56]);
    if named(core_list(), "j0"@, 0, op) {
        lemma_named(56, 0, op);
    }
    assert(core_list()[57].0 == "j1"@);
    assert(extra_list()[26] == core_list()[57]);
    if named(core_list(), "j1"@, 0, op) {
        lemma_named(57, 0, op);
    }
    assert(core_list()[58].0 == "lgamma"@);
    assert(extra_list()[27] == core_list()[58]);
    if named(core_list(), "lgamma"@, 0, op) {
        lemma_named(58, 0, op);
    }
    assert(core_list()[59].0 == "log"@);
    assert(extra_list()[28] == core_list()[59]);
    if named(core_list(), "log"@, 0, op) {
        lemma_named(59, 0, op);
    }
    assert(core_list()[60].0 == "log10"@);
    assert(extra_list()[29] == core_list()[60]);
    if named(core_list(), "log10"@, 0, op) {
        lemma_named(60, 0, op);
    }
    assert(core_list()[61].0 == "log1p"@);
    assert(extra_list()[30] == core_list()[61]);
    if named(core_list(), "log1p"@, 0, op) {
        lemma_named(61, 0, op);
    }
    assert(core_list()[62].0 == "log2"@);
    assert(extra_list()[31] == core_list()[62]);
    if named(core_list(), "log2"@, 0, op) {
        lemma_named(62, 0, op);
    }
    assert(core_list()[63].0 == "modf"@);
    assert(extra_list()[32] == core_list()[63]);
    if named(core_list(), "modf"@, 0, op) {
        lemma_named(63, 0, op);
    }
    assert(core_list()[64].0 == "nearbyint"@);
    assert(extra_list()[33] == core_list()[64]);
    if named(core_list(), "nearbyint"@, 0, op) {
        lemma_named(64, 0, op);
    }
    assert(core_list()[65].0 == "rint"@);
    assert(extra_list()[34] == core_list()[65]);
    if named(core_list(), "rint"@, 0, op) {
        lemma_named(65, 0, op);
    }
}

/// The names of the mathematical filters from `sin` to `y1` stand for these operations,
/// and for no other ones.
pub proof fn law_names_math_to_y1(op: Op)
    ensures
        math_run_rows().len() == 52,
        named(extra_list(), "sin"@, 0, Op::Math(Math::Sin)),
        named(core_list(), "sin"@, 0, op) ==> op == Op::Math(Math::Sin),
        named(extra_list(), "sinh"@, 0, Op::Math(Math::Sinh)),
        named(core_list(), "sinh"@, 0, op) ==> op == Op::Math(Math::Sinh),
        named(extra_list(), "sqrt"@, 0, Op::Math(Math::Sqrt)),
        named(core_list(), "sqrt"@, 0, op) ==> op == Op::Math(Math::Sqrt),
        named(extra_list(), "tan"@, 0, Op::Math(Math::Tan)),
        named(core_list(), "tan"@, 0, op) ==> op == Op::Math(Math::Tan),
        named(extra_list(), "tanh"@, 0, Op::Math(Math::Tanh)),
        named(core_list(), "tanh"@, 0, op) ==> op == Op::Math(Math::Tanh),
        named(extra_list(), "tgamma"@, 0, Op::Math(Math::Tgamma)),
        named(core_list(), "tgamma"@, 0, op) ==> op == Op::Math(Math::Tgamma),
        named(extra_list(), "trunc"@, 0, Op::Math(Math::Trunc)),
        named(core_list(), "trunc"@, 0, op) ==> op == Op::Math(Math::Trunc),
        named(extra_list(), "y0"@, 0, Op::Math(Math::Y0)),
        named(core_list(), "y0"@, 0, op) ==> op == Op::Math(Math::Y0),
        named(extra_list(), "y1"@, 0, Op::Math(Math::Y1)),
        named(core_list(), "y1"@, 0, op) ==> op == Op::Math(Math::Y1),
{
    assert(core_list()[66].0 == "sin"@);
    assert(extra_list()[35] == core_list()[66]);
    if named(core_list(), "sin"@, 0, op) {
        lemma_named(66, 0, op);
    }
    assert(core_list()[67].0 == "sinh"@);
    assert(extra_list()[36] == core_list()[67]);
    if named(core_list(), "sinh"@, 0, op) {
        lemma_named(67, 0, op);
    }
    assert(core_list()[68].0 == "sqrt"@);
    assert(extra_list()[37] == core_list()[68]);
    if named(core_list(), "sqrt"@, 0, op) {
        lemma_named(68, 0, op);
    }
    assert(core_list()[69].0 == "tan"@);
    assert(extra_list()[38] == core_list()[69]);
    if named(core_list(), "tan"@, 0, op) {
        lemma_named(69, 0, op);
    }
    assert(core_list()[70].0 == "tanh"@);
    assert(extra_list()[39] == core_list()[70]);
    if named(core_list(), "tanh"@, 0, op) {
        lemma_named(70, 0, op);
    }
    assert(core_list()[71].0 == "tgamma"@);
    assert(extra_list()[40] == core_list()[71]);
    if named(core_list(), "tgamma"@, 0, op) {
        lemma_named(71, 0, op);
    }
    assert(core_list()[72].0 == "trunc"@);
    assert(extra_list()[41] == core_list()[72]);
    if named(core_list(), "trunc"@, 0, op) {
        lemma_named(72, 0, op);
    }
    assert(core_list()[73].0 == "y0"@);
    assert(extra_list()[42] == core_list()[73]);
    if named(core_list(), "y0"@, 0, op) {
        lemma_named(73, 0, op);
    }
    assert(core_list()[74].0 == "y1"@);
    assert(extra_list()[43] == core_list()[74]);
    if named(core_list(), "y1"@, 0, op) {
        lemma_named(74, 0, op);
    }
}

/// The names of the mathematical filters of several numbers stand for these operations,
/// and for no other ones.
pub proof fn law_names_math_of_several_numbers(op: Op)
    ensures
        math_run_rows().len() == 52,
        named(extra_list(), "atan2"@, 2, Op::Math(Math::Atan2)),
        named(core_list(), "atan2"@, 2, op) ==> op == Op::Math(Math::Atan2),
        named(extra_list(), "copysign"@, 2, Op::Math(Math::Copysign)),
        named(core_list(), "copysign"@, 2, op) ==> op == Op::Math(Math::Copysign),
        named(extra_list(), "fdim"@, 2, Op::Math(Math::Fdim)),
        named(core_list(), "fdim"@, 2, op) ==> op == Op::Math(Math::Fdim),
        named(extra_list(), "fmax"@, 2, Op::Math(Math::Fmax)),
        named(core_list(), "fmax"@, 2, op) ==> op == Op::Math(Math::Fmax),
        named(extra_list(), "fmin"@, 2, Op::Math(Math::Fmin)),
        named(core_list(), "fmin"@, 2, op) ==> op == Op::Math(Math::Fmin),
        named(extra_list(), "fmod"@, 2, Op::Math(Math::Fmod)),
        named(core_list(), "fmod"@, 2, op) ==> op == Op::Math(Math::Fmod),
        named(extra_list(), "hypot"@, 2, Op::Math(Math::Hypot)),
        named(core_list(), "hypot"@, 2, op) ==> op == Op::Math(Math::Hypot),
        named(extra_list(), "jn"@, 2, Op::Math(Math::Jn)),
        named(core_list(), "jn"@, 2, op) ==> op == Op::Math(Math::Jn),
        named(extra_list(), "ldexp"@, 2, Op::Math(Math::Ldexp)),
        named(core_list(), "ldexp"@, 2, op) ==> op == Op::Math(Math::Ldexp),
        named(extra_list(), "nextafter"@, 2, Op::Math(Math::Nextafter)),
        named(core_list(), "nextafter"@, 2, op) ==> op == Op::Math(Math::Nextafter),
        named(extra_list(), "pow"@, 2, Op::Math(Math::Pow)),
        named(core_list(), "pow"@, 2, op) ==> op == Op::Math(Math::Pow),
        named(extra_list(), "remainder"@, 2, Op::Math(Math::Remainder)),
        named(core_list(), "remainder"@, 2, op) ==> op == Op::Math(Math::Remainder),
        named(extra_list(), "scalbln"@, 2, Op::Math(Math::Scalbn)),
        named(core_list(), "scalbln"@, 2, op) ==> op == Op::Math(Math::Scalbn),
        named(extra_list(), "yn"@, 2, Op::Math(Math::Yn)),
        named(core_list(), "yn"@, 2, op) ==> op == Op::Math(Math::Yn),
        named(extra_list(), "fma"@, 3, Op::Math(Math::Fma)),
        named(core_list(), "fma"@, 3, op) ==> op == Op::Math(Math::Fma),
{
    assert(core_list()[75].0 == "atan2"@);
    assert(extra_list()[44] == core_list()[75]);
    if named(core_list(), "atan2"@, 2, op) {
        lemma_named(75, 2, op);
    }
    assert(core_list()[76].0 == "copysign"@);
    assert(extra_list()[45] == core_list()[76]);
    if named(core_list(), "copysign"@, 2, op) {
        lemma_named(76, 2, op);
    }
    assert(core_list()[77].0 == "fdim"@);
    assert(extra_list()[46] == core_list()[77]);
    if named(core_list(), "fdim"@, 2, op) {
        lemma_named(77, 2, op);
    }
    assert(core_list()[78].0 == "fmax"@);
    assert(extra_list()[47] == core_list()[78]);
    if named(core_list(), "fmax"@, 2, op) {
        lemma_named(78, 2, op);
    }
    assert(core_list()[79].0 == "fmin"@);
    assert(extra_list()[48] == core_list()[79]);
    if named(core_list(), "fmin"@, 2, op) {
        lemma_named(79, 2, op);
    }
    assert(core_list()[80].0 == "fmod"@);
    assert(extra_list()[49] == core_list()[80]);
    if named(core_list(), "fmod"@, 2, op) {
        lemma_named(80, 2, op);
    }
    assert(core_list()[81].0 == "hypot"@);
    assert(extra_list()[50] == core_list()[81]);
    if named(core_list(), "hypot"@, 2, op) {
        lemma_named(81, 2, op);
    }
    assert(core_list()[82].0 == "jn"@);
    assert(extra_list()[51] == core_list()[82]);
    if named(core_list(), "jn"@, 2, op) {
        lemma_named(82, 2, op);
    }
    assert(core_list()[83].0 == "ldexp"@);
    assert(extra_list()[52] == core_list()[83]);
    if named(core_list(), "ldexp"@, 2, op) {
        lemma_named(83, 2, op);
    }
    assert(core_list()[84].0 == "nextafter"@);
    assert(extra_list()[53] == core_list()[84]);
    if named(core_list(), "nextafter"@, 2, op) {
        lemma_named(84, 2, op);
    }
    assert(core_list()[85].0 == "pow"@);
    assert(extra_list()[54] == core_list()[85]);
    if named(core_list(), "pow"@, 2, op) {
        lemma_named(85, 2, op);
    }
    assert(core_list()[86].0 == "remainder"@);
    assert(extra_list()[55] == core_list()[86]);
    if named(core_list(), "remainder"@, 2, op) {
        lemma_named(86, 2, op);
    }
    assert(core_list()[87].0 == "scalbln"@);
    assert(extra_list()[56] == core_list()[87]);
    if named(core_list(), "scalbln"@, 2, op) {
        lemma_named(87, 2, op);
    }
    assert(core_list()[88].0 == "yn"@);
    assert(extra_list()[57] == core_list()[88]);
    if named(core_list(), "yn"@, 2, op) {
        lemma_named(88, 2, op);
    }
    assert(core_list()[89].0 == "fma"@);
    assert(extra_list()[58] == core_list()[89]);
    if named(core_list(), "fma"@, 3, op) {
        lemma_named(89, 3, op);
    }
}

/// The names of the filters for regular expressions stand for these operations, and for no other ones.
pub proof fn law_names_regex_run(op: Op)
    ensures
        regex_run_rows().len() == 3,
        named(extra_list(), "matches"@, 2, Op::Matches),
        named(core_list(), "matches"@, 2, op) ==> op == Op::Matches,
        named(extra_list(), "split_matches"@, 2, Op::SplitMatches),
        named(core_list(), "split_matches"@, 2, op) ==> op == Op::SplitMatches,
        named(extra_list(), "split_"@, 2, Op::Split),
        named(core_list(), "split_"@, 2, op) ==> op == Op::Split,
{
    assert(core_list()[90].0 == "matches"@);
    assert(extra_list()[59] == core_list()[90]);
    if named(core_list(), "matches"@, 2, op) {
        lemma_named(90, 2, op);
    }
    assert(core_list()[91].0 == "split_matches"@);
    assert(extra_list()[60] == core_list()[91]);
    if named(core_list(), "split_matches"@, 2, op) {
        lemma_named(91, 2, op);
    }
    assert(core_list()[92].0 == "split_"@);
    assert(extra_list()[61] == core_list()[92]);
    if named(core_list(), "split_"@, 2, op) {
        lemma_named(92, 2, op);
    }
}

/// The names of the filters for timestamps stand for these operations, and for no other ones.
pub proof fn law_names_time_run(op: Op)
    ensures
        time_run_rows().len() == 2,
        named(extra_list(), "fromdateiso8601"@, 0, Op::FromDateIso8601),
        named(core_list(), "fromdateiso8601"@, 0, op) ==> op == Op::FromDateIso8601,
        named(extra_list(), "todateiso8601"@, 0, Op::ToDateIso8601),
        named(core_list(), "todateiso8601"@, 0, op) ==> op == Op::ToDateIso8601,
{
    assert(core_list()[93].0 == "fromdateiso8601"@);
    assert(extra_list()[62] == core_list()[93]);
    if named(core_list(), "fromdateiso8601"@, 0, op) {
        lemma_named(93, 0, op);
    }
    assert(core_list()[94].0 == "todateiso8601"@);
    assert(extra_list()[63] == core_list()[94]);
    if named(core_list(), "todateiso8601"@, 0, op) {
        lemma_named(94, 0, op);
    }
}

/// The names of the filters outside of the tables stand for these operations,
/// and for no other ones.
pub proof fn law_names_of_others(op: Op)
    ensures
        named(minimal_list(), "error"@, 0, Op::Error),
        named(extra_list(), "debug"@, 0, Op::Debug),
        named(core_list(), "fromjson"@, 0, Op::FromJson),
        named(core_list(), "error"@, 0, op) ==> op == Op::Error,
        named(core_list(), "debug"@, 0, op) ==> op == Op::Debug,
        named(core_list(), "fromjson"@, 0, op) ==> op == Op::FromJson,
        minimal_list().len() == 31,
        core_list().len() == 97,
{
    assert(minimal_list()[30].0 == "error"@);
    assert(core_list()[30] == minimal_list()[30]);
    assert(core_list()[95].0 == "debug"@);
    assert(extra_list()[64] == core_list()[95]);
    assert(core_list()[96].0 == "fromjson"@);
    if named(core_list(), "error"@, 0, op) {
        lemma_named(30, 0, op);
    }
    if named(core_list(), "debug"@, 0, op) {
        lemma_named(95, 0, op);
    }
    if named(core_list(), "fromjson"@, 0, op) {
        lemma_named(96, 0, op);
    }
}

/// Only `error` and `debug` can be updated, and under an update they do what they do when run.
pub proof fn law_only_error_and_debug_are_updated(k: int)
    requires
        0 <= k < core_list().len(),
    ensures
        core_list()[k].2.update == (if core_list()[k].0 == "error"@ || core_list()[k].0
            == "debug"@ {
            Some(core_list()[k].2.run)
        } else {
            None
        }),
{
    assert(core_list()[30].0 == "error"@);
    assert(core_list()[95].0 == "debug"@);
    if core_list()[k].0 == "error"@ {
        crate::filters::law_no_name_occurs_twice(k, 30);
    }
    if core_list()[k].0 == "debug"@ {
        crate::filters::law_no_name_occurs_twice(k, 95);
    }
}

/// The filters that are generic over the value type are those of the minimal set
/// behind the first five, which are the ones that work on JSON values only.
pub proof fn law_base_is_minimal_without_json(i: int)
    requires
        0 <= i < 31,
    ensures
        base_list().len() == 26,
        minimal_list().len() == 31,
        i >= 5 ==> base_list()[i - 5] == minimal_list()[i],
        i < 5 <==> {
            let name = minimal_list()[i].0;
            ||| name == "length"@
            ||| name == "keys_unsorted"@
            ||| name == "contains"@
            ||| name == "has"@
            ||| name == "indices"@
        },
{
    let c = core_list();
    assert(c[0].0 == "length"@);
    assert(c[1].0 == "keys_unsorted"@);
    assert(c[2].0 == "contains"@);
    assert(c[3].0 == "has"@);
    assert(c[4].0 == "indices"@);
    assert(c[i] == minimal_list()[i]);
    assert forall|k: int| 0 <= k < 5 && c[i].0 == #[trigger] c[k].0 implies i == k by {
        crate::filters::law_no_name_occurs_twice(i, k);
    }
}

} // verus!
