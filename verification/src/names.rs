//! Where the names of filters stand in the list of filters.

use crate::filters::{
    core_list, core_run_rows, format_run_rows, json_minimal_rows, math_run_rows, regex_run_rows,
    std_run_rows, time_run_rows,
};
use vstd::prelude::*;

verus! {

/// The place of a filter's name in the list of filters,
/// by the length of the name and a few of its characters.
pub open spec fn place(name: Seq<char>) -> int {
    if name.len() == 2 {
        if name[1] == '0' {
            if name[0] == 'j' {
                56
            } else {
                73
            }
        } else if name[1] == '1' {
            if name[0] == 'j' {
                57
            } else {
                74
            }
        } else {
            if name[0] == 'j' {
                82
            } else {
                88
            }
        }
    } else if name.len() == 3 {
        if name[2] == 'a' {
            89
        } else if name[2] == 'f' {
            47
        } else if name[2] == 'g' {
            59
        } else if name[2] == 'n' {
            if name[0] == 's' {
                66
            } else {
                69
            }
        } else if name[2] == 'p' {
            49
        } else if name[2] == 's' {
            if name[0] == 'c' {
                45
            } else {
                3
            }
        } else if name[2] == 'v' {
            31
        } else {
            if name[0] == 'n' {
                32
            } else {
                85
            }
        }
    } else if name.len() == 4 {
        if name[1] == 'a' {
            if name[0] == 'f' {
                53
            } else {
                70
            }
        } else if name[1] == 'b' {
            44
        } else if name[1] == 'c' {
            38
        } else if name[1] == 'd' {
            77
        } else if name[1] == 'e' {
            9
        } else if name[1] == 'i' {
            if name[0] == 'r' {
                65
            } else {
                67
            }
        } else if name[1] == 'm' {
            if name[2] == 'a' {
                78
            } else if name[2] == 'i' {
                79
            } else {
                80
            }
        } else if name[1] == 'o' {
            if name[0] == 'c' {
                46
            } else if name[0] == 'l' {
                62
            } else if name[0] == 'm' {
                63
            } else {
                16
            }
        } else if name[1] == 'q' {
            68
        } else if name[1] == 'r' {
            48
        } else if name[1] == 's' {
            40
        } else if name[1] == 't' {
            42
        } else {
            51
        }
    } else if name.len() == 5 {
        if name[1] == 'a' {
            23
        } else if name[1] == 'c' {
            39
        } else if name[1] == 'd' {
            83
        } else if name[1] == 'e' {
            95
        } else if name[1] == 'i' {
            if name[0] == 'f' {
                21
            } else {
                22
            }
        } else if name[1] == 'l' {
            if name[0] == 'f' {
                7
            } else {
                55
            }
        } else if name[1] == 'o' {
            if name[4] == '0' {
                60
            } else if name[4] == 'd' {
                8
            } else {
                61
            }
        } else if name[1] == 'r' {
            if name[0] == 'e' {
                30
            } else if name[0] == 'f' {
                54
            } else {
                72
            }
        } else if name[1] == 's' {
            41
        } else if name[1] == 't' {
            if name[4] == '2' {
                75
            } else {
                43
            }
        } else if name[1] == 'x' {
            if name[3] == '1' {
                50
            } else {
                52
            }
        } else {
            81
        }
    } else if name.len() == 6 {
        if name[1] == 'e' {
            0
        } else if name[1] == 'g' {
            if name[0] == 'l' {
                58
            } else {
                71
            }
        } else if name[1] == 'n' {
            5
        } else if name[1] == 'o' {
            6
        } else {
            92
        }
    } else if name.len() == 7 {
        if name[1] == 'a' {
            90
        } else if name[1] == 'c' {
            87
        } else if name[1] == 'e' {
            15
        } else if name[1] == 'm' {
            12
        } else if name[1] == 'n' {
            4
        } else if name[1] == 'o' {
            17
        } else {
            11
        }
    } else if name.len() == 8 {
        if name[0] == 'c' {
            if name[2] == 'n' {
                2
            } else {
                76
            }
        } else if name[0] == 'e' {
            25
        } else if name[0] == 'f' {
            96
        } else if name[0] == 'g' {
            18
        } else if name[0] == 'l' {
            26
        } else {
            27
        }
    } else if name.len() == 9 {
        if name[2] == 'a' {
            64
        } else if name[2] == 'c' {
            29
        } else if name[2] == 'm' {
            86
        } else {
            84
        }
    } else if name.len() == 10 {
        if name[7] == 'c' {
            28
        } else if name[7] == 'i' {
            24
        } else if name[7] == 't' {
            34
        } else {
            35
        }
    } else if name.len() == 11 {
        33
    } else if name.len() == 12 {
        14
    } else if name.len() == 13 {
        if name[0] == 'd' {
            37
        } else if name[0] == 'e' {
            36
        } else if name[0] == 'k' {
            1
        } else if name[0] == 's' {
            91
        } else {
            94
        }
    } else if name.len() == 14 {
        if name[0] == 'a' {
            13
        } else {
            10
        }
    } else {
        if name[1] == 'a' {
            20
        } else if name[1] == 'i' {
            19
        } else {
            93
        }
    }
}

proof fn lemma_places_json_minimal()
    ensures
        json_minimal_rows().len() == 5,
        forall|k: int|
            0 <= k < 5 ==> place((#[trigger] json_minimal_rows()[k]).0) == 0 + k,
{
    reveal_strlit("length");
    reveal_strlit("keys_unsorted");
    reveal_strlit("contains");
    reveal_strlit("has");
    reveal_strlit("indices");
}

proof fn lemma_places_core_run()
    ensures
        core_run_rows().len() == 25,
        forall|k: int|
            0 <= k < 25 ==> place((#[trigger] core_run_rows()[k]).0) == 5 + k,
{
    reveal_strlit("inputs");
    reveal_strlit("tojson");
    reveal_strlit("floor");
    reveal_strlit("round");
    reveal_strlit("ceil");
    reveal_strlit("utf8bytelength");
    reveal_strlit("explode");
    reveal_strlit("implode");
    reveal_strlit("ascii_downcase");
    reveal_strlit("ascii_upcase");
    reveal_strlit("reverse");
    reveal_strlit("sort");
    reveal_strlit("sort_by");
    reveal_strlit("group_by");
    reveal_strlit("min_by_or_empty");
    reveal_strlit("max_by_or_empty");
    reveal_strlit("first");
    reveal_strlit("limit");
    reveal_strlit("range");
    reveal_strlit("startswith");
    reveal_strlit("endswith");
    reveal_strlit("ltrimstr");
    reveal_strlit("rtrimstr");
    reveal_strlit("escape_csv");
    reveal_strlit("escape_sh");
}

proof fn lemma_places_std_run()
    ensures
        std_run_rows().len() == 2,
        forall|k: int|
            0 <= k < 2 ==> place((#[trigger] std_run_rows()[k]).0) == 31 + k,
{
    reveal_strlit("env");
    reveal_strlit("now");
}

proof fn lemma_places_format_run()
    ensures
        format_run_rows().len() == 5,
        forall|k: int|
            0 <= k < 5 ==> place((#[trigger] format_run_rows()[k]).0) == 33 + k,
{
    reveal_strlit("escape_html");
    reveal_strlit("escape_tsv");
    reveal_strlit("encode_uri");
    reveal_strlit("encode_base64");
    reveal_strlit("decode_base64");
}

proof fn lemma_places_math_run()
    ensures
        math_run_rows().len() == 52,
        forall|k: int|
            0 <= k < 52 ==> place((#[trigger] math_run_rows()[k]).0) == 38 + k,
{
    reveal_strlit("acos");
    reveal_strlit("acosh");
    reveal_strlit("asin");
    reveal_strlit("asinh");
    reveal_strlit("atan");
    reveal_strlit("atanh");
    reveal_strlit("cbrt");
    reveal_strlit("cos");
    reveal_strlit("cosh");
    reveal_strlit("erf");
    reveal_strlit("erfc");
    reveal_strlit("exp");
    reveal_strlit("exp10");
    reveal_strlit("exp2");
    reveal_strlit("expm1");
    reveal_strlit("fabs");
    reveal_strlit("frexp");
    reveal_strlit("ilogb");
    reveal_strlit("j0");
    reveal_strlit("j1");
    reveal_strlit("lgamma");
    reveal_strlit("log");
    reveal_strlit("log10");
    reveal_strlit("log1p");
    reveal_strlit("log2");
    reveal_strlit("modf");
    reveal_strlit("nearbyint");
    reveal_strlit("rint");
    reveal_strlit("sin");
    reveal_strlit("sinh");
    reveal_strlit("sqrt");
    reveal_strlit("tan");
    reveal_strlit("tanh");
    reveal_strlit("tgamma");
    reveal_strlit("trunc");
    reveal_strlit("y0");
    reveal_strlit("y1");
    reveal_strlit("atan2");
    reveal_strlit("copysign");
    reveal_strlit("fdim");
    reveal_strlit("fmax");
    reveal_strlit("fmin");
    reveal_strlit("fmod");
    reveal_strlit("hypot");
    reveal_strlit("jn");
    reveal_strlit("ldexp");
    reveal_strlit("nextafter");
    reveal_strlit("pow");
    reveal_strlit("remainder");
    reveal_strlit("scalbln");
    reveal_strlit("yn");
    reveal_strlit("fma");
}

proof fn lemma_places_regex_run()
    ensures
        regex_run_rows().len() == 3,
        forall|k: int|
            0 <= k < 3 ==> place((#[trigger] regex_run_rows()[k]).0) == 90 + k,
{
    reveal_strlit("matches");
    reveal_strlit("split_matches");
    reveal_strlit("split_");
}

proof fn lemma_places_time_run()
    ensures
        time_run_rows().len() == 2,
        forall|k: int|
            0 <= k < 2 ==> place((#[trigger] time_run_rows()[k]).0) == 93 + k,
{
    reveal_strlit("fromdateiso8601");
    reveal_strlit("todateiso8601");
}

/// Every filter stands where its name says.
pub proof fn lemma_places()
    ensures
        forall|k: int|
            0 <= k < core_list().len() ==> place((#[trigger] core_list()[k]).0) == k,
{
    lemma_places_json_minimal();
    lemma_places_core_run();
    lemma_places_std_run();
    lemma_places_format_run();
    lemma_places_math_run();
    lemma_places_regex_run();
    lemma_places_time_run();
    reveal_strlit("error");
    reveal_strlit("debug");
    reveal_strlit("fromjson");
    let list = core_list();
    assert forall|k: int| 0 <= k < list.len() implies place((#[trigger] list[k]).0) == k by {
        if k < 5 {
            assert(list[k].0 == json_minimal_rows()[k - 0].0);
        } else if k < 30 {
            assert(list[k].0 == core_run_rows()[k - 5].0);
        } else if k < 31 {
            assert(list[k].0 == "error"@);
        } else if k < 33 {
            assert(list[k].0 == std_run_rows()[k - 31].0);
        } else if k < 38 {
            assert(list[k].0 == format_run_rows()[k - 33].0);
        } else if k < 90 {
            assert(list[k].0 == math_run_rows()[k - 38].0);
        } else if k < 93 {
            assert(list[k].0 == regex_run_rows()[k - 90].0);
        } else if k < 95 {
            assert(list[k].0 == time_run_rows()[k - 93].0);
        } else if k < 96 {
            assert(list[k].0 == "debug"@);
        } else {
            assert(list[k].0 == "fromjson"@);
        }
    }
}

} // verus!
