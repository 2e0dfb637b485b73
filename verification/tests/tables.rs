use jaq_core::dispatch::{kind, Kind};
use jaq_core::filters::{
    core_filters, core_run, generic_base, generic_extra, minimal, Filter, Math, Op,
};

fn names(fs: &[Filter]) -> Vec<&str> {
    fs.iter().map(|f| f.0.as_str()).collect()
}

fn find(fs: &[Filter], name: &str) -> Option<(usize, Op, Option<Op>)> {
    fs.iter().find(|f| f.0 == name).map(|f| (f.1, f.2.run, f.2.update))
}

#[test]
fn minimal_filters() {
    let fs = minimal();
    assert_eq!(fs.len(), 31);
    assert_eq!(names(&fs)[..6], ["length", "keys_unsorted", "contains", "has", "indices", "inputs"]);
    assert_eq!(find(&fs, "range"), Some((3, Op::Range, None)));
    assert_eq!(find(&fs, "limit"), Some((2, Op::Limit, None)));
    assert_eq!(find(&fs, "error"), Some((0, Op::Error, Some(Op::Error))));
}

#[test]
fn minimal_filters_lack_supplement() {
    let fs = minimal();
    for name in ["now", "env", "debug", "fromdateiso8601", "todateiso8601"] {
        assert_eq!(find(&fs, name), None);
    }
}

#[test]
fn core_has_supplement() {
    let fs = core_filters();
    assert_eq!(find(&fs, "now"), Some((0, Op::Now, None)));
    assert_eq!(find(&fs, "env"), Some((0, Op::Env, None)));
    assert_eq!(find(&fs, "debug"), Some((0, Op::Debug, Some(Op::Debug))));
    assert_eq!(find(&fs, "fromdateiso8601"), Some((0, Op::FromDateIso8601, None)));
    assert_eq!(find(&fs, "todateiso8601"), Some((0, Op::ToDateIso8601, None)));
    assert_eq!(find(&fs, "fromjson"), Some((0, Op::FromJson, None)));
}

#[test]
fn core_extends_minimal() {
    let (m, x, c) = (minimal(), generic_extra(), core_filters());
    assert_eq!(c.len(), m.len() + x.len() + 1);
    assert_eq!(names(&c)[..m.len()], names(&m));
    assert_eq!(names(&c)[m.len()..c.len() - 1], names(&x));
    assert_eq!(names(&c).last(), Some(&"fromjson"));
    assert_eq!(names(&m)[5..], names(&generic_base()));
}

#[test]
fn no_filter_is_there_twice() {
    let fs = core_filters();
    let mut all = names(&fs);
    all.sort();
    all.dedup();
    assert_eq!(all.len(), fs.len());
}

#[test]
fn mathematical_filters() {
    let fs = generic_extra();
    assert_eq!(find(&fs, "sin"), Some((0, Op::Math(Math::Sin), None)));
    assert_eq!(find(&fs, "nearbyint"), Some((0, Op::Math(Math::Round), None)));
    assert_eq!(find(&fs, "scalbln"), Some((2, Op::Math(Math::Scalbn), None)));
    assert_eq!(find(&fs, "pow"), Some((2, Op::Math(Math::Pow), None)));
    assert_eq!(find(&fs, "fma"), Some((3, Op::Math(Math::Fma), None)));
    assert_eq!(find(&fs, "logb"), None);
}

#[test]
fn kinds_of_filters() {
    assert_eq!(kind(Op::Matches), Kind::Regex(false, true));
    assert_eq!(kind(Op::SplitMatches), Kind::Regex(true, true));
    assert_eq!(kind(Op::Split), Kind::Regex(true, false));
    assert_eq!(kind(Op::Sort), Kind::Plain);
    assert_eq!(kind(Op::LTrimStr), Kind::Unary);
    assert_eq!(kind(Op::GroupBy), Kind::ByKey);
    assert_eq!(kind(Op::Ceil), Kind::Round);
    assert_eq!(kind(Op::ToDateIso8601), Kind::Convert);
    assert_eq!(kind(Op::Length), Kind::Json);
    assert_eq!(kind(Op::Indices), Kind::JsonUnary);
    assert_eq!(kind(Op::First), Kind::Limited);
    assert_eq!(kind(Op::Limit), Kind::Limited);
    assert_eq!(kind(Op::Math(Math::Sin)), Kind::Math(Math::Sin));
}

#[test]
fn the_core_table_can_be_read() {
    let rows = core_run();
    assert_eq!(rows.len(), 25);
    let op = |name: &str, arity: usize| {
        rows.iter().find(|r| r.0 == name && r.1 == arity).map(|r| r.2)
    };
    assert_eq!(op("first", 1), Some(Op::First));
    assert_eq!(op("limit", 2), Some(Op::Limit));
    assert_eq!(op("startswith", 1), Some(Op::StartsWith));
    assert_eq!(op("limit", 1), None);
}
