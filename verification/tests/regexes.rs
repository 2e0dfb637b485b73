use jaq_core::regex::{parts_value, re, Part};
use jaq_core::val::{Error, Type, Val, ValR2};

fn text(s: &str) -> Val {
    Val::Str(s.to_string())
}

/// An engine that takes patterns literally, and the flag `g` to look for all matches.
fn new_flags(s: &str) -> Result<bool, String> {
    match s {
        "" => Ok(false),
        "g" => Ok(true),
        s => Err(s.to_string()),
    }
}

fn compile(_: &bool, s: &str) -> Result<String, String> {
    if s.contains('(') {
        Err("unclosed group".to_string())
    } else {
        Ok(s.to_string())
    }
}

fn find(s: &str, re: &String, global: bool, (split, matches): (bool, bool)) -> Vec<Part<usize>> {
    let mut parts = Vec::new();
    let mut last = 0;
    let n = if global { usize::MAX } else { 1 };
    for (i, m) in s.match_indices(re.as_str()).take(n) {
        if split {
            parts.push(Part::Mismatch(s[last..i].to_string()));
        }
        if matches {
            parts.push(Part::Matches(vec![i]));
        }
        last = i + m.len();
    }
    if split {
        parts.push(Part::Mismatch(s[last..].to_string()));
    }
    parts
}

fn from_match(i: &usize) -> ValR2<Val> {
    if *i < 5 {
        Ok(Val::Int(*i as isize))
    } else {
        Err(Error::Val(Val::Int(*i as isize)))
    }
}

fn run(pattern: ValR2<Val>, flags: ValR2<Val>, input: &Val, sm: (bool, bool)) -> ValR2<Val> {
    re(pattern, flags, input, sm, new_flags, compile, find, from_match)
}

fn shown(r: ValR2<Val>) -> String {
    match r {
        Ok(v) => format!("{:?}", v),
        Err(e) => format!("{:?}", e),
    }
}

#[test]
fn matches_and_what_lies_between() {
    let run = |sm| shown(run(Ok(text(",")), Ok(text("g")), &text("a,b,c"), sm));
    assert_eq!(run((false, true)), "Arr([Arr([Int(1)]), Arr([Int(3)])])");
    assert_eq!(run((true, false)), "Arr([Str(\"a\"), Str(\"b\"), Str(\"c\")])");
    assert_eq!(
        run((true, true)),
        "Arr([Str(\"a\"), Arr([Int(1)]), Str(\"b\"), Arr([Int(3)]), Str(\"c\")])"
    );
}

#[test]
fn flags_fail_before_patterns_and_these_before_inputs() {
    let fail = |i| Err(Error::Val(Val::Int(i)));
    let sm = (false, true);
    assert_eq!(shown(run(fail(1), fail(2), &Val::Null, sm)), "Val(Int(2))");
    assert_eq!(shown(run(fail(1), Ok(Val::Null), &Val::Null, sm)), "Type(Null, Str)");
    assert_eq!(
        shown(run(fail(1), Ok(text("x")), &Val::Null, sm)),
        "Val(Str(\"invalid regex flag: x\"))"
    );
    assert_eq!(shown(run(fail(1), Ok(text("")), &Val::Null, sm)), "Val(Int(1))");
    assert_eq!(
        shown(run(Ok(text("(")), Ok(text("")), &Val::Null, sm)),
        "Val(Str(\"invalid regex: unclosed group\"))"
    );
    assert!(matches!(
        run(Ok(Val::Int(3)), Ok(text("")), &Val::Null, sm),
        Err(Error::Type(Val::Int(3), Type::Str))
    ));
    assert_eq!(shown(run(Ok(text("a")), Ok(text("")), &Val::Null, sm)), "Type(Null, Str)");
}

#[test]
fn values_of_matches_may_fail() {
    let r = run(Ok(text("c")), Ok(text("g")), &text("ccccccc"), (false, true));
    assert_eq!(shown(r), "Val(Int(5))");
    let parts = vec![Part::Mismatch("x".to_string()), Part::Matches(vec![1, 7, 9])];
    assert_eq!(shown(parts_value(&parts, &from_match)), "Val(Int(7))");
    assert_eq!(shown(parts_value(&vec![], &from_match)), "Arr([])");
}
