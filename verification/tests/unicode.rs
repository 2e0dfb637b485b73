use jaq_core::codepoints::{as_codepoint, explode, implode};
use jaq_core::val::{Error, Type, Val};

fn ints(xs: &[Val]) -> Vec<isize> {
    let int = |v: &Val| match v {
        Val::Int(i) => *i,
        v => panic!("{:?}", v),
    };
    xs.iter().map(int).collect()
}

#[test]
fn explode_gives_codepoints() {
    assert_eq!(ints(&explode::<Val>("aä€😀\u{10ffff}")), [97, 228, 8364, 128512, 1114111]);
    assert!(explode::<Val>("").is_empty());
}

#[test]
fn implode_inverts_explode() {
    let s = "aä€😀";
    assert_eq!(implode(&explode::<Val>(s)).ok().as_deref(), Some(s));
}

#[test]
fn explode_inverts_implode() {
    let xs = vec![Val::Int(228), Val::Int(0), Val::Int(0xd7ff), Val::Int(0xe000)];
    let s = implode(&xs).ok().unwrap();
    assert_eq!(ints(&explode::<Val>(&s)), ints(&xs));
}

#[test]
fn codepoints_that_are_no_characters() {
    let message = |i: isize| match as_codepoint(&Val::Int(i)) {
        Err(Error::Val(Val::Str(s))) => s,
        other => panic!("{:?}", other),
    };
    assert_eq!(message(1114112), "cannot use 1114112 as character");
    assert_eq!(message(0xd800), "cannot use 55296 as character");
    assert_eq!(message(u32::MAX as isize), "cannot use 4294967295 as character");
    let out_of_range = "out of range integral type conversion attempted";
    assert_eq!(message(-1), out_of_range);
    assert_eq!(message(u32::MAX as isize + 1), out_of_range);
    assert!(matches!(as_codepoint(&Val::Null), Err(Error::Type(Val::Null, Type::Int))));
    assert_eq!(as_codepoint(&Val::Int(97)).ok(), Some('a'));
}

#[test]
fn implode_fails_with_the_first_error() {
    let xs = vec![Val::Int(97), Val::Null, Val::Int(-1)];
    assert!(matches!(implode(&xs), Err(Error::Type(Val::Null, Type::Int))));
}
