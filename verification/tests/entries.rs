use hifijson::{SliceLexer, Token};
use jaq_core::dispatch::{
    run_convert, run_debug, run_from_json, run_input, run_json, run_json_unary, run_limited,
    run_round, run_update,
};
use jaq_core::filters::Op;
use jaq_core::val::{Error, Type, Val, ValR2};
use std::cell::Cell;

fn text(s: &str) -> Val {
    Val::Str(s.to_string())
}

fn shown(r: ValR2<Val>) -> String {
    format!("{:?}", r)
}

fn show(v: &Val) -> String {
    format!("{:?}", v)
}

#[test]
fn rounding_runs_by_its_entry() {
    let give = |i: isize| move |_: &Val| Ok(Val::Int(i));
    let run = |op| shown(run_round(op, Val::Null, give(1), give(2), give(3)));
    assert_eq!(run(Op::Floor), "Ok(Int(1))");
    assert_eq!(run(Op::Round), "Ok(Int(2))");
    assert_eq!(run(Op::Ceil), "Ok(Int(3))");
    let r = run_round(Op::Floor, Val::Int(7), give(1), give(2), give(3));
    assert_eq!(shown(r), "Ok(Int(7))");
}

#[test]
fn conversions_run_by_their_entries() {
    let fractional = |s: i64, n: u32| Val::Arr(vec![Val::Int(s as isize), Val::Int(n as isize)]);
    let nanos = |_: &Val| Ok(1_500_000_000);
    let run = |op, v: &Val| shown(run_convert(op, v, show, fractional, nanos));
    assert_eq!(run(Op::ToJson, &Val::Int(1)), "Ok(Str(\"Int(1)\"))");
    let half = text("1970-01-01T00:00:01.5Z");
    assert_eq!(run(Op::FromDateIso8601, &half), "Ok(Arr([Int(1), Int(500000000)]))");
    assert_eq!(run(Op::ToDateIso8601, &Val::Int(1)), "Ok(Str(\"1970-01-01T00:00:01Z\"))");
    assert_eq!(
        run(Op::ToDateIso8601, &Val::Null),
        "Ok(Str(\"1970-01-01T00:00:01.500000000Z\"))"
    );
}

#[test]
fn filters_on_json_run_by_their_entries() {
    let keys = |v: &Val| Ok(vec![v.clone()]);
    let run = |op, v: &Val| shown(run_json(op, v, |_: &str| None, keys));
    assert_eq!(run(Op::Length, &text("ab")), "Ok(Int(2))");
    assert_eq!(run(Op::KeysUnsorted, &Val::Int(5)), "Ok(Arr([Int(5)]))");
    let eq = |a: &Val, b: &Val| show(a) == show(b);
    let has = |_: &Val, k: &Val| Err(Error::Val(k.clone()));
    let run = |op, v: &Val, y| shown(run_json_unary(op, v, y, |_, _| true, has, eq));
    assert_eq!(run(Op::Contains, &Val::Null, Val::Null), "Ok(Bool(true))");
    assert_eq!(run(Op::Has, &Val::Null, Val::Int(4)), "Err(Val(Int(4)))");
    assert_eq!(run(Op::Indices, &text("aba"), text("a")), "Ok(Arr([Int(0), Int(2)]))");
}

#[test]
fn first_and_limit_run_by_their_entries() {
    let run = || vec![Ok(Val::Int(1)), Ok(Val::Int(2)), Ok(Val::Int(3))].into_iter();
    let mut a = run_limited(Op::First, None, run);
    let mut b = run_limited(Op::Limit, Some(Ok(Val::Int(1))), run);
    for _ in 0..3 {
        assert_eq!(format!("{:?}", a.next()), format!("{:?}", b.next()));
    }
    let mut c = run_limited(Op::Limit, Some(Ok(Val::Int(2))), run);
    assert!(matches!(c.next(), Some(Ok(Val::Int(1)))));
    assert!(matches!(c.next(), Some(Ok(Val::Int(2)))));
    assert!(c.next().is_none());
    let mut d = run_limited(Op::Limit, Some(Ok(Val::Null)), run);
    assert!(matches!(d.next(), Some(Err(Error::Type(Val::Null, Type::Int)))));
}

fn parse(token: Token, _: &mut SliceLexer<'_>) -> Result<Val, hifijson::Error> {
    match token {
        Token::Null => Ok(Val::Null),
        _ => Err(hifijson::token::Expect::Value.into()),
    }
}

#[test]
fn reading_runs_by_its_entry() {
    assert_eq!(shown(run_input(Op::Inputs, Ok(Val::Int(1)))), "Ok(Int(1))");
    assert_eq!(shown(run_input(Op::Inputs, Err("x".to_string()))), "Err(Val(Str(\"x\")))");
    assert_eq!(shown(run_from_json(Op::FromJson, &text(" null"), parse)), "Ok(Null)");
    assert!(run_from_json(Op::FromJson, &text("null null"), parse).is_err());
}

#[test]
fn debug_and_error_run_and_update_by_their_entries() {
    let seen = Cell::new(0);
    let look = |_: &Val| seen.set(seen.get() + 1);
    assert_eq!(shown(run_debug(Op::Debug, Val::Int(3), look)), "Ok(Int(3))");
    assert_eq!(seen.get(), 1);
    let r = run_update(Op::Debug, Val::Int(3), look, |v| vec![v]);
    assert!(matches!(r, Ok(vs) if vs.len() == 1));
    assert_eq!(seen.get(), 2);
    let r = run_update(Op::Error, Val::Int(3), look, |v| vec![v]);
    assert!(matches!(r, Err(Error::Val(Val::Int(3)))));
    assert_eq!(seen.get(), 2);
}
