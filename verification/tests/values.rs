use jaq_core::val::{length, Error, Type, Val, ValT, ValTx};

fn int_of(r: Result<Val, Error<Val>>) -> isize {
    match r {
        Ok(Val::Int(i)) => i,
        other => panic!("not an integer: {:?}", other),
    }
}

fn text_of(r: Result<Val, Error<Val>>) -> String {
    match r {
        Err(Error::Val(Val::Str(s))) => s,
        other => panic!("not an error with a text: {:?}", other),
    }
}

fn no_float(_: &str) -> Option<u64> {
    None
}

#[test]
fn length_of_null_is_zero() {
    assert_eq!(int_of(length(&Val::Null, no_float)), 0);
}

#[test]
fn length_of_booleans_fails() {
    assert_eq!(text_of(length(&Val::Bool(true), no_float)), "true has no length");
    assert_eq!(text_of(length(&Val::Bool(false), no_float)), "false has no length");
}

#[test]
fn length_of_integers_is_their_absolute_value() {
    assert_eq!(int_of(length(&Val::Int(-3), no_float)), 3);
    assert_eq!(int_of(length(&Val::Int(3), no_float)), 3);
    assert_eq!(int_of(length(&Val::Int(isize::MIN + 1), no_float)), isize::MAX);
    match length(&Val::Int(isize::MIN), no_float) {
        Ok(Val::Num(n)) => assert_eq!(n, isize::MIN.unsigned_abs().to_string()),
        other => panic!("{:?}", other),
    }
}

#[test]
fn length_of_floats_clears_the_sign() {
    for f in [-1.5f64, 1.5, -0.0, f64::NEG_INFINITY] {
        match length(&Val::Float(f.to_bits()), no_float) {
            Ok(Val::Float(bits)) => assert_eq!(bits, f.abs().to_bits()),
            other => panic!("{:?}", other),
        }
    }
}

#[test]
fn length_of_decimal_numbers_is_that_of_their_float() {
    let parse = |s: &str| s.parse::<f64>().ok().map(f64::to_bits);
    match length(&Val::Num("-2.25".to_string()), parse) {
        Ok(Val::Float(bits)) => assert_eq!(f64::from_bits(bits), 2.25),
        other => panic!("{:?}", other),
    }
    assert_eq!(int_of(length(&Val::Num("x".to_string()), parse)), 0);
}

#[test]
fn length_counts_characters_elements_and_entries() {
    assert_eq!(int_of(length(&Val::Str("aä€😀".to_string()), no_float)), 4);
    assert_eq!(int_of(length(&Val::Arr(vec![Val::Null, Val::Null]), no_float)), 2);
    let o = vec![("k".to_string(), Val::Null)];
    assert_eq!(int_of(length(&Val::Obj(o), no_float)), 1);
}

#[test]
fn clone_builds_alike() {
    let v = Val::Obj(vec![
        ("a".to_string(), Val::Arr(vec![Val::Int(1), Val::Num("1e1000".to_string())])),
        ("b".to_string(), Val::Str("x".to_string())),
        ("c".to_string(), Val::Float(7)),
        ("d".to_string(), Val::Bool(true)),
        ("e".to_string(), Val::Null),
    ]);
    assert_eq!(format!("{:?}", v.clone()), format!("{:?}", v));
}

#[test]
fn conversions_fail_with_the_expected_type() {
    assert!(matches!(Val::Null.try_as_str(), Err(Error::Type(Val::Null, Type::Str))));
    assert!(matches!(Val::Null.try_as_isize(), Err(Error::Type(Val::Null, Type::Int))));
    assert!(matches!(Val::Null.into_vec(), Err(Error::Type(Val::Null, Type::Arr))));
    assert_eq!(Val::Str("s".to_string()).try_as_str().ok(), Some("s"));
    assert_eq!(Val::Int(5).try_as_isize().ok(), Some(5));
    assert_eq!(Val::Arr(vec![Val::Null]).into_vec().ok().map(|a| a.len()), Some(1));
}

#[test]
fn conversion_to_i32_checks_the_range() {
    assert_eq!(Val::Int(i32::MIN as isize).try_as_i32().ok(), Some(i32::MIN));
    assert_eq!(Val::Int(i32::MAX as isize).try_as_i32().ok(), Some(i32::MAX));
    assert!(matches!(Val::Int(i32::MAX as isize + 1).try_as_i32(), Err(Error::Val(Val::Str(_)))));
    assert!(matches!(Val::Bool(true).try_as_i32(), Err(Error::Type(Val::Bool(true), Type::Int))));
}

#[test]
fn rounding_leaves_integers_alone() {
    let r = Val::Int(3).round(|_: &Val| panic!("an integer is not rounded"));
    assert_eq!(int_of(r), 3);
    let floor = |v: &Val| match v {
        Val::Float(f) => Ok(Val::Float(f64::from_bits(*f).floor().to_bits())),
        v => Err(Error::Type(v.clone(), Type::Int)),
    };
    match Val::Float(2.5f64.to_bits()).round(floor) {
        Ok(Val::Float(bits)) => assert_eq!(f64::from_bits(bits), 2.0),
        other => panic!("{:?}", other),
    }
    assert!(matches!(Val::Null.round(floor), Err(Error::Type(Val::Null, Type::Int))));
}

#[test]
fn mutation_keeps_the_kind_of_value() {
    let r = Val::Arr(vec![Val::Int(1)]).mutate_arr(|mut a| {
        a.push(Val::Int(2));
        Ok(a)
    });
    assert!(matches!(r, Ok(Val::Arr(a)) if a.len() == 2));
    let r = Val::Arr(vec![]).mutate_arr(|_| Err(Error::Val(Val::Int(9))));
    assert!(matches!(r, Err(Error::Val(Val::Int(9)))));
    let r = Val::Str("x".to_string()).mutate_str(|s| s.repeat(2));
    assert!(matches!(r, Ok(Val::Str(s)) if s == "xx"));
    assert!(matches!(Val::Null.mutate_str(|s| s.to_string()), Err(Error::Type(_, Type::Str))));
}

#[test]
fn numbers_keep_their_text() {
    assert!(matches!(Val::from_num("1.50"), Ok(Val::Num(n)) if n == "1.50"));
    assert!(matches!(Error::<Val>::str("no".to_string()), Error::Val(Val::Str(s)) if s == "no"));
}
