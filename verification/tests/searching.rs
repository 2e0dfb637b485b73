use jaq_core::natives;
use jaq_core::search::indices;
use jaq_core::val::{Error, Val};

fn eq(a: &Val, b: &Val) -> bool {
    format!("{:?}", a) == format!("{:?}", b)
}

fn text(s: &str) -> Val {
    Val::Str(s.to_string())
}

fn array(xs: &[isize]) -> Val {
    Val::Arr(xs.iter().map(|i| Val::Int(*i)).collect())
}

#[test]
fn indices_of_strings() {
    assert_eq!(indices(&text("a,b, cd, efg"), &text(", "), eq).ok(), Some(vec![3, 7]));
    assert_eq!(indices(&text("äöäöä"), &text("äöä"), eq).ok(), Some(vec![0, 2]));
    assert_eq!(indices(&text("abc"), &text(""), eq).ok(), Some(vec![]));
    assert_eq!(indices(&text(""), &text("a"), eq).ok(), Some(vec![]));
    assert_eq!(indices(&text("a"), &text("ab"), eq).ok(), Some(vec![]));
}

#[test]
fn indices_of_arrays() {
    let x = array(&[0, 1, 2, 1, 3, 1, 2]);
    assert_eq!(indices(&x, &array(&[1, 2]), eq).ok(), Some(vec![1, 5]));
    assert_eq!(indices(&x, &array(&[]), eq).ok(), Some(vec![]));
    assert_eq!(indices(&array(&[1]), &array(&[1, 1]), eq).ok(), Some(vec![]));
    assert_eq!(indices(&array(&[1, 1, 1]), &array(&[1, 1]), eq).ok(), Some(vec![0, 1]));
}

#[test]
fn indices_of_elements() {
    assert_eq!(indices(&array(&[0, 1, 2, 1]), &Val::Int(1), eq).ok(), Some(vec![1, 3]));
    assert_eq!(indices(&array(&[]), &Val::Null, eq).ok(), Some(vec![]));
}

#[test]
fn indices_fail_on_other_values() {
    match indices(&Val::Int(1), &text("a"), eq) {
        Err(Error::Index(Val::Int(1), Val::Str(s))) => assert_eq!(s, "a"),
        other => panic!("{:?}", other),
    }
    assert!(matches!(
        indices(&text("a"), &Val::Int(1), eq),
        Err(Error::Index(Val::Str(_), Val::Int(1)))
    ));
}

#[test]
fn indices_filter_gives_an_array_of_integers() {
    let r = natives::indices(&array(&[0, 1, 2, 1]), Val::Int(1), eq);
    assert!(matches!(r, Ok(w) if eq(&w, &array(&[1, 3]))));
    assert!(matches!(natives::indices(&Val::Null, Val::Null, eq), Err(Error::Index(_, _))));
}
