use jaq_core::range::{range, range_of};
use jaq_core::val::{Error, ValR2, ValT};

/// JSON value with the order of its variants.
#[derive(Clone, Debug, PartialEq, Eq, PartialOrd, Ord)]
enum Json {
    Null,
    Bool(bool),
    Int(isize),
    Str(String),
    Arr(Vec<Json>),
}

impl From<bool> for Json {
    fn from(b: bool) -> Self {
        Json::Bool(b)
    }
}

impl From<isize> for Json {
    fn from(i: isize) -> Self {
        Json::Int(i)
    }
}

impl From<String> for Json {
    fn from(s: String) -> Self {
        Json::Str(s)
    }
}

impl ValT for Json {
    fn into_seq(self) -> Result<Vec<Self>, Self> {
        match self {
            Json::Arr(a) => Ok(a),
            v => Err(v),
        }
    }

    fn as_isize(&self) -> Option<isize> {
        match self {
            Json::Int(i) => Some(*i),
            _ => None,
        }
    }

    fn as_str(&self) -> Option<&str> {
        match self {
            Json::Str(s) => Some(s),
            _ => None,
        }
    }

    fn from_seq(xs: Vec<Self>) -> Self {
        Json::Arr(xs)
    }

    fn from_num(n: &str) -> ValR2<Self> {
        Ok(Json::Str(n.to_string()))
    }
}

fn plus(x: &Json, y: &Json) -> ValR2<Json> {
    match (x, y) {
        (Json::Int(x), Json::Int(y)) => match x.checked_add(*y) {
            Some(z) => Ok(Json::Int(z)),
            None => Err(Error::Val(Json::Str("overflow".to_string()))),
        },
        (Json::Str(x), Json::Str(y)) => Ok(Json::Str(format!("{}{}", x, y))),
        _ => Err(Error::Val(Json::Str("cannot add".to_string()))),
    }
}

fn outputs(from: Json, to: Json, by: Json, n: usize) -> Vec<Option<ValR2<Json>>> {
    let mut s = range(Ok(from), to, by, plus);
    (0..n).map(|_| s.next()).collect()
}

fn counts(from: isize, to: isize, by: isize) -> Vec<isize> {
    let rs = outputs(Json::Int(from), Json::Int(to), Json::Int(by), 8);
    let int = |r: &Option<ValR2<Json>>| match r {
        Some(Ok(Json::Int(i))) => Some(*i),
        _ => None,
    };
    rs.iter().map_while(int).collect()
}

#[test]
fn range_counts() {
    assert_eq!(counts(0, 10, 3), [0, 3, 6, 9]);
    assert_eq!(counts(0, 9, 3), [0, 3, 6]);
    assert_eq!(counts(0, -10, -5), [0, -5]);
    assert_eq!(counts(0, 0, 1), []);
    assert_eq!(counts(5, 0, 1), []);
    assert_eq!(counts(0, 5, -1), []);
}

#[test]
fn range_without_distance_stays_or_is_empty() {
    assert_eq!(counts(1, 2, 0), [1, 1, 1, 1, 1, 1, 1, 1]);
    assert_eq!(counts(2, 2, 0), []);
}

#[test]
fn range_stays_at_its_end() {
    let rs = outputs(Json::Int(0), Json::Int(1), Json::Int(1), 4);
    assert!(rs[0].is_some());
    assert!(rs[1..].iter().all(|r| r.is_none()));
}

#[test]
fn range_adds_values_of_other_types() {
    let text = |s: &str| Json::Str(s.to_string());
    let rs = outputs(text(""), text("aaa"), text("a"), 5);
    let texts: Vec<_> = rs.into_iter().flatten().map(|r| r.ok().unwrap()).collect();
    assert_eq!(texts, [text(""), text("a"), text("aa")]);
}

#[test]
fn range_ends_after_an_error() {
    let rs = outputs(Json::Int(isize::MAX - 1), Json::Null, Json::Int(1), 4);
    // integers are greater than null, so the stream is empty
    assert!(rs.iter().all(|r| r.is_none()));
    let rs = outputs(Json::Int(isize::MAX), Json::Str("z".to_string()), Json::Int(1), 4);
    assert!(matches!(rs[0], Some(Ok(Json::Int(isize::MAX)))));
    assert!(matches!(&rs[1], Some(Err(Error::Val(Json::Str(s)))) if s == "overflow"));
    assert!(rs[2].is_none() && rs[3].is_none());
    let mut s = range(Err(Error::Val(Json::Null)), Json::Int(0), Json::Int(1), plus);
    assert!(matches!(s.next(), Some(Err(Error::Val(Json::Null)))));
    assert!(s.next().is_none());
}

#[test]
fn range_arguments_may_be_errors() {
    let fail = |i: isize| Err(Error::Val(Json::Int(i)));
    let int = |i: isize| Ok(Json::Int(i));
    assert!(matches!(range_of(fail(1), fail(2), fail(3), plus), Err(Error::Val(Json::Int(2)))));
    assert!(matches!(range_of(fail(1), int(2), fail(3), plus), Err(Error::Val(Json::Int(3)))));
    let mut s = range_of(fail(1), int(2), int(3), plus).ok().unwrap();
    assert!(matches!(s.next(), Some(Err(Error::Val(Json::Int(1))))));
    let mut s = range_of(int(1), int(2), int(3), plus).ok().unwrap();
    assert!(matches!(s.next(), Some(Ok(Json::Int(1)))));
    assert!(s.next().is_none());
}
