use jaq_core::dispatch::{run_by_key, run_plain, run_unary};
use jaq_core::filters::Op;
use jaq_core::natives;
use jaq_core::select::{cmp_by, max_by_or_empty, min_by_or_empty};
use jaq_core::sort::{groups, reverse, sort, sort_by};
use jaq_core::val::{Error, Type, ValR2, ValT};
use std::cell::Cell;

/// JSON value with the order of its variants.
#[derive(Clone, Debug, PartialEq, Eq, PartialOrd, Ord)]
enum Json {
    Null,
    Bool(bool),
    Int(isize),
    Str(String),
    Arr(Vec<Json>),
}

impl From<bool> for Json {
    fn from(b: bool) -> Self {
        Json::Bool(b)
    }
}

impl From<isize> for Json {
    fn from(i: isize) -> Self {
        Json::Int(i)
    }
}

impl From<String> for Json {
    fn from(s: String) -> Self {
        Json::Str(s)
    }
}

impl ValT for Json {
    fn into_seq(self) -> Result<Vec<Self>, Self> {
        match self {
            Json::Arr(a) => Ok(a),
            v => Err(v),
        }
    }

    fn as_isize(&self) -> Option<isize> {
        match self {
            Json::Int(i) => Some(*i),
            _ => None,
        }
    }

    fn as_str(&self) -> Option<&str> {
        match self {
            Json::Str(s) => Some(s),
            _ => None,
        }
    }

    fn from_seq(xs: Vec<Self>) -> Self {
        Json::Arr(xs)
    }

    fn from_num(n: &str) -> ValR2<Self> {
        Ok(Json::Str(n.to_string()))
    }
}

fn ints(xs: &[isize]) -> Json {
    Json::Arr(xs.iter().map(|i| Json::Int(*i)).collect())
}

/// The remainder of an integer as its key.
fn modulo(n: isize) -> impl Fn(&isize) -> Result<Vec<isize>, String> {
    move |i: &isize| Ok(vec![*i % n])
}

fn refuse(x: isize) -> impl Fn(&isize) -> Result<Vec<isize>, String> {
    move |i: &isize| if *i < x { Ok(vec![*i]) } else { Err(format!("refused {}", i)) }
}

#[test]
fn sorting_orders_elements() {
    assert_eq!(sort(vec![3, 1, 2, 1, 0]), [0, 1, 1, 2, 3]);
    assert_eq!(sort(Vec::<u8>::new()), []);
    let xs: Vec<u64> = (0..200).map(|i| i * 7919 % 211).collect();
    let mut ys = xs.clone();
    ys.sort();
    assert_eq!(sort(xs), ys);
}

#[test]
fn sorting_a_sorted_array_changes_nothing() {
    let once = sort(vec!["b", "a", "c"]);
    assert_eq!(sort(once.clone()), once);
}

#[test]
fn sorting_by_keys_is_stable() {
    assert_eq!(sort_by(vec![5, 4, 3, 2, 1, 0], modulo(3)).ok(), Some(vec![3, 0, 4, 1, 5, 2]));
}

#[test]
fn sorting_by_identity_is_sorting() {
    let xs = vec![3, 1, 2, 1];
    let id = |i: &isize| Ok::<_, String>(vec![*i]);
    assert_eq!(sort_by(xs.clone(), id).ok(), Some(sort(xs)));
}

#[test]
fn keys_are_compared_lexicographically() {
    let keys = |i: &isize| Ok::<Vec<isize>, String>((0..*i).rev().take(2).collect());
    // the keys are [0], [], [2, 1] and [1, 0]
    assert_eq!(sort_by(vec![1, 0, 3, 2], keys).ok(), Some(vec![0, 1, 2, 3]));
}

#[test]
fn sorting_stops_at_the_first_failure() {
    let calls = Cell::new(0);
    let f = |i: &isize| {
        calls.set(calls.get() + 1);
        refuse(2)(i)
    };
    assert_eq!(sort_by(vec![1, 3, 5], f), Err("refused 3".to_string()));
    assert_eq!(calls.get(), 2);
}

#[test]
fn sorting_fewer_than_two_elements_runs_nothing() {
    let f = |_: &isize| -> Result<Vec<isize>, String> { panic!("nothing to compare") };
    assert_eq!(sort_by(vec![9], f), Ok(vec![9]));
    assert_eq!(sort_by(vec![], f), Ok(vec![]));
}

#[test]
fn groups_hold_equal_keys_in_order() {
    let gs = groups(vec![5, 4, 3, 2, 1, 0, 8], modulo(3)).unwrap();
    assert_eq!(gs, [vec![3, 0], vec![4, 1], vec![5, 2, 8]]);
    assert_eq!(groups(vec![], modulo(3)), Ok(vec![]));
    assert_eq!(groups(vec![1, 2, 3], refuse(2)), Err("refused 2".to_string()));
}

#[test]
fn groups_concatenate_to_the_sorted_array() {
    let xs = vec![5, 4, 3, 2, 1, 0, 8];
    let gs = groups(xs.clone(), modulo(3)).unwrap();
    assert_eq!(Some(gs.concat()), sort_by(xs, modulo(3)).ok());
}

#[test]
fn least_is_the_first_and_greatest_the_last_of_several() {
    assert_eq!(min_by_or_empty(vec![5, 4, 3, 0, 1], modulo(3)), Ok(Some(3)));
    assert_eq!(max_by_or_empty(vec![2, 5, 4, 8, 1], modulo(3)), Ok(Some(8)));
    assert_eq!(min_by_or_empty(vec![], modulo(3)), Ok(None));
    assert_eq!(max_by_or_empty(vec![], modulo(3)), Ok(None));
    assert_eq!(max_by_or_empty(vec![1, 7], refuse(2)), Err("refused 7".to_string()));
}

#[test]
fn least_and_greatest_are_the_ends_of_the_sorted_array() {
    let xs = vec![2, 5, 4, 8, 1, 3];
    let ys = sort_by(xs.clone(), modulo(3)).unwrap();
    assert_eq!(min_by_or_empty(xs.clone(), modulo(3)), Ok(ys.first().copied()));
    assert_eq!(max_by_or_empty(xs, modulo(3)), Ok(ys.last().copied()));
}

#[test]
fn the_kept_element_is_replaced_as_asked() {
    let keep_first = |_: &Vec<isize>, _: &Vec<isize>| false;
    let keep_last = |_: &Vec<isize>, _: &Vec<isize>| true;
    assert_eq!(cmp_by(vec![7, 8, 9], modulo(3), keep_first), Ok(Some(7)));
    assert_eq!(cmp_by(vec![7, 8, 9], modulo(3), keep_last), Ok(Some(9)));
}

#[test]
fn reversing_twice_changes_nothing() {
    assert_eq!(reverse(vec![1, 2, 3]), [3, 2, 1]);
    assert_eq!(reverse(reverse(vec![1, 2, 3])), [1, 2, 3]);
}

fn half(v: &Json) -> Result<Vec<Json>, Error<Json>> {
    match v {
        Json::Int(i) => Ok(vec![Json::Int(i / 2)]),
        v => Err(Error::Val(v.clone())),
    }
}

#[test]
fn filters_on_arrays() {
    let v = ints(&[5, 0, 4, 1]);
    assert_eq!(natives::sort(v.clone()).ok(), Some(ints(&[0, 1, 4, 5])));
    assert_eq!(natives::reverse(v.clone()).ok(), Some(ints(&[1, 4, 0, 5])));
    assert_eq!(natives::sort_by(v.clone(), half).ok(), Some(ints(&[0, 1, 5, 4])));
    let gs = Json::Arr(vec![ints(&[0, 1]), ints(&[5, 4])]);
    assert_eq!(natives::group_by(v.clone(), half).ok(), Some(gs));
    assert!(matches!(natives::min_by_or_empty(v.clone(), half), Some(Ok(Json::Int(0)))));
    assert!(matches!(natives::max_by_or_empty(v, half), Some(Ok(Json::Int(4)))));
    assert!(natives::min_by_or_empty(ints(&[]), half).is_none());
    assert!(natives::max_by_or_empty(ints(&[]), half).is_none());
}

#[test]
fn filters_on_arrays_pass_errors_on() {
    let bad = Json::Arr(vec![Json::Int(1), Json::Null]);
    let is_null = |e: Error<Json>| matches!(e, Error::Val(Json::Null));
    assert!(natives::sort_by(bad.clone(), half).map_err(is_null) == Err(true));
    assert!(natives::group_by(bad.clone(), half).map_err(is_null) == Err(true));
    assert!(matches!(natives::min_by_or_empty(bad.clone(), half), Some(Err(Error::Val(_)))));
    assert!(matches!(natives::max_by_or_empty(bad, half), Some(Err(Error::Val(_)))));
}

#[test]
fn filters_on_arrays_refuse_other_values() {
    let not_arr = |e: Error<Json>| matches!(e, Error::Type(Json::Null, Type::Arr));
    assert!(natives::sort(Json::Null).map_err(not_arr) == Err(true));
    assert!(natives::reverse(Json::Null).map_err(not_arr) == Err(true));
    assert!(natives::sort_by(Json::Null, half).map_err(not_arr) == Err(true));
    assert!(natives::group_by(Json::Null, half).map_err(not_arr) == Err(true));
    assert!(matches!(
        natives::min_by_or_empty(Json::Null, half),
        Some(Err(Error::Type(Json::Null, Type::Arr)))
    ));
    assert!(matches!(
        natives::max_by_or_empty(Json::Null, half),
        Some(Err(Error::Type(Json::Null, Type::Arr)))
    ));
}

fn text(s: &str) -> Json {
    Json::Str(s.to_string())
}

#[test]
fn plain_filters_run_by_their_entries() {
    let run = |op, v: Json| run_plain(op, v).ok();
    assert_eq!(run(Op::Utf8ByteLength, text("ä")), Some(Json::Int(2)));
    assert_eq!(run(Op::Explode, text("ab")), Some(ints(&[97, 98])));
    assert_eq!(run(Op::Implode, ints(&[97, 98])), Some(text("ab")));
    assert_eq!(run(Op::AsciiDowncase, text("aB")), Some(text("ab")));
    assert_eq!(run(Op::AsciiUpcase, text("aB")), Some(text("AB")));
    assert_eq!(run(Op::Reverse, ints(&[2, 1, 3])), Some(ints(&[3, 1, 2])));
    assert_eq!(run(Op::Sort, ints(&[2, 1, 3])), Some(ints(&[1, 2, 3])));
    assert_eq!(run(Op::EscapeCsv, text("\"'")), Some(text("\"\"'")));
    assert_eq!(run(Op::EscapeSh, text("\"'")), Some(text("\"'\\''")));
    assert_eq!(run(Op::EscapeHtml, text("<")), Some(text("&lt;")));
    assert_eq!(run(Op::EscapeTsv, text("\t")), Some(text("\\t")));
    assert_eq!(run(Op::EncodeUri, text("/")), Some(text("%2F")));
    assert_eq!(run(Op::EncodeBase64, text("f")), Some(text("Zg==")));
    assert_eq!(run(Op::DecodeBase64, text("Zg==")), Some(text("f")));
    assert!(matches!(run_plain(Op::Error, text("x")), Err(Error::Val(Json::Str(_)))));
    assert!(matches!(run_plain(Op::Sort, text("x")), Err(Error::Type(_, Type::Arr))));
    assert!(matches!(run_plain(Op::EncodeUri, ints(&[])), Err(Error::Type(_, Type::Str))));
}

#[test]
fn filters_with_an_argument_run_by_their_entries() {
    let run = |op, s: &str, t: &str| run_unary(op, &text(s), text(t)).ok();
    assert_eq!(run(Op::StartsWith, "ab", "a"), Some(Json::Bool(true)));
    assert_eq!(run(Op::EndsWith, "ab", "a"), Some(Json::Bool(false)));
    assert_eq!(run(Op::LTrimStr, "ab", "a"), Some(text("b")));
    assert_eq!(run(Op::RTrimStr, "ab", "b"), Some(text("a")));
    assert!(matches!(
        run_unary(Op::LTrimStr, &text("a"), Json::Null),
        Err(Error::Type(Json::Null, Type::Str))
    ));
}

#[test]
fn filters_by_keys_run_by_their_entries() {
    let run = |op, v: Json| run_by_key(op, v, half).map(|r| r.ok());
    let v = ints(&[5, 0, 4, 1]);
    assert_eq!(run(Op::SortBy, v.clone()), Some(Some(ints(&[0, 1, 5, 4]))));
    let gs = Json::Arr(vec![ints(&[0, 1]), ints(&[5, 4])]);
    assert_eq!(run(Op::GroupBy, v.clone()), Some(Some(gs)));
    assert_eq!(run(Op::MinByOrEmpty, v.clone()), Some(Some(Json::Int(0))));
    assert_eq!(run(Op::MaxByOrEmpty, v), Some(Some(Json::Int(4))));
    assert_eq!(run(Op::MinByOrEmpty, ints(&[])), None);
    assert_eq!(run(Op::SortBy, ints(&[])), Some(Some(ints(&[]))));
}
