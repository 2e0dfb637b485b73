use jaq_core::stream::{first, limit, once_or_empty, once_with, unary, with_debug};
use jaq_core::val::{Error, Type, Val, ValR2};
use std::cell::Cell;

#[test]
fn once_with_runs_its_function_once_and_lazily() {
    let runs = Cell::new(0);
    let mut s = once_with(|| {
        runs.set(runs.get() + 1);
        7
    });
    assert_eq!(runs.get(), 0);
    assert_eq!(s.next(), Some(7));
    assert_eq!(s.next(), None);
    assert_eq!(s.next(), None);
    assert_eq!(runs.get(), 1);
}

#[test]
fn once_or_empty_gives_at_most_one_output() {
    let mut s = once_or_empty(|| Some(7));
    assert_eq!(s.next(), Some(7));
    assert_eq!(s.next(), None);
    let mut s = once_or_empty(|| None::<u8>);
    assert_eq!(s.next(), None);
    assert_eq!(s.next(), None);
}

#[test]
fn unary_maps_arguments_and_passes_errors_on() {
    let args: Vec<ValR2<Val>> =
        vec![Ok(Val::Int(1)), Err(Error::Val(Val::Int(2))), Ok(Val::Int(3))];
    let mut s = unary(args.into_iter(), Val::Int(10), |x: &Val, y: Val| match (x, y) {
        (Val::Int(x), Val::Int(y)) => Ok(Val::Int(x + y)),
        _ => panic!(),
    });
    assert!(matches!(s.next(), Some(Ok(Val::Int(11)))));
    assert!(matches!(s.next(), Some(Err(Error::Val(Val::Int(2))))));
    assert!(matches!(s.next(), Some(Ok(Val::Int(13)))));
    assert!(s.next().is_none());
}

#[test]
fn first_asks_for_one_output_only() {
    let asked = Cell::new(0);
    let outputs = std::iter::from_fn(|| {
        asked.set(asked.get() + 1);
        Some(asked.get())
    });
    let mut s = first(outputs);
    assert_eq!(s.next(), Some(1));
    assert_eq!(s.next(), None);
    assert_eq!(asked.get(), 1);
}

#[test]
fn limit_counts_outputs() {
    let run = || vec![Ok(Val::Int(1)), Err(Error::Val(Val::Null)), Ok(Val::Int(3))].into_iter();
    let count = |n: isize| {
        let mut s = limit(Ok(Val::Int(n)), run);
        std::iter::from_fn(move || s.next()).count()
    };
    assert_eq!(count(-1), 0);
    assert_eq!(count(0), 0);
    assert_eq!(count(2), 2);
    assert_eq!(count(9), 3);
    let mut s = limit(Ok(Val::Int(2)), run);
    assert!(matches!(s.next(), Some(Ok(Val::Int(1)))));
    assert!(matches!(s.next(), Some(Err(Error::Val(Val::Null)))));
    assert!(s.next().is_none());
}

#[test]
fn limit_gives_its_error_once() {
    let run = || -> std::vec::IntoIter<ValR2<Val>> { panic!("an error is not run") };
    let mut s = limit(Err(Error::Val(Val::Int(4))), run);
    assert!(matches!(s.next(), Some(Err(Error::Val(Val::Int(4))))));
    assert!(s.next().is_none());
    let mut s = limit(Ok(Val::Null), run);
    assert!(matches!(s.next(), Some(Err(Error::Type(Val::Null, Type::Int)))));
    assert!(s.next().is_none());
}

#[test]
fn debugging_shows_the_value_and_passes_it_on() {
    let seen = Cell::new(0);
    assert_eq!(with_debug(5, |x: &i32| seen.set(*x)), 5);
    assert_eq!(seen.get(), 5);
}

#[test]
fn first_is_limit_of_one() {
    let runs: [fn() -> std::vec::IntoIter<ValR2<Val>>; 3] = [
        || vec![].into_iter(),
        || vec![Ok(Val::Int(1)), Ok(Val::Int(2))].into_iter(),
        || vec![Err(Error::Val(Val::Null)), Ok(Val::Int(2))].into_iter(),
    ];
    for run in runs {
        let mut f = first(run());
        let mut l = limit(Ok(Val::Int(1)), run);
        for _ in 0..3 {
            assert_eq!(format!("{:?}", f.next()), format!("{:?}", l.next()));
        }
    }
}
