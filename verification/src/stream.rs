//! Streams of outputs, which compute an output only when they are asked for it.

use crate::val::{int_of, not_int, Error, ValR2, ValT, ValTx};
use vstd::prelude::*;
use vstd::std_specs::iter::IteratorSpec;

verus! {

/// A stream of the one output that a function computes.
pub struct OnceWith<F> {
    /// the function, unless it has been run
    pub f: Option<F>,
}

/// A stream of the one output that `f` computes.
pub fn once_with<T, F: FnOnce() -> T>(f: F) -> (s: OnceWith<F>)
    ensures
        s.f == Some(f),
{
    OnceWith { f: Some(f) }
}

impl<F> OnceWith<F> {
    /// The next output: that of the function at first, then none.
    pub fn next<T>(&mut self) -> (r: Option<T>) where F: FnOnce() -> T
        requires
            old(self).f matches Some(f) ==> call_requires(f, ()),
        ensures
            match old(self).f {
                Some(f) => r matches Some(x) && call_ensures(f, (), x),
                None => r is None,
            },
            final(self).f is None,
    {
        match self.f.take() {
            Some(f) => Some(f()),
            None => None,
        }
    }
}

/// A stream of the output that a function computes, if it computes any.
pub struct OnceOrEmpty<F> {
    /// the function, unless it has been run
    pub f: Option<F>,
}

/// A stream of the output that `f` computes, if it computes any.
pub fn once_or_empty<T, F: FnOnce() -> Option<T>>(f: F) -> (s: OnceOrEmpty<F>)
    ensures
        s.f == Some(f),
{
    OnceOrEmpty { f: Some(f) }
}

impl<F> OnceOrEmpty<F> {
    /// The next output: that of the function at first, if it has one, then none.
    pub fn next<T>(&mut self) -> (r: Option<T>) where F: FnOnce() -> Option<T>
        requires
            old(self).f matches Some(f) ==> call_requires(f, ()),
        ensures
            match old(self).f {
                Some(f) => call_ensures(f, (), r),
                None => r is None,
            },
            final(self).f is None,
    {
        match self.f.take() {
            Some(f) => f(),
            None => None,
        }
    }
}

/// `r` is what `f` gives for the input `v` and the argument `y`, or the error that `y` is.
pub open spec fn applied<V, E, F: Fn(&V, V) -> Result<V, E>>(
    f: F,
    v: V,
    y: Result<V, E>,
    r: Result<V, E>,
) -> bool {
    match y {
        Ok(y) => call_ensures(f, (&v, y), r),
        Err(e) => r == Err::<V, E>(e),
    }
}

/// `r` is what `f` gives for the input `v` and the first one of `ys`, and `rest` are the others;
/// or there is none.
pub open spec fn unary_step<V, E, F: Fn(&V, V) -> Result<V, E>>(
    f: F,
    v: V,
    ys: Seq<Result<V, E>>,
    r: Option<Result<V, E>>,
    rest: Seq<Result<V, E>>,
) -> bool {
    if ys.len() > 0 {
        rest == ys.drop_first() && (r matches Some(x) && applied(f, v, ys[0], x))
    } else {
        rest == ys && r is None
    }
}

/// A stream of what a function of an input and an argument gives, for a stream of arguments.
pub struct Unary<V, I, F> {
    pub args: I,
    pub input: V,
    pub f: F,
}

/// Runs `f` on the input and every argument; an argument that is an error becomes an output.
pub fn unary<V, E, I: Iterator<Item = Result<V, E>>, F: Fn(&V, V) -> Result<V, E>>(
    args: I,
    input: V,
    f: F,
) -> (s: Unary<V, I, F>)
    ensures
        s == (Unary { args, input, f }),
{
    Unary { args, input, f }
}

impl<V, I, F> Unary<V, I, F> {
    /// The next output: that for the next argument, if there is one.
    pub fn next<E>(&mut self) -> (r: Option<Result<V, E>>) where
        I: Iterator<Item = Result<V, E>>,
        F: Fn(&V, V) -> Result<V, E>,

        requires
            forall|v: &V, y: V| #[trigger] call_requires(old(self).f, (v, y)),
        ensures
            final(self).input == old(self).input,
            final(self).f == old(self).f,
            exists|args: &mut I, y: Option<Result<V, E>>|
                *args == old(self).args && *final(args) == final(self).args && #[trigger]
                call_ensures(I::next, (args,), y) && match y {
                    Some(y) => r matches Some(x) && applied(old(self).f, old(self).input, y, x),
                    None => r is None,
                },
            final(self).args.obeys_prophetic_iter_laws()
                == old(self).args.obeys_prophetic_iter_laws(),
            old(self).args.obeys_prophetic_iter_laws() ==> unary_step(
                old(self).f,
                old(self).input,
                old(self).args.remaining(),
                r,
                final(self).args.remaining(),
            ),
    {
        match self.args.next() {
            Some(Ok(y)) => Some((self.f)(&self.input, y)),
            Some(Err(e)) => Some(Err(e)),
            None => None,
        }
    }
}

/// A stream of the first outputs of a stream.
pub struct Take<I> {
    pub outputs: I,
    /// how many outputs may still come
    pub left: usize,
}

/// The first `n` of `all`, or all if there are fewer.
pub open spec fn first_of<T>(all: Seq<T>, n: usize) -> Seq<T> {
    if n <= all.len() {
        all.take(n as int)
    } else {
        all
    }
}

/// `r` is the first one of `all`, and `rest` are the others; or there is none.
pub open spec fn popped<T>(all: Seq<T>, r: Option<T>, rest: Seq<T>) -> bool {
    if all.len() > 0 {
        r == Some(all[0]) && rest == all.drop_first()
    } else {
        r is None && rest.len() == 0
    }
}

impl<I: Iterator> Take<I> {
    /// The next output.
    ///
    /// Once as many outputs have come as may come, the stream is not asked for another one.
    pub fn next(&mut self) -> (r: Option<I::Item>)
        ensures
            old(self).left == 0 ==> r is None && *final(self) == *old(self),
            old(self).left > 0 ==> final(self).left == old(self).left - 1 && exists|outputs: &mut I|
                *outputs == old(self).outputs && *final(outputs) == final(self).outputs
                    && #[trigger] call_ensures(I::next, (outputs,), r),
            final(self).outputs.obeys_prophetic_iter_laws()
                == old(self).outputs.obeys_prophetic_iter_laws(),
            old(self).outputs.obeys_prophetic_iter_laws() ==> popped(
                first_of(old(self).outputs.remaining(), old(self).left),
                r,
                first_of(final(self).outputs.remaining(), final(self).left),
            ),
    {
        if self.left == 0 {
            return None;
        }
        self.left = self.left - 1;
        let r = self.outputs.next();
        assert forall|all: Seq<I::Item>, n: usize| all.len() > 0 && n > 0 implies first_of(
            #[trigger] all.drop_first(),
            (n - 1) as usize,
        ) == #[trigger] first_of(all, n).drop_first() by {
            assert(first_of(all.drop_first(), (n - 1) as usize) =~= first_of(all, n).drop_first());
        }
        r
    }
}

/// The first output of a stream, if it has one.
pub fn first<I: Iterator>(outputs: I) -> (s: Take<I>)
    ensures
        s == (Take { outputs, left: 1 }),
{
    Take { outputs, left: 1 }
}

/// How many outputs a limit of `n` lets through.
pub open spec fn at_most(n: isize) -> usize {
    if n < 0 {
        0
    } else {
        n as usize
    }
}

/// A stream that is limited, or the error that came in place of the limit.
pub enum Limit<I, E> {
    Failed(Option<E>),
    Limited(Take<I>),
}

/// `s` are the outputs that `run` gives, limited to `n`.
pub open spec fn limited<V: ValT, I: Iterator<Item = ValR2<V>>, R: FnOnce() -> I>(
    n: ValR2<V>,
    run: R,
    s: Limit<I, Error<V>>,
) -> bool {
    match n {
        Err(e) => s == Limit::<I, Error<V>>::Failed(Some(e)),
        Ok(n) => match s {
            Limit::Failed(e) => e matches Some(e) && not_int(n, e),
            Limit::Limited(t) => call_ensures(run, (), t.outputs) && limits_to(n, t.left),
        },
    }
}

/// A limit of `n` lets `left` outputs through.
pub open spec fn limits_to<V: ValT>(n: V, left: usize) -> bool {
    exists|i: isize| #[trigger] int_of(n, Some(i)) && left == at_most(i)
}

/// Limits the outputs that `run` gives to the number `n`, which counts as zero if it is negative.
///
/// If the number is an error or no integer, then that error is the only output.
pub fn limit<V: ValT, I: Iterator<Item = ValR2<V>>, R: FnOnce() -> I>(n: ValR2<V>, run: R) -> (s:
    Limit<I, Error<V>>)
    requires
        call_requires(run, ()),
    ensures
        limited(n, run, s),
{
    let n = match n {
        Ok(n) => n,
        Err(e) => {
            return Limit::Failed(Some(e));
        },
    };
    match n.try_as_isize() {
        Ok(i) => {
            assert(int_of(n, Some(i)));
            let left: usize = if i < 0 {
                0
            } else {
                i as usize
            };
            let outputs = run();
            assert(limits_to(n, left));
            Limit::Limited(Take { outputs, left })
        },
        Err(e) => Limit::Failed(Some(e)),
    }
}

impl<V, I: Iterator<Item = ValR2<V>>> Limit<I, Error<V>> {
    /// The next output.
    pub fn next(&mut self) -> (r: Option<ValR2<V>>)
        ensures
            match *old(self) {
                Limit::Failed(o) => {
                    &&& *final(self) == Limit::<I, Error<V>>::Failed(None)
                    &&& match o {
                        Some(e) => r == Some(Err::<V, Error<V>>(e)),
                        None => r is None,
                    }
                },
                Limit::Limited(t) => {
                    &&& *final(self) matches Limit::Limited(u)
                    &&& t.left == 0 ==> r is None && u == t
                    &&& t.left > 0 ==> u.left == t.left - 1 && exists|outputs: &mut I|
                        *outputs == t.outputs && *final(outputs) == u.outputs
                            && #[trigger] call_ensures(I::next, (outputs,), r)
                    &&& u.outputs.obeys_prophetic_iter_laws()
                        == t.outputs.obeys_prophetic_iter_laws()
                    &&& t.outputs.obeys_prophetic_iter_laws() ==> popped(
                        first_of(t.outputs.remaining(), t.left),
                        r,
                        first_of(u.outputs.remaining(), u.left),
                    )
                },
            },
    {
        match self {
            Limit::Failed(e) => match e.take() {
                Some(e) => Some(Err(e)),
                None => None,
            },
            Limit::Limited(t) => t.next(),
        }
    }
}

/// A stream that is limited to one output gives the first one of `all`, if there is one,
/// and then none.
pub proof fn law_first_gives_at_most_one_output<T>(
    all: Seq<T>,
    r: Option<T>,
    rest: Seq<T>,
    s: Option<T>,
    end: Seq<T>,
)
    requires
        popped(first_of(all, 1), r, rest),
        popped(rest, s, end),
    ensures
        r is Some <==> all.len() > 0,
        r is Some ==> r == Some(all[0]),
        s is None,
{
}

/// Passes `x` on after it has been shown by `debug`.
pub fn with_debug<T, D: FnOnce(&T)>(x: T, debug: D) -> (r: T)
    requires
        call_requires(debug, (&x,)),
    ensures
        r == x,
        call_ensures(debug, (&x,), ()),
{
    debug(&x);
    x
}

} // verus!
