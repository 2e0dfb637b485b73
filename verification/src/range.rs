//! Streams of values at equal distances.

use crate::order::{compare, lemma_rank_of_integers, rank, totally_ordered, Rank};
use crate::val::{from_int, Error, ValR2, ValT};
use vstd::prelude::*;

verus! {

/// A stream of values at equal distances.
pub struct Range<V, E, P> {
    /// the next value or error, unless an error has come
    pub from: Option<Result<V, E>>,
    /// the value at which the stream ends
    pub to: V,
    /// the distance between values
    pub by: V,
    /// how the distance compares to zero
    pub direction: Rank,
    /// how values are added
    pub plus: P,
}

/// Whether `x` comes out on the way to `to`.
pub open spec fn goes_on<V: Ord>(direction: Rank, x: V, to: V) -> bool {
    match direction {
        Rank::Greater => rank(x, to) == Rank::Less,
        Rank::Less => rank(x, to) == Rank::Greater,
        Rank::Equal => rank(x, to) != Rank::Equal,
    }
}

/// The stream `s` gives the output `r` and becomes `t`.
pub open spec fn range_step<V: Ord, E, P: Fn(&V, &V) -> Result<V, E>>(
    s: Range<V, E, P>,
    r: Option<Result<V, E>>,
    t: Range<V, E, P>,
) -> bool {
    &&& t == (Range { from: t.from, ..s })
    &&& match s.from {
        None => r is None && t.from is None,
        // nothing comes after the error
        Some(Err(e)) => r == Some(Err::<V, E>(e)) && t.from is None,
        Some(Ok(x)) => {
            &&& totally_ordered::<V>() ==> (r is Some <==> goes_on(s.direction, x, s.to))
            &&& match r {
                Some(y) => y == Ok::<V, E>(x) && (t.from matches Some(next) && call_ensures(
                    s.plus,
                    (&x, &s.by),
                    next,
                )),
                None => t.from == s.from,
            }
        },
    }
}

impl<V: Ord, E, P: Fn(&V, &V) -> Result<V, E>> Range<V, E, P> {
    /// The next output.
    pub fn next(&mut self) -> (r: Option<Result<V, E>>)
        requires
            forall|x: &V, y: &V| #[trigger] call_requires(old(self).plus, (x, y)),
        ensures
            range_step(*old(self), r, *final(self)),
    {
        match self.from.take() {
            None => None,
            Some(Err(e)) => Some(Err(e)),
            Some(Ok(x)) => {
                let more = match (self.direction, compare(&x, &self.to)) {
                    (Rank::Greater, Rank::Less) => true,
                    (Rank::Less, Rank::Greater) => true,
                    (Rank::Equal, Rank::Less) => true,
                    (Rank::Equal, Rank::Greater) => true,
                    _ => false,
                };
                if more {
                    self.from = Some((self.plus)(&x, &self.by));
                    Some(Ok(x))
                } else {
                    self.from = Some(Ok(x));
                    None
                }
            },
        }
    }
}

/// `s` is the stream from `from` to `to` by `by`, which has yet to give an output.
pub open spec fn range_starts<V: ValT + Ord, E, P>(
    from: Result<V, E>,
    to: V,
    by: V,
    plus: P,
    s: Range<V, E, P>,
) -> bool {
    &&& s == (Range { from: Some(from), to, by, direction: s.direction, plus })
    &&& exists|zero: V| #[trigger]
        from_int(0, zero) && (totally_ordered::<V>() ==> s.direction == rank(by, zero))
}

/// A stream of the values that start at `from`, each by `by` after the one before, up to `to`:
///
/// ~~~ text
/// def range($from; $to; $by): $from |
///    if $by > 0 then while(.  < $to; . + $by)
///  elif $by < 0 then while(.  > $to; . + $by)
///    else            while(. != $to; . + $by)
///    end;
/// ~~~
///
/// Values are added by `plus`.
pub fn range<V: ValT + Ord, P: Fn(&V, &V) -> ValR2<V>>(
    from: ValR2<V>,
    to: V,
    by: V,
    plus: P,
) -> (s: Range<V, Error<V>, P>)
    ensures
        range_starts(from, to, by, plus, s),
{
    let zero = V::from(0isize);
    assert(from_int(0, zero));
    let direction = compare(&by, &zero);
    Range { from: Some(from), to, by, direction, plus }
}

/// The stream for arguments each of which may be an error.
///
/// If the end or the distance is an error, then that error is the only output.
pub fn range_of<V: ValT + Ord, P: Fn(&V, &V) -> ValR2<V>>(
    from: ValR2<V>,
    to: ValR2<V>,
    by: ValR2<V>,
    plus: P,
) -> (r: Result<Range<V, Error<V>, P>, Error<V>>)
    ensures
        match (to, by) {
            (Err(e), _) => r == Err::<Range<V, Error<V>, P>, Error<V>>(e),
            (Ok(_), Err(e)) => r == Err::<Range<V, Error<V>, P>, Error<V>>(e),
            (Ok(to), Ok(by)) => r matches Ok(s) && range_starts(from, to, by, plus, s),
        },
{
    let to = match to {
        Ok(to) => to,
        Err(e) => {
            return Err(e);
        },
    };
    match by {
        Ok(by) => Ok(range(from, to, by, plus)),
        Err(e) => Err(e),
    }
}

/// `rs` are the outputs that a stream gives one after the other
/// as it goes through the states `ss`.
pub open spec fn range_runs<V: Ord, E, P: Fn(&V, &V) -> Result<V, E>>(
    ss: Seq<Range<V, E, P>>,
    rs: Seq<Option<Result<V, E>>>,
) -> bool {
    &&& ss.len() == rs.len() + 1
    &&& forall|k: int| 0 <= k < rs.len() ==> range_step(#[trigger] ss[k], rs[k], ss[k + 1])
}

/// Once a stream has given an error or no output, it gives no output any more.
pub proof fn law_range_stays_at_its_end<V: Ord, E, P: Fn(&V, &V) -> Result<V, E>>(
    ss: Seq<Range<V, E, P>>,
    rs: Seq<Option<Result<V, E>>>,
    i: int,
    k: int,
)
    requires
        totally_ordered::<V>(),
        range_runs(ss, rs),
        0 <= i < k < rs.len(),
        !(rs[i] matches Some(Ok(_))),
    ensures
        rs[k] is None,
    decreases k - i,
{
    assert(range_step(ss[i], rs[i], ss[i + 1]));
    assert(range_step(ss[k], rs[k], ss[k + 1]));
    if i + 1 < k {
        assert(range_step(ss[i + 1], rs[i + 1], ss[i + 2]));
        law_range_stays_at_its_end(ss, rs, i + 1, k);
    }
}

/// Every output of a stream but the first one is what adding the distance to the one before gives.
pub proof fn law_range_adds_the_distance<V: Ord, E, P: Fn(&V, &V) -> Result<V, E>>(
    ss: Seq<Range<V, E, P>>,
    rs: Seq<Option<Result<V, E>>>,
    k: int,
)
    requires
        totally_ordered::<V>(),
        range_runs(ss, rs),
        0 <= k < rs.len() - 1,
        rs[k + 1] is Some,
    ensures
        rs[k] matches Some(Ok(x)) && call_ensures(ss[0].plus, (&x, &ss[0].by), rs[k + 1]->0),
{
    lemma_range_keeps(ss, rs, k);
    assert(range_step(ss[k], rs[k], ss[k + 1]));
    assert(range_step(ss[k + 1], rs[k + 1], ss[k + 2]));
    if !(rs[k] matches Some(Ok(_))) {
        law_range_stays_at_its_end(ss, rs, k, k + 1);
    }
}

proof fn lemma_range_keeps<V: Ord, E, P: Fn(&V, &V) -> Result<V, E>>(
    ss: Seq<Range<V, E, P>>,
    rs: Seq<Option<Result<V, E>>>,
    k: int,
)
    requires
        range_runs(ss, rs),
        0 <= k <= rs.len(),
    ensures
        ss[k] == (Range { from: ss[k].from, ..ss[0] }),
    decreases k,
{
    if k > 0 {
        lemma_range_keeps(ss, rs, k - 1);
        assert(range_step(ss[k - 1], rs[k - 1], ss[k]));
    }
}

/// A stream of integers counts: its outputs are `from + k * by` for those `k` from 0
/// for which this lies before `to`.
pub proof fn law_range_counts<E, P: Fn(&isize, &isize) -> Result<isize, E>>(
    ss: Seq<Range<isize, E, P>>,
    rs: Seq<Option<Result<isize, E>>>,
    from: isize,
    k: int,
)
    requires
        range_runs(ss, rs),
        0 <= k < rs.len(),
        ss[0].from == Some(Ok::<isize, E>(from)),
        ss[0].by != 0,
        ss[0].direction == rank(ss[0].by, 0),
        isize::MIN <= ss[0].to + ss[0].by <= isize::MAX,
        forall|a: isize, b: isize, r: Result<isize, E>| #[trigger]
            call_ensures(ss[0].plus, (&a, &b), r) && isize::MIN <= a + b <= isize::MAX
                ==> (r matches Ok(c) && c == a + b),
    ensures
        ({
            let (to, by) = (ss[0].to, ss[0].by);
            let x = from + k * by;
            if (by > 0 && x < to) || (by < 0 && x > to) {
                rs[k] matches Some(Ok(y)) && y == x
            } else {
                rs[k] is None
            }
        }),
    decreases k,
{
    let (to, by) = (ss[0].to, ss[0].by);
    lemma_rank_of_integers();
    lemma_range_keeps(ss, rs, k);
    assert(range_step(ss[k], rs[k], ss[k + 1]));
    if k > 0 {
        law_range_counts(ss, rs, from, k - 1);
        assert(range_step(ss[k - 1], rs[k - 1], ss[k]));
        lemma_range_keeps(ss, rs, k - 1);
        assert((k - 1) * by + by == k * by) by (nonlinear_arith);
        if rs[k - 1] is None {
            law_range_stays_at_its_end(ss, rs, k - 1, k);
        }
    } else {
        assert(k * by == 0) by (nonlinear_arith)
            requires
                k == 0,
        ;
    }
}

/// Whether `x` comes out on the way to `to`: below it if the distance is greater than zero,
/// above it if the distance is less than zero, and anywhere but at it if the distance is zero.
pub open spec fn on_the_way<V: Ord>(by: V, zero: V, x: V, to: V) -> bool {
    if rank(by, zero) == Rank::Greater {
        rank(x, to) == Rank::Less
    } else if rank(by, zero) == Rank::Less {
        rank(x, to) == Rank::Greater
    } else {
        rank(x, to) == Rank::Less || rank(x, to) == Rank::Greater
    }
}

/// `r` is the output for the candidate `next`: an error, or a value on the way, or none.
pub open spec fn comes_out<V: Ord, E>(
    by: V,
    zero: V,
    to: V,
    next: Result<V, E>,
    r: Option<Result<V, E>>,
) -> bool {
    match next {
        Ok(x) => r == if on_the_way(by, zero, x, to) {
            Some(Ok::<V, E>(x))
        } else {
            None
        },
        Err(e) => r == Some(Err::<V, E>(e)),
    }
}

/// The outputs `rs` are those of a range, up to the position `k`: the first one is for `from`,
/// each later one is for the sum of the one before and the distance,
/// and nothing comes after an error or after there was no output.
pub open spec fn outputs_of_range<V: Ord, E, P: Fn(&V, &V) -> Result<V, E>>(
    from: Result<V, E>,
    to: V,
    by: V,
    plus: P,
    zero: V,
    rs: Seq<Option<Result<V, E>>>,
    k: int,
) -> bool {
    if k == 0 {
        comes_out(by, zero, to, from, rs[0])
    } else {
        match rs[k - 1] {
            Some(Ok(x)) => exists|next: Result<V, E>| #[trigger]
                call_ensures(plus, (&x, &by), next) && comes_out(by, zero, to, next, rs[k]),
            _ => rs[k] is None,
        }
    }
}

/// A range gives what its definition in terms of `while` says.
pub proof fn law_range_follows_its_definition<V: ValT + Ord, P: Fn(&V, &V) -> ValR2<V>>(
    from: ValR2<V>,
    to: V,
    by: V,
    plus: P,
    ss: Seq<Range<V, Error<V>, P>>,
    rs: Seq<Option<ValR2<V>>>,
)
    requires
        totally_ordered::<V>(),
        ss.len() > 0,
        range_starts(from, to, by, plus, ss[0]),
        range_runs(ss, rs),
    ensures
        exists|zero: V| #[trigger]
            call_ensures(<V as From<isize>>::from, (0isize,), zero) && forall|k: int|
                0 <= k < rs.len() ==> #[trigger] outputs_of_range(
                    from,
                    to,
                    by,
                    plus,
                    zero,
                    rs,
                    k,
                ),
{
    let zero = choose|zero: V| #[trigger]
        from_int(0, zero) && ss[0].direction == rank(by, zero);
    assert(call_ensures(<V as From<isize>>::from, (0isize,), zero));
    assert forall|k: int| 0 <= k < rs.len() implies #[trigger] outputs_of_range(
        from,
        to,
        by,
        plus,
        zero,
        rs,
        k,
    ) by {
        lemma_range_keeps(ss, rs, k);
        assert(range_step(ss[k], rs[k], ss[k + 1]));
        if k > 0 {
            lemma_range_keeps(ss, rs, k - 1);
            assert(range_step(ss[k - 1], rs[k - 1], ss[k]));
            if !(rs[k - 1] matches Some(Ok(_))) {
                law_range_stays_at_its_end(ss, rs, k - 1, k);
            } else {
                let next = ss[k].from->0;
                assert(call_ensures(plus, (&rs[k - 1]->0->Ok_0, &by), next));
                assert(comes_out(by, zero, to, next, rs[k]));
            }
        }
    }
}

/// A range from an integer to an integer by an integer gives `a + k * b` for those `k` from 0
/// for which this lies on the way to `c`, and nothing else.
///
/// The values that are integers are those for which `num` gives a number.
pub proof fn law_range_counts_from_its_start<V: ValT + Ord, P: Fn(&V, &V) -> ValR2<V>>(
    from: V,
    to: V,
    by: V,
    plus: P,
    num: spec_fn(V) -> Option<int>,
    ss: Seq<Range<V, Error<V>, P>>,
    rs: Seq<Option<ValR2<V>>>,
    k: int,
)
    requires
        totally_ordered::<V>(),
        forall|x: V, y: V|
            num(x) is Some && num(y) is Some ==> #[trigger] rank(x, y) == (if num(x)->0 < num(
                y,
            )->0 {
                Rank::Less
            } else if num(x)->0 == num(y)->0 {
                Rank::Equal
            } else {
                Rank::Greater
            }),
        forall|i: isize, z: V| #[trigger]
            call_ensures(<V as From<isize>>::from, (i,), z) ==> num(z) == Some(i as int),
        forall|x: V, y: V, r: ValR2<V>| #[trigger]
            call_ensures(plus, (&x, &y), r) && num(x) is Some && num(y) is Some && isize::MIN
                <= num(x)->0 + num(y)->0 <= isize::MAX ==> (r matches Ok(z) && num(z) == Some(
                num(x)->0 + num(y)->0,
            )),
        num(from) is Some,
        num(to) is Some,
        num(by) is Some,
        isize::MIN <= num(from)->0 <= isize::MAX,
        isize::MIN <= num(to)->0 <= isize::MAX,
        isize::MIN <= num(to)->0 + num(by)->0 <= isize::MAX,
        range_starts(Ok(from), to, by, plus, ss[0]),
        range_runs(ss, rs),
        0 <= k < rs.len(),
    ensures
        ({
            let (a, b, c) = (num(from)->0, num(by)->0, num(to)->0);
            let x = a + k * b;
            if (b > 0 && x < c) || (b < 0 && x > c) || (b == 0 && a != c) {
                rs[k] matches Some(Ok(y)) && num(y) == Some(x)
            } else {
                rs[k] is None
            }
        }),
    decreases k,
{
    let (a, b, c) = (num(from)->0, num(by)->0, num(to)->0);
    law_range_follows_its_definition(Ok(from), to, by, plus, ss, rs);
    let zero = choose|zero: V| #[trigger]
        call_ensures(<V as From<isize>>::from, (0isize,), zero) && forall|k: int|
            0 <= k < rs.len() ==> #[trigger] outputs_of_range(
                Ok(from),
                to,
                by,
                plus,
                zero,
                rs,
                k,
            );
    assert(outputs_of_range(Ok(from), to, by, plus, zero, rs, k));
    if k > 0 {
        law_range_counts_from_its_start(from, to, by, plus, num, ss, rs, k - 1);
        assert((k - 1) * b + b == k * b) by (nonlinear_arith);
        assert(b == 0 ==> k * b == 0 && (k - 1) * b == 0) by (nonlinear_arith);
        assert(k * b == b * k && (k - 1) * b == b * (k - 1)) by (nonlinear_arith);
        if b > 0 {
            assert((k - 1) * b >= 0) by (nonlinear_arith)
                requires
                    k > 0,
                    b > 0,
            ;
        }
        if b < 0 {
            assert((k - 1) * b <= 0) by (nonlinear_arith)
                requires
                    k > 0,
                    b < 0,
            ;
        }
    } else {
        assert(k * b == 0) by (nonlinear_arith)
            requires
                k == 0,
        ;
    }
}

} // verus!
