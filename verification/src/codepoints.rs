//! Strings as arrays of Unicode code points.

use crate::text::{decimal, to_decimal};
use crate::val::{
    from_int, int_of, not_int, shown_error, shows, text_error, Error, Val, ValT, ValTx,
};
use vstd::prelude::*;
use vstd::std_specs::convert::TryFromSpec;
use vstd::string::StringExecFns;

verus! {

/// Whether there is a character with the code point `i`.
pub open spec fn is_scalar(i: int) -> bool {
    0 <= i < 0xd800 || 0xe000 <= i <= 0x10ffff
}

/// [`char::from_u32`] gives the character with the code point `u`, if there is one.
pub assume_specification[ char::from_u32 ](u: u32) -> (c: Option<char>)
    ensures
        match c {
            Some(c) => is_scalar(u as int) && c as u32 == u,
            None => !is_scalar(u as int),
        },
;

/// `xs` are the code points of `s`, as values.
pub open spec fn exploded<V: ValT>(s: Seq<char>, xs: Seq<V>) -> bool {
    &&& xs.len() == s.len()
    &&& forall|i: int| 0 <= i < s.len() ==> from_int(s[i] as u32 as isize, #[trigger] xs[i])
}

/// Convert a string into an array of its Unicode codepoints.
pub fn explode<V: ValT>(s: &str) -> (xs: Vec<V>)
    ensures
        exploded(s@, xs@),
{
    let mut xs: Vec<V> = Vec::new();
    for c in it: s.chars()
        invariant
            it.seq() == s@,
            xs@.len() == it.index(),
            forall|i: int| 0 <= i < it.index() ==> from_int(s@[i] as u32 as isize, #[trigger] xs@[i]),
    {
        xs.push(V::from(c as u32 as isize));
    }
    xs
}

/// `r` is the character whose code point `v` is, or the error if there is none.
///
/// An integer out of the range of `u32` gives the error of [`u32::try_from`].
pub open spec fn codepoint<V: ValT>(v: V, r: Result<char, Error<V>>) -> bool {
    exists|o: Option<isize>| #[trigger]
        int_of(v, o) && match o {
            None => r matches Err(e) && not_int(v, e),
            Some(i) => if !(0 <= i <= u32::MAX) {
                r matches Err(e) && shown_error(
                    <u32 as TryFromSpec<isize>>::try_from_spec(i)->Err_0,
                    e,
                )
            } else if is_scalar(i as int) {
                r matches Ok(c) && c as u32 == i
            } else {
                r matches Err(e) && text_error(e, no_character(i as nat))
            },
        }
}

/// The text of the error for a number that is no character's code point.
pub open spec fn no_character(u: nat) -> Seq<char> {
    "cannot use "@ + decimal(u) + " as character"@
}

/// If the value is an integer representing a valid Unicode codepoint, return it, else fail.
pub fn as_codepoint<V: ValT>(v: &V) -> (r: Result<char, Error<V>>)
    ensures
        codepoint(*v, r),
{
    let i = match v.try_as_isize() {
        Ok(i) => i,
        Err(e) => {
            return Err(e);
        },
    };
    assert(int_of(*v, Some(i)));
    match u32::try_from(i) {
        Ok(u) => match char::from_u32(u) {
            Some(c) => Ok(c),
            None => {
                let text = to_decimal(u as u64);
                Err(Error::str("cannot use ".to_owned().concat(text.as_str()).concat(" as character")))
            },
        },
        Err(d) => {
            let t = d.to_string();
            assert(shows(d, t@));
            Err(Error::str(t))
        },
    }
}

/// The characters of `s` are those whose code points `xs` are.
pub open spec fn imploded<V: ValT>(xs: Seq<V>, s: Seq<char>) -> bool {
    &&& s.len() == xs.len()
    &&& forall|i: int| 0 <= i < xs.len() ==> codepoint(#[trigger] xs[i], Ok(s[i]))
}

/// `e` is the error of the first one of `xs` that is no character's code point.
pub open spec fn implode_failed<V: ValT>(xs: Seq<V>, e: Error<V>) -> bool {
    exists|s: Seq<char>|
        s.len() < xs.len() && #[trigger] imploded(xs.take(s.len() as int), s) && codepoint(
            xs[s.len() as int],
            Err(e),
        )
}

/// Convert an array of Unicode codepoints into a string.
pub fn implode<V: ValT>(xs: &Vec<V>) -> (r: Result<String, Error<V>>)
    ensures
        match r {
            Ok(s) => imploded(xs@, s@),
            Err(e) => implode_failed(xs@, e),
        },
{
    let mut s = String::new();
    for i in 0..xs.len()
        invariant
            imploded(xs@.take(i as int), s@),
    {
        match as_codepoint(&xs[i]) {
            Ok(c) => {
                s.push(c);
            },
            Err(e) => {
                assert(imploded(xs@.take(s@.len() as int), s@));
                assert(codepoint(xs@[s@.len() as int], Err(e)));
                assert(implode_failed(xs@, e));
                return Err(e);
            },
        }
    }
    assert(xs@.take(xs@.len() as int) =~= xs@);
    Ok(s)
}

/// Imploding what a string explodes to gives the string back.
pub proof fn law_implode_inverts_explode(
    s: Seq<char>,
    xs: Seq<Val>,
    r: Result<Seq<char>, Error<Val>>,
)
    requires
        exploded(s, xs),
        match r {
            Ok(t) => imploded(xs, t),
            Err(e) => implode_failed(xs, e),
        },
    ensures
        r == Ok::<Seq<char>, Error<Val>>(s),
{
    broadcast use vstd::utf8::char_is_scalar;

    assert(0x10ffff <= isize::MAX);
    assert forall|i: int| 0 <= i < xs.len() implies (#[trigger] xs[i]) == Val::Int(
        s[i] as u32 as isize,
    ) by {
        assert(from_int(s[i] as u32 as isize, xs[i]));
    }
    match r {
        Ok(t) => {
            assert forall|i: int| 0 <= i < s.len() implies t[i] == s[i] by {
                assert(xs[i] == Val::Int(s[i] as u32 as isize));
                assert(codepoint(xs[i], Ok(t[i])));
                vstd::utf8::char_u32_cast(s[i], s[i] as u32);
                vstd::utf8::char_u32_cast(t[i], s[i] as u32);
            }
            assert(t =~= s);
        },
        Err(e) => {
            let t = choose|t: Seq<char>|
                t.len() < xs.len() && #[trigger] imploded(xs.take(t.len() as int), t) && codepoint(
                    xs[t.len() as int],
                    Err(e),
                );
            let c = s[t.len() as int];
            assert(xs[t.len() as int] == Val::Int(c as u32 as isize));
            vstd::utf8::char_is_scalar(c);
        },
    }
}

/// Exploding what an array implodes to gives the array back.
pub proof fn law_explode_inverts_implode(xs: Seq<Val>, s: Seq<char>, ys: Seq<Val>)
    requires
        imploded(xs, s),
        exploded(s, ys),
    ensures
        ys == xs,
{
    assert forall|i: int| 0 <= i < xs.len() implies xs[i] == ys[i] by {
        assert(codepoint(xs[i], Ok(s[i])));
        assert(from_int(s[i] as u32 as isize, ys[i]));
    }
    assert(ys =~= xs);
}

} // verus!
