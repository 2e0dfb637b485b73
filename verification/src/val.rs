//! Values that filters work on, and the errors that filters raise.

use crate::text::{decimal, to_decimal};
use vstd::prelude::*;
use vstd::std_specs::convert::TryFromSpec;

verus! {

/// Type that a filter expects of a value.
#[derive(Clone, Copy, Debug, PartialEq, Eq, Structural)]
pub enum Type {
    /// an integer
    Int,
    /// a string
    Str,
    /// an array
    Arr,
}

/// Error that a filter raises.
#[derive(Debug)]
pub enum Error<V> {
    /// an error with a value as its payload
    Val(V),
    /// a value that is not of the expected type
    Type(V, Type),
    /// a value that cannot be indexed with another value
    Index(V, V),
}

/// A value or an error.
pub type ValR2<V> = Result<V, Error<V>>;

/// Values that the core library can operate on.
///
/// How a value is compared, added or formatted is not part of this trait.
/// Filters that need it say so by further bounds or take it as a function.
pub trait ValT: Sized + Clone + From<bool> + From<isize> + From<String> {
    /// Convert an array into a sequence.
    ///
    /// This returns the original value as `Err` if it is not an array.
    fn into_seq(self) -> Result<Vec<Self>, Self>;

    /// Use the value as integer.
    fn as_isize(&self) -> Option<isize>;

    /// Use the value as string.
    fn as_str(&self) -> Option<&str>;

    /// Build an array.
    fn from_seq(xs: Vec<Self>) -> Self;

    /// Build a number from its decimal text.
    fn from_num(n: &str) -> ValR2<Self>;
}

/// `i` is the integer that `v` gives of itself, if any.
pub open spec fn int_of<V: ValT>(v: V, i: Option<isize>) -> bool {
    call_ensures(V::as_isize, (&v,), i)
}

/// `s` is the text that `v` gives of itself, if any.
pub open spec fn str_of<V: ValT>(v: V, s: Option<Seq<char>>) -> bool {
    exists|r: Option<&str>| #[trigger]
        call_ensures(V::as_str, (&v,), r) && match r {
            Some(t) => s == Some(t@),
            None => s is None,
        }
}

/// `v` is a truth value made of `b`.
pub open spec fn from_bool<V: ValT>(b: bool, v: V) -> bool {
    call_ensures(<V as From<bool>>::from, (b,), v)
}

/// `v` is an integer made of `i`.
pub open spec fn from_int<V: ValT>(i: isize, v: V) -> bool {
    call_ensures(<V as From<isize>>::from, (i,), v)
}

/// `v` is a string made of `s`.
pub open spec fn from_str<V: ValT>(s: Seq<char>, v: V) -> bool {
    exists|t: String| t@ == s && #[trigger] call_ensures(<V as From<String>>::from, (t,), v)
}

/// `e` says that `v` is not an integer.
pub open spec fn not_int<V: ValT>(v: V, e: Error<V>) -> bool {
    int_of(v, None) && (e matches Error::Type(u, Type::Int) && cloned(v, u))
}

/// `e` says that `v` is not a string.
pub open spec fn not_str<V: ValT>(v: V, e: Error<V>) -> bool {
    str_of(v, None) && (e matches Error::Type(u, Type::Str) && cloned(v, u))
}

/// `e` says that `v` is not an array.
pub open spec fn not_arr<V: ValT>(v: V, e: Error<V>) -> bool {
    e matches Error::Type(u, Type::Arr) && call_ensures(V::into_seq, (v,), Err(u))
}

/// `e` is the error whose payload is the text `s`.
pub open spec fn text_error<V: ValT>(e: Error<V>, s: Seq<char>) -> bool {
    e matches Error::Val(v) && from_str(s, v)
}

impl<V: ValT> Error<V> {
    /// Build an error from a message.
    pub fn str(message: String) -> (e: Self)
        ensures
            text_error(e, message@),
    {
        Error::Val(V::from(message))
    }
}

/// `t` is the text that `d` is displayed as.
pub open spec fn shows<D: core::fmt::Display>(d: D, t: Seq<char>) -> bool {
    exists|s: String| #[trigger]
        vstd::string::to_string_from_display_ensures::<D>(&d, s) && s@ == t
}

/// `w` is what becomes of `v` when its elements `xs` are replaced by those that `f` gives for them.
pub open spec fn arr_mutated<V: ValT, F: FnOnce(Vec<V>) -> Result<Vec<V>, Error<V>>>(
    v: V,
    f: F,
    w: V,
) -> bool {
    exists|xs: Vec<V>, ys: Vec<V>| #[trigger]
        call_ensures(V::into_seq, (v,), Ok(xs)) && call_ensures(f, (xs,), Ok(ys)) && #[trigger]
        call_ensures(V::from_seq, (ys,), w)
}

/// `f` fails with `e` on the elements of `v`.
pub open spec fn arr_failed<V: ValT, F: FnOnce(Vec<V>) -> Result<Vec<V>, Error<V>>>(
    v: V,
    f: F,
    e: Error<V>,
) -> bool {
    exists|xs: Vec<V>| #[trigger]
        call_ensures(V::into_seq, (v,), Ok(xs)) && call_ensures(f, (xs,), Err(e))
}

/// `w` is a string made of what `f` gives for the text of `v`.
pub open spec fn str_mutated<V: ValT, F: FnOnce(&str) -> String>(v: V, f: F, w: V) -> bool {
    exists|s: &str, t: String| #[trigger]
        call_ensures(V::as_str, (&v,), Some(s)) && call_ensures(f, (s,), t) && #[trigger]
        call_ensures(<V as From<String>>::from, (t,), w)
}

/// `r` is what becomes of `v` when it is rounded by `f`: an integer stays as it is.
pub open spec fn rounded<V: ValT, F: FnOnce(&V) -> ValR2<V>>(v: V, f: F, r: ValR2<V>) -> bool {
    exists|i: Option<isize>| #[trigger]
        int_of(v, i) && match i {
            Some(_) => r == Ok::<V, Error<V>>(v),
            None => call_ensures(f, (&v,), r),
        }
}

/// `r` is what becomes of `v` when it is to be an `i32`.
///
/// An integer out of range gives the error of [`i32::try_from`].
pub open spec fn i32_of<V: ValT>(v: V, r: Result<i32, Error<V>>) -> bool {
    exists|o: Option<isize>| #[trigger]
        int_of(v, o) && match o {
            None => r matches Err(e) && not_int(v, e),
            Some(i) => if i32::MIN <= i <= i32::MAX {
                r matches Ok(j) && j == i
            } else {
                r matches Err(e) && shown_error(
                    <i32 as TryFromSpec<isize>>::try_from_spec(i)->Err_0,
                    e,
                )
            },
        }
}

/// `e` is the error whose payload is the text that `d` is displayed as.
pub open spec fn shown_error<V: ValT, D: core::fmt::Display>(d: D, e: Error<V>) -> bool {
    exists|t: Seq<char>| #[trigger] shows(d, t) && text_error(e, t)
}

/// Convenience trait for implementing the core functions.
pub trait ValTx: ValT {
    /// Use as array, else fail.
    fn into_vec(self) -> (r: Result<Vec<Self>, Error<Self>>)
        ensures
            match r {
                Ok(xs) => call_ensures(Self::into_seq, (self,), Ok(xs)),
                Err(e) => not_arr(self, e),
            },
    {
        match self.into_seq() {
            Ok(xs) => Ok(xs),
            Err(v) => Err(Error::Type(v, Type::Arr)),
        }
    }

    /// Use as string, else fail.
    fn try_as_str(&self) -> (r: Result<&str, Error<Self>>)
        ensures
            match r {
                Ok(s) => call_ensures(Self::as_str, (self,), Some(s)) && str_of(*self, Some(s@)),
                Err(e) => not_str(*self, e),
            },
    {
        match self.as_str() {
            Some(s) => Ok(s),
            None => Err(Error::Type(self.clone(), Type::Str)),
        }
    }

    /// Use as integer, else fail.
    fn try_as_isize(&self) -> (r: Result<isize, Error<Self>>)
        ensures
            match r {
                Ok(i) => int_of(*self, Some(i)),
                Err(e) => not_int(*self, e),
            },
    {
        match self.as_isize() {
            Some(i) => Ok(i),
            None => Err(Error::Type(self.clone(), Type::Int)),
        }
    }

    /// Use as an i32 to be given as an argument to a mathematical function.
    fn try_as_i32(&self) -> (r: Result<i32, Error<Self>>)
        ensures
            i32_of(*self, r),
    {
        match self.try_as_isize() {
            Ok(i) => match i32::try_from(i) {
                Ok(j) => Ok(j),
                Err(d) => {
                    let t = d.to_string();
                    assert(shows(d, t@));
                    Err(Error::str(t))
                },
            },
            Err(e) => Err(e),
        }
    }

    /// Apply a function to an array.
    fn mutate_arr<F: FnOnce(Vec<Self>) -> Result<Vec<Self>, Error<Self>>>(self, f: F) -> (r: ValR2<
        Self,
    >)
        requires
            forall|xs: Vec<Self>| #[trigger] call_requires(f, (xs,)),
        ensures
            match r {
                Ok(w) => arr_mutated(self, f, w),
                Err(e) => not_arr(self, e) || arr_failed(self, f, e),
            },
    {
        match self.into_vec() {
            Ok(xs) => match f(xs) {
                Ok(ys) => {
                    let w = Self::from_seq(ys);
                    assert(arr_mutated(self, f, w));
                    Ok(w)
                },
                Err(e) => {
                    assert(arr_failed(self, f, e));
                    Err(e)
                },
            },
            Err(e) => Err(e),
        }
    }

    /// Apply a function to a string.
    fn mutate_str<F: FnOnce(&str) -> String>(self, f: F) -> (r: ValR2<Self>)
        requires
            forall|s: &str| #[trigger] call_requires(f, (s,)),
        ensures
            match r {
                Ok(w) => str_mutated(self, f, w),
                Err(e) => not_str(self, e),
            },
    {
        match self.try_as_str() {
            Ok(s) => {
                let w = Self::from(f(s));
                assert(str_mutated(self, f, w));
                Ok(w)
            },
            Err(e) => Err(e),
        }
    }

    /// Apply a function that rounds numbers, unless the value is an integer already.
    fn round<F: FnOnce(&Self) -> ValR2<Self>>(self, f: F) -> (r: ValR2<Self>)
        requires
            call_requires(f, (&self,)),
        ensures
            rounded(self, f, r),
    {
        let i = self.as_isize();
        assert(int_of(self, i));
        if i.is_some() {
            Ok(self)
        } else {
            f(&self)
        }
    }
}

impl<T: ValT> ValTx for T {

}

/// JSON value.
#[derive(Debug)]
pub enum Val {
    Null,
    Bool(bool),
    /// an integer
    Int(isize),
    /// a floating-point number, by the bits of its IEEE 754 double representation
    Float(u64),
    /// a number that is kept as it was written in decimal
    Num(String),
    Str(String),
    Arr(Vec<Val>),
    /// the entries of an object, in which no key occurs twice
    Obj(Vec<(String, Val)>),
}

/// Whether two values are built alike, from the same leaves.
pub open spec fn alike(a: Val, b: Val) -> bool
    decreases a,
{
    match (a, b) {
        (Val::Null, Val::Null) => true,
        (Val::Bool(x), Val::Bool(y)) => x == y,
        (Val::Int(x), Val::Int(y)) => x == y,
        (Val::Float(x), Val::Float(y)) => x == y,
        (Val::Num(x), Val::Num(y)) => x@ == y@,
        (Val::Str(x), Val::Str(y)) => x@ == y@,
        (Val::Arr(x), Val::Arr(y)) => x@.len() == y@.len() && forall|i: int|
            0 <= i < x@.len() ==> alike(#[trigger] x@[i], y@[i]),
        (Val::Obj(x), Val::Obj(y)) => x@.len() == y@.len() && forall|i: int|
            0 <= i < x@.len() ==> (#[trigger] x@[i]).0@ == y@[i].0@ && alike(x@[i].1, y@[i].1),
        _ => false,
    }
}

/// A value that is built like another one is of the same kind and has the same content:
/// the same leaf, or elements that are built alike, or the same keys with entries
/// that are built alike.
pub proof fn law_alike_has_the_same_content(v: Val, w: Val)
    requires
        alike(v, w),
    ensures
        v is Null <==> w is Null,
        v is Bool ==> w == v,
        v is Int ==> w == v,
        v is Float ==> w == v,
        v is Num ==> w is Num && w->Num_0@ == v->Num_0@,
        v is Str ==> w is Str && w->Str_0@ == v->Str_0@,
        v is Arr ==> w is Arr && w->Arr_0@.len() == v->Arr_0@.len(),
        v is Arr ==> forall|i: int|
            0 <= i < v->Arr_0@.len() ==> alike(#[trigger] v->Arr_0@[i], w->Arr_0@[i]),
        v is Obj ==> w is Obj && w->Obj_0@.len() == v->Obj_0@.len(),
        v is Obj ==> forall|i: int|
            0 <= i < v->Obj_0@.len() ==> (#[trigger] v->Obj_0@[i]).0@ == w->Obj_0@[i].0@ && alike(
                v->Obj_0@[i].1,
                w->Obj_0@[i].1,
            ),
{
}

/// Whether no object in a value has a key twice.
pub open spec fn well_formed(v: Val) -> bool
    decreases v,
{
    match v {
        Val::Arr(a) => forall|i: int| 0 <= i < a@.len() ==> well_formed(#[trigger] a@[i]),
        Val::Obj(o) => {
            &&& forall|i: int| 0 <= i < o@.len() ==> well_formed((#[trigger] o@[i]).1)
            &&& forall|i: int, j: int|
                0 <= i < j < o@.len() ==> (#[trigger] o@[i]).0@ != (#[trigger] o@[j]).0@
        },
        _ => true,
    }
}

/// Values that are built alike are well-formed alike.
pub proof fn law_alike_keeps_well_formed(v: Val, w: Val)
    requires
        alike(v, w),
        well_formed(v),
    ensures
        well_formed(w),
    decreases v,
{
    match (v, w) {
        (Val::Arr(a), Val::Arr(b)) => {
            assert forall|i: int| 0 <= i < b@.len() implies well_formed(#[trigger] b@[i]) by {
                assert(alike(a@[i], b@[i]));
                law_alike_keeps_well_formed(a@[i], b@[i]);
            }
        },
        (Val::Obj(o), Val::Obj(p)) => {
            assert forall|i: int| 0 <= i < p@.len() implies well_formed((#[trigger] p@[i]).1) by {
                assert(o@[i].0@ == p@[i].0@);
                assert(decreases_to!(v => o@[i]));
                law_alike_keeps_well_formed(o@[i].1, p@[i].1);
            }
            assert forall|i: int, j: int| 0 <= i < j < p@.len() implies (#[trigger] p@[i]).0@ != (
            #[trigger] p@[j]).0@ by {
                assert(o@[i].0@ != o@[j].0@);
            }
        },
        _ => {},
    }
}

impl Clone for Val {
    fn clone(&self) -> (r: Self)
        ensures
            alike(*self, r),
            well_formed(*self) ==> well_formed(r),
        decreases *self,
    {
        let r = match self {
            Val::Null => Val::Null,
            Val::Bool(b) => Val::Bool(*b),
            Val::Int(i) => Val::Int(*i),
            Val::Float(f) => Val::Float(*f),
            Val::Num(n) => Val::Num(n.clone()),
            Val::Str(s) => Val::Str(s.clone()),
            Val::Arr(a) => Val::Arr(clone_elements(a)),
            Val::Obj(o) => Val::Obj(clone_entries(o)),
        };
        proof {
            if well_formed(*self) {
                law_alike_keeps_well_formed(*self, r);
            }
        }
        r
    }
}

fn clone_elements(a: &Vec<Val>) -> (b: Vec<Val>)
    ensures
        b@.len() == a@.len(),
        forall|i: int| 0 <= i < a@.len() ==> alike(#[trigger] a@[i], b@[i]),
    decreases *a,
{
    let mut b: Vec<Val> = Vec::with_capacity(a.len());
    for i in 0..a.len()
        invariant
            b@.len() == i,
            forall|j: int| 0 <= j < i ==> alike(#[trigger] a@[j], b@[j]),
    {
        b.push(a[i].clone());
    }
    b
}

fn clone_entries(o: &Vec<(String, Val)>) -> (p: Vec<(String, Val)>)
    ensures
        p@.len() == o@.len(),
        forall|i: int| 0 <= i < o@.len() ==> (#[trigger] o@[i]).0@ == p@[i].0@,
        forall|i: int| 0 <= i < o@.len() ==> alike((#[trigger] o@[i]).1, p@[i].1),
    decreases *o,
{
    let mut p: Vec<(String, Val)> = Vec::with_capacity(o.len());
    for i in 0..o.len()
        invariant
            p@.len() == i,
            forall|j: int| 0 <= j < i ==> (#[trigger] o@[j]).0@ == p@[j].0@,
            forall|j: int| 0 <= j < i ==> alike((#[trigger] o@[j]).1, p@[j].1),
    {
        let (k, v) = &o[i];
        assert(decreases_to!(*o => o@[i as int]));
        let w = v.clone();
        assert(alike(o@[i as int].1, w));
        p.push((k.clone(), w));
    }
    p
}

impl From<bool> for Val {
    fn from(b: bool) -> (v: Self) {
        Val::Bool(b)
    }
}

impl vstd::std_specs::convert::FromSpecImpl<bool> for Val {
    open spec fn obeys_from_spec() -> bool {
        true
    }

    open spec fn from_spec(b: bool) -> Self {
        Val::Bool(b)
    }
}

impl From<isize> for Val {
    fn from(i: isize) -> (v: Self) {
        Val::Int(i)
    }
}

impl vstd::std_specs::convert::FromSpecImpl<isize> for Val {
    open spec fn obeys_from_spec() -> bool {
        true
    }

    open spec fn from_spec(i: isize) -> Self {
        Val::Int(i)
    }
}

impl From<String> for Val {
    fn from(s: String) -> (v: Self) {
        Val::Str(s)
    }
}

impl vstd::std_specs::convert::FromSpecImpl<String> for Val {
    open spec fn obeys_from_spec() -> bool {
        true
    }

    open spec fn from_spec(s: String) -> Self {
        Val::Str(s)
    }
}

impl ValT for Val {
    fn into_seq(self) -> (r: Result<Vec<Self>, Self>)
        ensures
            match self {
                Val::Arr(a) => r == Ok::<Vec<Val>, Val>(a),
                v => r == Err::<Vec<Val>, Val>(v),
            },
    {
        match self {
            Val::Arr(a) => Ok(a),
            v => Err(v),
        }
    }

    fn as_isize(&self) -> (r: Option<isize>)
        ensures
            r == match *self {
                Val::Int(i) => Some(i),
                _ => None,
            },
    {
        match self {
            Val::Int(i) => Some(*i),
            _ => None,
        }
    }

    fn as_str(&self) -> (r: Option<&str>)
        ensures
            match *self {
                Val::Str(s) => r matches Some(t) && t@ == s@,
                _ => r is None,
            },
    {
        match self {
            Val::Str(s) => Some(s.as_str()),
            _ => None,
        }
    }

    fn from_seq(xs: Vec<Self>) -> (v: Self)
        ensures
            v == Val::Arr(xs),
    {
        Val::Arr(xs)
    }

    fn from_num(n: &str) -> (r: ValR2<Self>)
        ensures
            r matches Ok(Val::Num(t)) && t@ == n@,
    {
        Ok(Val::Num(n.to_owned()))
    }
}

/// Clears the sign of the double with the given bits.
pub open spec fn abs_bits(bits: u64) -> u64 {
    if bits >= 0x8000_0000_0000_0000 {
        (bits - 0x8000_0000_0000_0000) as u64
    } else {
        bits
    }
}

/// The number of elements or characters of `v`, if it has such a number.
pub open spec fn count(v: Val) -> Option<nat> {
    match v {
        Val::Str(s) => Some(s@.len()),
        Val::Arr(a) => Some(a@.len()),
        Val::Obj(o) => Some(o@.len()),
        _ => None,
    }
}

/// `r` is the length of `v`, if decimal numbers are read by `from_dec_str`.
pub open spec fn length_is<D: FnOnce(&str) -> Option<u64>>(
    v: Val,
    from_dec_str: D,
    r: ValR2<Val>,
) -> bool {
    match v {
        Val::Null => r == Ok::<Val, Error<Val>>(Val::Int(0)),
        Val::Bool(b) => r matches Err(e) && text_error(
            e,
            (if b { "true"@ } else { "false"@ }) + " has no length"@,
        ),
        Val::Int(i) => if i == isize::MIN {
            r matches Ok(Val::Num(n)) && n@ == decimal((-i) as nat)
        } else {
            r matches Ok(Val::Int(j)) && j == if i < 0 { -i } else { i as int }
        },
        Val::Float(f) => r == Ok::<Val, Error<Val>>(Val::Float(abs_bits(f))),
        Val::Num(n) => exists|s: &str, d: Option<u64>|
            s@ == n@ && #[trigger] from_dec_str.ensures((s,), d) && r == Ok::<Val, Error<Val>>(
                match d {
                    Some(f) => Val::Float(abs_bits(f)),
                    None => Val::Int(0),
                },
            ),
        _ => r matches Ok(Val::Int(n)) && n == count(v)->0 as usize as isize,
    }
}

/// Return 0 for null, the absolute value for numbers, and
/// the length for strings, arrays, and objects.
///
/// Fail on booleans.
///
/// The absolute value of the least integer is no integer, so it is given as a decimal number.
///
/// A decimal number counts as the double that `from_dec_str` reads its text as,
/// or as null if it reads it as none.
pub fn length<D: FnOnce(&str) -> Option<u64>>(v: &Val, from_dec_str: D) -> (r: ValR2<Val>)
    requires
        forall|s: &str| #[trigger] from_dec_str.requires((s,)),
    ensures
        length_is(*v, from_dec_str, r),
{
    match v {
        Val::Null => Ok(Val::Int(0)),
        Val::Bool(b) => {
            let shown = if *b {
                "true"
            } else {
                "false"
            };
            Err(Error::str(shown.to_owned().concat(" has no length")))
        },
        Val::Int(i) => Ok(
            if *i == isize::MIN {
                Val::Num(to_decimal(-(*i as i128) as u64))
            } else if *i < 0 {
                Val::Int(-*i)
            } else {
                Val::Int(*i)
            },
        ),
        Val::Float(f) => Ok(Val::Float(clear_sign(*f))),
        Val::Num(n) => match from_dec_str(n.as_str()) {
            Some(f) => Ok(Val::Float(clear_sign(f))),
            None => Ok(Val::Int(0)),
        },
        Val::Str(s) => Ok(Val::Int(s.as_str().unicode_len() as isize)),
        Val::Arr(a) => Ok(Val::Int(a.len() as isize)),
        Val::Obj(o) => Ok(Val::Int(o.len() as isize)),
    }
}

/// Clears the sign of the double with the given bits.
fn clear_sign(bits: u64) -> (r: u64)
    ensures
        r == abs_bits(bits),
{
    if bits >= 0x8000_0000_0000_0000 {
        bits - 0x8000_0000_0000_0000
    } else {
        bits
    }
}

/// An integer is itself as an `i32` if it lies in the range of one, and an error otherwise.
pub proof fn law_i32_keeps_the_number<V: ValT>(v: V, i: isize, r: Result<i32, Error<V>>)
    requires
        forall|o: Option<isize>| #[trigger]
            call_ensures(V::as_isize, (&v,), o) ==> o == Some(i),
        i32_of(v, r),
    ensures
        r is Ok <==> -0x8000_0000 <= i < 0x8000_0000,
        r is Ok ==> r->Ok_0 as int == i,
        r is Err ==> r->Err_0 is Val,
{
    let o = choose|o: Option<isize>| #[trigger]
        int_of(v, o) && match o {
            None => r matches Err(e) && not_int(v, e),
            Some(i) => if i32::MIN <= i <= i32::MAX {
                r matches Ok(j) && j == i
            } else {
                r matches Err(e) && shown_error(
                    <i32 as TryFromSpec<isize>>::try_from_spec(i)->Err_0,
                    e,
                )
            },
        };
    assert(call_ensures(V::as_isize, (&v,), o));
    if r is Err {
        let t = choose|t: Seq<char>| #[trigger]
            shows(<i32 as TryFromSpec<isize>>::try_from_spec(i)->Err_0, t) && text_error(
                r->Err_0,
                t,
            );
        assert(text_error(r->Err_0, t));
    }
}

} // verus!
