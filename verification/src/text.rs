//! Functions on text.

use vstd::prelude::*;
use vstd::string::{StringExecFns, StringSliceAdditionalSpecFns};
use vstd::utf8::{encode_scalar, encode_utf8, is_char_boundary};

verus! {

/// [`String::push`] puts the character behind those that the string holds.
pub assume_specification[ String::push ](s: &mut String, c: char)
    ensures
        final(s)@ == old(s)@.push(c),
;

/// The characters of `s`.
pub fn to_chars(s: &str) -> (cs: Vec<char>)
    ensures
        cs@ == s@,
{
    let mut cs: Vec<char> = Vec::new();
    for c in it: s.chars()
        invariant
            it.seq() == s@,
            cs@ == s@.take(it.index()),
    {
        cs.push(c);
    }
    assert(s@.take(s@.len() as int) =~= s@);
    cs
}

proof fn lemma_encode_concat(a: Seq<char>, b: Seq<char>)
    ensures
        encode_utf8(a + b) == encode_utf8(a) + encode_utf8(b),
        is_char_boundary(encode_utf8(a + b), encode_utf8(a).len() as int),
    decreases a.len(),
{
    broadcast use vstd::utf8::encode_utf8_valid_utf8;
    if a.len() == 0 {
        assert(a + b =~= b);
    } else {
        lemma_encode_concat(a.drop_first(), b);
        assert((a + b).drop_first() =~= a.drop_first() + b);
        vstd::utf8::encode_utf8_first_scalar(a + b);
        let first = encode_scalar(a[0] as u32);
        let rest = encode_utf8(a.drop_first());
        assert(encode_utf8(a + b) =~= first + (rest + encode_utf8(b)));
        assert(encode_utf8(a + b) =~= encode_utf8(a) + encode_utf8(b));
        assert(vstd::utf8::pop_first_scalar(encode_utf8(a + b)) =~= rest + encode_utf8(b));
    }
}

/// Texts with the same bytes in UTF-8 are the same.
pub proof fn lemma_same_bytes_same_text(a: Seq<char>, b: Seq<char>)
    requires
        encode_utf8(a) == encode_utf8(b),
    ensures
        a == b,
{
    vstd::utf8::encode_utf8_decode_utf8(a);
    vstd::utf8::encode_utf8_decode_utf8(b);
}

/// Whether two texts are the same.
pub fn same_text(a: &str, b: &str) -> (r: bool)
    ensures
        r == (a@ == b@),
{
    let p = a.as_bytes();
    let q = b.as_bytes();
    if p.len() != q.len() {
        return false;
    }
    for i in 0..p.len()
        invariant
            p@ == encode_utf8(a@),
            q@ == encode_utf8(b@),
            p@.len() == q@.len(),
            forall|k: int| 0 <= k < i ==> p@[k] == q@[k],
    {
        if p[i] != q[i] {
            return false;
        }
    }
    proof {
        assert(p@ =~= q@);
        lemma_same_bytes_same_text(a@, b@);
    }
    true
}

/// The number of bytes that `c` takes in UTF-8.
fn width(c: char) -> (n: usize)
    ensures
        n == encode_scalar(c as u32).len(),
{
    broadcast use vstd::utf8::char_is_scalar;

    let u: u32 = c as u32;
    if u <= 0x7f {
        1
    } else if u <= 0x7ff {
        2
    } else if u <= 0xffff {
        3
    } else {
        4
    }
}

/// For every position between characters of `line`, the number of bytes that come before it.
fn offsets(line: &str) -> (os: Vec<usize>)
    ensures
        os@.len() == line@.len() + 1,
        forall|k: int|
            0 <= k <= line@.len() ==> (#[trigger] os@[k]) == encode_utf8(line@.take(k)).len(),
{
    let mut os: Vec<usize> = Vec::new();
    let mut at: usize = 0;
    let all = line.as_bytes().len();
    proof {
        assert(line@.take(0) =~= Seq::<char>::empty());
    }
    for c in it: line.chars()
        invariant
            it.seq() == line@,
            all == encode_utf8(line@).len(),
            os@.len() == it.index(),
            at == encode_utf8(line@.take(it.index())).len(),
            forall|k: int|
                0 <= k < it.index() ==> (#[trigger] os@[k]) == encode_utf8(line@.take(k)).len(),
    {
        os.push(at);
        proof {
            let k = it.index();
            let one = seq![c];
            lemma_encode_concat(line@.take(k), one);
            assert(line@.take(k + 1) =~= line@.take(k) + one);
            assert(one.drop_first() =~= Seq::<char>::empty());
            assert(encode_utf8(one) =~= encode_scalar(c as u32)) by {
                reveal_with_fuel(encode_utf8, 2);
            }
            lemma_encode_concat(line@.take(k + 1), line@.skip(k + 1));
            assert(line@ =~= line@.take(k + 1) + line@.skip(k + 1));
        }
        at += width(c);
    }
    os.push(at);
    os
}

/// The characters of `line` from `i` to `j`.
fn slice<'a>(line: &'a str, os: &Vec<usize>, i: usize, j: usize) -> (part: &'a str)
    requires
        i <= j <= line@.len(),
        os@.len() == line@.len() + 1,
        forall|k: int|
            0 <= k <= line@.len() ==> (#[trigger] os@[k]) == encode_utf8(line@.take(k)).len(),
    ensures
        part@ == line@.subrange(i as int, j as int),
{
    let ghost s = line@;
    proof {
        lemma_encode_concat(s.take(j as int), s.skip(j as int));
        assert(s =~= s.take(j as int) + s.skip(j as int));
        assert(s.take(j as int) =~= s.take(i as int) + s.subrange(i as int, j as int));
        lemma_encode_concat(s.take(i as int), s.subrange(i as int, j as int));
        let _ = os@[i as int];
        let _ = os@[j as int];
    }
    let head = line.split_at(os[j]).0;
    proof {
        assert(head.spec_bytes() =~= encode_utf8(s.take(j as int)));
        lemma_same_bytes_same_text(head@, s.take(j as int));
    }
    let part = head.split_at(os[i]).1;
    proof {
        assert(part.spec_bytes() =~= encode_utf8(s.subrange(i as int, j as int)));
        lemma_same_bytes_same_text(part@, s.subrange(i as int, j as int));
    }
    part
}

/// The number of windows of `n` characters in a text of `len` characters.
pub open spec fn window_count(len: nat, n: nat) -> nat {
    if n == 0 {
        len
    } else if n <= len {
        (len - n + 1) as nat
    } else {
        0
    }
}

/// Return the string windows having `n` characters, where `n` > 0.
pub fn str_windows(line: &str, n: usize) -> (ws: Vec<&str>)
    ensures
        ws@.len() == window_count(line@.len(), n as nat),
        forall|i: int|
            0 <= i < ws@.len() ==> (#[trigger] ws@[i])@ == line@.subrange(i, i + n),
{
    let os = offsets(line);
    let len: usize = os.len() - 1;
    let mut ws: Vec<&str> = Vec::new();
    let mut i: usize = 0;
    while i < len && n <= len - i
        invariant
            len == line@.len(),
            os@.len() == len + 1,
            forall|k: int|
                0 <= k <= line@.len() ==> (#[trigger] os@[k]) == encode_utf8(line@.take(k)).len(),
            i <= len,
            i > 0 ==> n <= len - i + 1,
            ws@.len() == i,
            forall|k: int| 0 <= k < i ==> (#[trigger] ws@[k])@ == line@.subrange(k, k + n),
        decreases len - i,
    {
        ws.push(slice(line, &os, i, i + n));
        i += 1;
    }
    ws
}

/// The lower-case counterpart of an ASCII letter, and any other character itself.
pub open spec fn lower(c: char) -> char {
    if 'A' <= c <= 'Z' {
        (c as u32 + 32) as char
    } else {
        c
    }
}

/// The upper-case counterpart of an ASCII letter, and any other character itself.
pub open spec fn upper(c: char) -> char {
    if 'a' <= c <= 'z' {
        (c as u32 - 32) as char
    } else {
        c
    }
}

/// `s` with its ASCII letters in lower case.
pub fn to_lower(s: &str) -> (r: String)
    ensures
        r@ == s@.map_values(|c: char| lower(c)),
{
    let mut r = String::new();
    for c in it: s.chars()
        invariant
            it.seq() == s@,
            r@ == s@.take(it.index()).map_values(|c: char| lower(c)),
    {
        let d = if 'A' <= c && c <= 'Z' {
            (c as u8 + 32) as char
        } else {
            c
        };
        r.push(d);
    }
    assert(s@.take(s@.len() as int) =~= s@);
    r
}

/// `s` with its ASCII letters in upper case.
pub fn to_upper(s: &str) -> (r: String)
    ensures
        r@ == s@.map_values(|c: char| upper(c)),
{
    let mut r = String::new();
    for c in it: s.chars()
        invariant
            it.seq() == s@,
            r@ == s@.take(it.index()).map_values(|c: char| upper(c)),
    {
        let d = if 'a' <= c && c <= 'z' {
            (c as u8 - 32) as char
        } else {
            c
        };
        r.push(d);
    }
    assert(s@.take(s@.len() as int) =~= s@);
    r
}

/// `s` with every character replaced by the text that `f` gives for it.
pub open spec fn spelled(s: Seq<char>, f: spec_fn(char) -> Seq<char>) -> Seq<char>
    decreases s.len(),
{
    if s.len() == 0 {
        seq![]
    } else {
        spelled(s.drop_last(), f) + f(s.last())
    }
}

/// `with` for the character `c`, and any other character for itself.
pub open spec fn for_char(c: char, with: Seq<char>) -> spec_fn(char) -> Seq<char> {
    |x: char|
        if x == c {
            with
        } else {
            seq![x]
        }
}

/// `s` with every `c` replaced by `with`.
pub fn replace_char(s: &str, c: char, with: &str) -> (r: String)
    ensures
        r@ == spelled(s@, for_char(c, with@)),
{
    let mut r = String::new();
    for x in it: s.chars()
        invariant
            it.seq() == s@,
            r@ == spelled(s@.take(it.index()), for_char(c, with@)),
    {
        let ghost done = r@;
        proof {
            let k = it.index();
            assert(s@.take(k + 1).drop_last() =~= s@.take(k));
            assert(s@.take(k + 1).last() == x);
        }
        if x == c {
            r.append(with);
        } else {
            r.push(x);
            assert(r@ =~= done + seq![x]);
        }
    }
    assert(s@.take(s@.len() as int) =~= s@);
    r
}

/// Whether `part` stands in `whole` at the position `at`.
pub open spec fn stands_at<T>(whole: Seq<T>, part: Seq<T>, at: int) -> bool {
    0 <= at && at + part.len() <= whole.len() && whole.subrange(at, at + part.len()) == part
}

/// Whether the characters `part` stand in `whole` at the position `at`.
pub fn chars_stand_at(whole: &Vec<char>, part: &Vec<char>, at: usize) -> (r: bool)
    ensures
        r == stands_at(whole@, part@, at as int),
{
    if at > whole.len() || part.len() > whole.len() - at {
        return false;
    }
    for i in 0..part.len()
        invariant
            at + part@.len() <= whole.len() == whole@.len(),
            forall|k: int| 0 <= k < i ==> whole@[at + k] == part@[k],
    {
        if whole[at + i] != part[i] {
            assert(whole@.subrange(at as int, at + part@.len())[i as int] != part@[i as int]);
            return false;
        }
    }
    assert(whole@.subrange(at as int, at + part@.len()) =~= part@);
    true
}

/// Whether `s` starts with `prefix`.
pub open spec fn has_prefix(s: Seq<char>, prefix: Seq<char>) -> bool {
    stands_at(s, prefix, 0)
}

/// Whether `s` ends with `suffix`.
pub open spec fn has_suffix(s: Seq<char>, suffix: Seq<char>) -> bool {
    stands_at(s, suffix, s.len() - suffix.len())
}

/// Whether `s` starts with `prefix`.
pub fn starts_with(s: &str, prefix: &str) -> (r: bool)
    ensures
        r == has_prefix(s@, prefix@),
{
    chars_stand_at(&to_chars(s), &to_chars(prefix), 0)
}

/// Whether `s` ends with `suffix`.
pub fn ends_with(s: &str, suffix: &str) -> (r: bool)
    ensures
        r == has_suffix(s@, suffix@),
{
    let whole = to_chars(s);
    let part = to_chars(suffix);
    part.len() <= whole.len() && chars_stand_at(&whole, &part, whole.len() - part.len())
}

/// The text of the characters of `cs` from `i` to `j`.
fn text_of(cs: &Vec<char>, i: usize, j: usize) -> (s: String)
    requires
        i <= j <= cs@.len(),
    ensures
        s@ == cs@.subrange(i as int, j as int),
{
    let mut s = String::new();
    for k in i..j
        invariant
            i <= k <= j <= cs@.len(),
            s@ == cs@.subrange(i as int, k as int),
    {
        s.push(cs[k]);
        assert(cs@.subrange(i as int, k + 1) =~= cs@.subrange(i as int, k as int).push(
            cs@[k as int],
        ));
    }
    s
}

/// What follows `prefix` in `s`, if `s` starts with it.
pub fn strip_prefix(s: &str, prefix: &str) -> (r: Option<String>)
    ensures
        match r {
            Some(t) => has_prefix(s@, prefix@) && t@ == s@.skip(prefix@.len() as int),
            None => !has_prefix(s@, prefix@),
        },
{
    let whole = to_chars(s);
    let part = to_chars(prefix);
    if chars_stand_at(&whole, &part, 0) {
        Some(text_of(&whole, part.len(), whole.len()))
    } else {
        None
    }
}

/// What comes before `suffix` in `s`, if `s` ends with it.
pub fn strip_suffix(s: &str, suffix: &str) -> (r: Option<String>)
    ensures
        match r {
            Some(t) => has_suffix(s@, suffix@) && t@ == s@.take(s@.len() - suffix@.len()),
            None => !has_suffix(s@, suffix@),
        },
{
    let whole = to_chars(s);
    let part = to_chars(suffix);
    if part.len() <= whole.len() && chars_stand_at(&whole, &part, whole.len() - part.len()) {
        Some(text_of(&whole, 0, whole.len() - part.len()))
    } else {
        None
    }
}

/// The character for a decimal digit.
pub open spec fn digit(n: nat) -> char {
    (n + '0' as nat) as char
}

/// `n` in decimal.
pub open spec fn decimal(n: nat) -> Seq<char>
    decreases n,
{
    if n < 10 {
        seq![digit(n)]
    } else {
        decimal(n / 10).push(digit(n % 10))
    }
}

/// `n` in decimal.
pub fn to_decimal(n: u64) -> (s: String)
    ensures
        s@ == decimal(n as nat),
    decreases n,
{
    let mut s = if n < 10 {
        String::new()
    } else {
        to_decimal(n / 10)
    };
    s.push(((n % 10) as u8 + 48) as char);
    assert(n < 10 ==> s@ =~= seq![digit(n as nat)]);
    s
}

/// A window of `n` characters starts at every position behind which there are `n` characters,
/// and nowhere else.
pub proof fn law_windows_start_wherever_they_fit(len: nat, n: nat, i: int)
    requires
        n > 0,
    ensures
        0 <= i < window_count(len, n) <==> 0 <= i && i + n <= len,
{
}

/// A number below ten is one digit in decimal. Writing a digit behind a number that is not zero
/// multiplies it by ten and adds the digit.
pub proof fn law_decimal_is_positional(n: nat, d: nat)
    requires
        d < 10,
    ensures
        decimal(d).len() == 1 && decimal(d)[0] as u32 == 0x30 + d,
        n > 0 ==> decimal(n * 10 + d) == decimal(n) + decimal(d),
{
    if n > 0 {
        let m = (n * 10 + d) as nat;
        assert(m / 10 == n && m % 10 == d);
        assert(decimal(m) =~= decimal(n) + decimal(d));
    }
}

} // verus!
