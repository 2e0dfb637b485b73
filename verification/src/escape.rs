//! Escaping and encoding of text.

use crate::text::{lemma_same_bytes_same_text, spelled};
use crate::val::{shown_error, shows, text_error, Error, ValT};
use base64::Engine;
use vstd::prelude::*;
use vstd::utf8::{decode_utf8, encode_utf8, valid_utf8};

verus! {

/// The text that each of `ss` holds.
pub open spec fn texts(ss: Seq<&str>) -> Seq<Seq<char>> {
    ss.map_values(|s: &str| s@)
}

/// Whether each of `patterns` is one character, and no two are the same.
pub open spec fn are_characters(patterns: Seq<Seq<char>>) -> bool {
    &&& forall|k: int| 0 <= k < patterns.len() ==> (#[trigger] patterns[k]).len() == 1
    &&& patterns.no_duplicates()
}

/// For the character that a pattern is, the replacement with its number; for any other, itself.
pub open spec fn by_pattern(
    patterns: Seq<Seq<char>>,
    replacements: Seq<Seq<char>>,
) -> spec_fn(char) -> Seq<char> {
    |c: char|
        if patterns.contains(seq![c]) {
            replacements[patterns.index_of(seq![c])]
        } else {
            seq![c]
        }
}

/// Calls [`aho_corasick::AhoCorasick::replace_all`] on the automaton that
/// [`aho_corasick::AhoCorasick::new`] builds for `patterns`.
///
/// A match of a pattern is replaced by the replacement with the same number, so where every pattern
/// is a character of its own, each of these characters is replaced and all other text stays.
///
/// The automaton can be built if there are not too many patterns,
/// and there has to be a replacement for every pattern.
#[verifier::external_body]
fn replace(s: &str, patterns: &[&str], replacements: &[&str]) -> (r: String)
    requires
        patterns@.len() == replacements@.len() <= 0xff,
        are_characters(texts(patterns@)),
    ensures
        r@ == spelled(s@, by_pattern(texts(patterns@), texts(replacements@))),
{
    let ac = aho_corasick::AhoCorasick::new(patterns).unwrap();
    ac.replace_all(s, replacements)
}

/// The character reference for a character that has a meaning in HTML, and any other character.
pub open spec fn html(c: char) -> Seq<char> {
    match c {
        '<' => "&lt;"@,
        '>' => "&gt;"@,
        '&' => "&amp;"@,
        '\'' => "&apos;"@,
        '"' => "&quot;"@,
        _ => seq![c],
    }
}

/// Escape text for HTML.
pub fn escape_html(s: &str) -> (r: String)
    ensures
        r@ == spelled(s@, |c: char| html(c)),
{
    let patterns = ["<", ">", "&", "\'", "\""];
    let replacements = ["&lt;", "&gt;", "&amp;", "&apos;", "&quot;"];
    proof {
        reveal_strlit("<");
        reveal_strlit(">");
        reveal_strlit("&");
        reveal_strlit("\'");
        reveal_strlit("\"");
        assert(patterns@[0]@ =~= seq!['<']);
        assert(patterns@[1]@ =~= seq!['>']);
        assert(patterns@[2]@ =~= seq!['&']);
        assert(patterns@[3]@ =~= seq!['\'']);
        assert(patterns@[4]@ =~= seq!['"']);
        let ps = texts(patterns@);
        assert(ps =~~= seq![seq!['<'], seq!['>'], seq!['&'], seq!['\''], seq!['"']]);
        assert forall|i: int, j: int|
            0 <= i < ps.len() && 0 <= j < ps.len() && i != j implies ps[i] != ps[j] by {
            assert(ps[i][0] != ps[j][0]);
        }
    }
    let r = replace(s, patterns.as_slice(), replacements.as_slice());
    proof {
        let ps = texts(patterns@);
        let rs = texts(replacements@);
        assert forall|k: int| 0 <= k < ps.len() implies rs[k] == html((#[trigger] ps[k])[0]) by {
            let _ = replacements@[k];
        }
        assert forall|c: char| !#[trigger] ps.contains(seq![c]) implies html(c) == seq![c] by {
            assert(ps[0] == seq!['<']);
            assert(ps[1] == seq!['>']);
            assert(ps[2] == seq!['&']);
            assert(ps[3] == seq!['\'']);
            assert(ps[4] == seq!['"']);
        }
        lemma_by_pattern(ps, rs, |c: char| html(c));
    }
    r
}

/// The escape sequence for a character that has a meaning in TSV, and any other character.
pub open spec fn tsv(c: char) -> Seq<char> {
    match c {
        '\n' => "\\n"@,
        '\r' => "\\r"@,
        '\t' => "\\t"@,
        '\\' => "\\\\"@,
        _ => seq![c],
    }
}

/// Escape text for TSV.
pub fn escape_tsv(s: &str) -> (r: String)
    ensures
        r@ == spelled(s@, |c: char| tsv(c)),
{
    let patterns = ["\n", "\r", "\t", "\\"];
    let replacements = ["\\n", "\\r", "\\t", "\\\\"];
    proof {
        reveal_strlit("\n");
        reveal_strlit("\r");
        reveal_strlit("\t");
        reveal_strlit("\\");
        assert(patterns@[0]@ =~= seq!['\n']);
        assert(patterns@[1]@ =~= seq!['\r']);
        assert(patterns@[2]@ =~= seq!['\t']);
        assert(patterns@[3]@ =~= seq!['\\']);
        let ps = texts(patterns@);
        assert(ps =~~= seq![seq!['\n'], seq!['\r'], seq!['\t'], seq!['\\']]);
        assert forall|i: int, j: int|
            0 <= i < ps.len() && 0 <= j < ps.len() && i != j implies ps[i] != ps[j] by {
            assert(ps[i][0] != ps[j][0]);
        }
    }
    let r = replace(s, patterns.as_slice(), replacements.as_slice());
    proof {
        let ps = texts(patterns@);
        let rs = texts(replacements@);
        assert forall|k: int| 0 <= k < ps.len() implies rs[k] == tsv((#[trigger] ps[k])[0]) by {
            let _ = replacements@[k];
        }
        assert forall|c: char| !#[trigger] ps.contains(seq![c]) implies tsv(c) == seq![c] by {
            assert(ps[0] == seq!['\n']);
            assert(ps[1] == seq!['\r']);
            assert(ps[2] == seq!['\t']);
            assert(ps[3] == seq!['\\']);
        }
        lemma_by_pattern(ps, rs, |c: char| tsv(c));
    }
    r
}

proof fn lemma_by_pattern(
    ps: Seq<Seq<char>>,
    rs: Seq<Seq<char>>,
    f: spec_fn(char) -> Seq<char>,
)
    requires
        are_characters(ps),
        rs.len() == ps.len(),
        forall|k: int| 0 <= k < ps.len() ==> rs[k] == f((#[trigger] ps[k])[0]),
        forall|c: char| !#[trigger] ps.contains(seq![c]) ==> f(c) == seq![c],
    ensures
        by_pattern(ps, rs) == f,
{
    assert forall|c: char| #[trigger] by_pattern(ps, rs)(c) == f(c) by {
        if ps.contains(seq![c]) {
            let k = ps.index_of(seq![c]);
            assert(ps[k] == seq![c]);
            assert(ps[k][0] == c);
        }
    }
    assert(by_pattern(ps, rs) =~= f);
}

/// Whether `b` stands for itself in a URI.
pub open spec fn unreserved(b: u8) -> bool {
    ||| 0x30 <= b <= 0x39
    ||| 0x41 <= b <= 0x5a
    ||| 0x61 <= b <= 0x7a
    ||| b == '-' as u8
    ||| b == '.' as u8
    ||| b == '_' as u8
    ||| b == '~' as u8
}

/// The hexadecimal digit for `n`.
pub open spec fn hex(n: u8) -> char {
    if n < 10 {
        ('0' as u8 + n) as char
    } else {
        ('A' as u8 + n - 10) as char
    }
}

/// How `b` is written in a URI.
pub open spec fn percent(b: u8) -> Seq<char> {
    if unreserved(b) {
        seq![b as char]
    } else {
        seq!['%', hex(b / 16), hex(b % 16)]
    }
}

/// How `bs` are written in a URI.
pub open spec fn percent_encoded(bs: Seq<u8>) -> Seq<char>
    decreases bs.len(),
{
    if bs.len() == 0 {
        seq![]
    } else {
        percent_encoded(bs.drop_last()) + percent(bs.last())
    }
}

/// Calls [`urlencoding::encode`], which percent-encodes every byte of the text in UTF-8
/// except alphanumerics and `-`, `_`, `.`, `~`, with upper-case hexadecimal digits.
#[verifier::external_body]
fn percent_encode(s: &str) -> (r: String)
    ensures
        r@ == percent_encoded(encode_utf8(s@)),
{
    urlencoding::encode(s).into_owned()
}

/// Encode text for use in a URI.
pub fn encode_uri(s: &str) -> (r: String)
    ensures
        r@ == percent_encoded(encode_utf8(s@)),
{
    percent_encode(s)
}

/// The Base64 character for six bits.
pub open spec fn symbol(n: int) -> char {
    if n < 26 {
        ('A' as int + n) as char
    } else if n < 52 {
        ('a' as int + n - 26) as char
    } else if n < 62 {
        ('0' as int + n - 52) as char
    } else if n == 62 {
        '+'
    } else {
        '/'
    }
}

/// `bs` in Base64, with padding.
pub open spec fn base64(bs: Seq<u8>) -> Seq<char>
    decreases bs.len(),
{
    if bs.len() == 0 {
        seq![]
    } else {
        let a = bs[0] as int;
        let b = if bs.len() > 1 {
            bs[1] as int
        } else {
            0
        };
        let c = if bs.len() > 2 {
            bs[2] as int
        } else {
            0
        };
        let third = if bs.len() > 1 {
            symbol(b % 16 * 4 + c / 64)
        } else {
            '='
        };
        let fourth = if bs.len() > 2 {
            symbol(c % 64)
        } else {
            '='
        };
        seq![symbol(a / 4), symbol(a % 4 * 16 + b / 16), third, fourth] + base64(
            if bs.len() > 3 {
                bs.skip(3)
            } else {
                seq![]
            },
        )
    }
}

/// Calls `encode` of [`base64::engine::general_purpose::STANDARD`],
/// which gives the text of the bytes in Base64, with the standard alphabet and with padding.
#[verifier::external_body]
fn base64_encode(s: &str) -> (r: String)
    ensures
        r@ == base64(encode_utf8(s@)),
{
    base64::engine::general_purpose::STANDARD.encode(s)
}

/// What [`base64::DecodeError`] says of a text that is not Base64.
pub uninterp spec fn base64_problem(s: Seq<char>) -> Seq<char>;

/// Calls `decode` of [`base64::engine::general_purpose::STANDARD`],
/// which gives the bytes that have the given text in Base64.
/// There are such bytes unless the text has other characters than those of the standard alphabet,
/// wrong padding or bits behind the last byte; then the text of the error depends on nothing but
/// the given text.
#[verifier::external_body]
fn base64_decode(s: &str) -> (r: Result<Vec<u8>, String>)
    ensures
        match r {
            Ok(bs) => base64(bs@) == s@,
            Err(t) => t@ == base64_problem(s@) && forall|bs: Seq<u8>| #[trigger] base64(bs) != s@,
        },
{
    base64::engine::general_purpose::STANDARD.decode(s).map_err(|e| e.to_string())
}

/// Encode text in Base64.
pub fn encode_base64(s: &str) -> (r: String)
    ensures
        r@ == base64(encode_utf8(s@)),
{
    base64_encode(s)
}

/// Error of [`core::str::from_utf8`].
#[verifier::external_type_specification]
#[verifier::external_body]
pub struct ExUtf8Error(core::str::Utf8Error);

/// [`core::str::from_utf8`] gives the text that has the given bytes in UTF-8, if there is one.
pub assume_specification[ core::str::from_utf8 ](v: &[u8]) -> (r: Result<
    &str,
    core::str::Utf8Error,
>)
    ensures
        match r {
            Ok(s) => valid_utf8(v@) && s@ == decode_utf8(v@),
            Err(_) => !valid_utf8(v@),
        },
;

/// Whether `s` is Base64 of some bytes.
pub open spec fn is_base64(s: Seq<char>) -> bool {
    exists|bs: Seq<u8>| #[trigger] base64(bs) == s
}

/// `e` is the error of [`core::str::from_utf8`] for `bs`.
pub open spec fn utf8_failed<V: ValT>(bs: Seq<u8>, e: Error<V>) -> bool {
    exists|v: &[u8], d: core::str::Utf8Error|
        v@ == bs && #[trigger] call_ensures(
            core::str::from_utf8,
            (v,),
            Err::<&str, core::str::Utf8Error>(d),
        ) && shown_error(d, e)
}

/// `e` is the error for a text `s` that is not Base64 of a text in UTF-8.
pub open spec fn base64_failed<V: ValT>(s: Seq<char>, e: Error<V>) -> bool {
    &&& forall|t: Seq<char>| base64(#[trigger] encode_utf8(t)) != s
    &&& if is_base64(s) {
        exists|bs: Seq<u8>| #[trigger] base64(bs) == s && utf8_failed(bs, e)
    } else {
        text_error(e, base64_problem(s))
    }
}

/// Decode text from Base64.
pub fn decode_base64<V: ValT>(s: &str) -> (r: Result<String, Error<V>>)
    ensures
        match r {
            Ok(t) => base64(encode_utf8(t@)) == s@,
            Err(e) => base64_failed(s@, e),
        },
{
    let bytes = match base64_decode(s) {
        Ok(bytes) => bytes,
        Err(t) => {
            let e = Error::str(t);
            assert(base64_failed(s@, e));
            return Err(e);
        },
    };
    match core::str::from_utf8(bytes.as_slice()) {
        Ok(t) => {
            proof {
                vstd::utf8::decode_utf8_encode_utf8(bytes@);
            }
            Ok(t.to_owned())
        },
        Err(d) => {
            let t = d.to_string();
            let e = Error::str(t);
            proof {
                assert(shows(d, t@));
                assert(utf8_failed(bytes@, e));
                assert(is_base64(s@));
                assert forall|t: Seq<char>| base64(#[trigger] encode_utf8(t)) != s@ by {
                    if base64(encode_utf8(t)) == s@ {
                        lemma_base64_injective(encode_utf8(t), bytes@);
                        vstd::utf8::encode_utf8_valid_utf8(t);
                    }
                }
                assert(base64_failed(s@, e));
            }
            Err(e)
        },
    }
}

proof fn lemma_symbol(m: int, n: int)
    requires
        0 <= m < 64,
        0 <= n < 64,
    ensures
        symbol(m) == symbol(n) <==> m == n,
        symbol(m) != '=',
{
}

proof fn lemma_base64_injective(a: Seq<u8>, b: Seq<u8>)
    requires
        base64(a) == base64(b),
    ensures
        a == b,
    decreases a.len(),
{
    if a.len() == 0 || b.len() == 0 {
        assert(a.len() > 0 ==> base64(a).len() >= 4);
        assert(b.len() > 0 ==> base64(b).len() >= 4);
        assert(a =~= b);
    } else {
        let (s, t) = (base64(a), base64(b));
        assert(s[0] == t[0] && s[1] == t[1] && s[2] == t[2] && s[3] == t[3]);
        let (a1, a2) = (
            if a.len() > 1 {
                a[1] as int
            } else {
                0
            },
            if a.len() > 2 {
                a[2] as int
            } else {
                0
            },
        );
        let (b1, b2) = (
            if b.len() > 1 {
                b[1] as int
            } else {
                0
            },
            if b.len() > 2 {
                b[2] as int
            } else {
                0
            },
        );
        lemma_symbol(a[0] as int / 4, b[0] as int / 4);
        lemma_symbol(a[0] as int % 4 * 16 + a1 / 16, b[0] as int % 4 * 16 + b1 / 16);
        lemma_symbol(a1 % 16 * 4 + a2 / 64, b1 % 16 * 4 + b2 / 64);
        lemma_symbol(b1 % 16 * 4 + b2 / 64, a1 % 16 * 4 + a2 / 64);
        lemma_symbol(a2 % 64, b2 % 64);
        lemma_symbol(b2 % 64, a2 % 64);
        assert(a[0] == b[0] && a1 == b1 && a2 == b2);
        if a.len() > 2 {
            let (p, q) = (
                if a.len() > 3 {
                    a.skip(3)
                } else {
                    seq![]
                },
                if b.len() > 3 {
                    b.skip(3)
                } else {
                    seq![]
                },
            );
            assert(s.skip(4) =~= base64(p));
            assert(t.skip(4) =~= base64(q));
            lemma_base64_injective(p, q);
            assert forall|i: int| 3 <= i < a.len() implies a[i] == b[i] by {
                assert(p[i - 3] == q[i - 3]);
            }
        }
        assert(a =~= b);
    }
}

/// Decoding what encoding a text in Base64 gives is the text.
pub proof fn law_base64_decode_inverts_encode<V: ValT>(
    s: Seq<char>,
    r: Result<Seq<char>, Error<V>>,
)
    requires
        match r {
            Ok(t) => base64(encode_utf8(t)) == base64(encode_utf8(s)),
            Err(e) => base64_failed(base64(encode_utf8(s)), e),
        },
    ensures
        r == Ok::<Seq<char>, Error<V>>(s),
{
    match r {
        Ok(t) => {
            lemma_base64_injective(encode_utf8(t), encode_utf8(s));
            lemma_same_bytes_same_text(t, s);
        },
        Err(e) => {},
    }
}

} // verus!
