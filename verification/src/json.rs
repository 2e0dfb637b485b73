//! Reading values from JSON text.

use crate::text::stands_at;
use crate::val::{shows, text_error, Error, ValR2, ValT};
use hifijson::token::Lex;
use vstd::prelude::*;
use vstd::string::StringExecFns;
use vstd::utf8::encode_utf8;

verus! {

/// Token at the start of a value.
#[verifier::external_type_specification]
pub struct ExToken(hifijson::Token);

/// Lexer of text that lies in memory.
#[verifier::external_type_specification]
#[verifier::external_body]
pub struct ExSliceLexer<'a>(hifijson::SliceLexer<'a>);

/// What the lexer expected in place of what it found.
#[verifier::external_type_specification]
pub struct ExExpect(hifijson::token::Expect);

/// The bytes that a lexer has yet to read.
pub uninterp spec fn unread(lexer: hifijson::SliceLexer<'_>) -> Seq<u8>;

/// Whether `b` is whitespace: a space, a tab, a line feed or a carriage return.
pub open spec fn is_space(b: u8) -> bool {
    b == 0x20 || b == 0x09 || b == 0x0a || b == 0x0d
}

/// What is left of `bs` behind leading whitespace.
pub open spec fn skip_blanks(bs: Seq<u8>) -> Seq<u8>
    decreases bs.len(),
{
    if bs.len() > 0 && is_space(bs[0]) {
        skip_blanks(bs.drop_first())
    } else {
        bs
    }
}

/// Whether `bs` hold nothing but whitespace.
pub open spec fn is_blank(bs: Seq<u8>) -> bool {
    skip_blanks(bs).len() == 0
}

/// The token that `bs` start with, and how many of `bs` are read with it.
pub open spec fn first_token(bs: Seq<u8>) -> (hifijson::Token, int) {
    let b = bs[0];
    if stands_at(bs, seq![0x6eu8, 0x75, 0x6c, 0x6c], 0) {
        (hifijson::Token::Null, 4)
    } else if stands_at(bs, seq![0x74u8, 0x72, 0x75, 0x65], 0) {
        (hifijson::Token::True, 4)
    } else if stands_at(bs, seq![0x66u8, 0x61, 0x6c, 0x73, 0x65], 0) {
        (hifijson::Token::False, 5)
    } else if b == 0x2d || 0x30 <= b <= 0x39 {
        (hifijson::Token::DigitOrMinus, 0)
    } else if b == 0x22 {
        (hifijson::Token::Quote, 1)
    } else if b == 0x5b {
        (hifijson::Token::LSquare, 1)
    } else if b == 0x5d {
        (hifijson::Token::RSquare, 1)
    } else if b == 0x7b {
        (hifijson::Token::LCurly, 1)
    } else if b == 0x7d {
        (hifijson::Token::RCurly, 1)
    } else if b == 0x2c {
        (hifijson::Token::Comma, 1)
    } else if b == 0x3a {
        (hifijson::Token::Colon, 1)
    } else {
        (hifijson::Token::Error, 1)
    }
}

/// `token` is the first token of `s`, and `lexer` has read `s` up to the end of that token.
pub open spec fn starts_at(
    s: Seq<char>,
    token: hifijson::Token,
    lexer: hifijson::SliceLexer<'_>,
) -> bool {
    let bs = skip_blanks(encode_utf8(s));
    &&& bs.len() > 0
    &&& token == first_token(bs).0
    &&& unread(lexer) == bs.skip(first_token(bs).1)
}

/// `e` is the error for finding something else than what was expected.
pub open spec fn expected<E: From<hifijson::token::Expect>>(
    what: hifijson::token::Expect,
    e: E,
) -> bool {
    call_ensures(<E as From<hifijson::token::Expect>>::from, (what,), e)
}

/// Calls `exactly_one` of [`hifijson::token::Lex`] on a [`hifijson::SliceLexer`] of the text.
///
/// It skips whitespace and reads a token, and fails if there is none.
/// Then it runs `parse` on that token and on the lexer, which goes on behind it,
/// and fails as `parse` fails.
/// Then it gives the value that `parse` gave, or fails if `parse` has left more than whitespace.
#[verifier::external_body]
fn exactly_one<
    V,
    E: From<hifijson::token::Expect>,
    P: FnOnce(hifijson::Token, &mut hifijson::SliceLexer<'_>) -> Result<V, E>,
>(s: &str, parse: P) -> (r: Result<V, E>)
    requires
        forall|token: hifijson::Token, lexer: &mut hifijson::SliceLexer<'_>| #[trigger]
            call_requires(parse, (token, lexer)),
    ensures
        match r {
            Ok(v) => exists|token: hifijson::Token, lexer: &mut hifijson::SliceLexer<'_>| #[trigger]
                call_ensures(parse, (token, lexer), Ok::<V, E>(v)) && starts_at(s@, token, *lexer)
                    && is_blank(unread(*final(lexer))),
            Err(e) => {
                ||| is_blank(encode_utf8(s@)) && expected(hifijson::token::Expect::Value, e)
                ||| exists|token: hifijson::Token, lexer: &mut hifijson::SliceLexer<'_>| #[trigger]
                    call_ensures(parse, (token, lexer), Err::<V, E>(e)) && starts_at(
                        s@,
                        token,
                        *lexer,
                    )
                ||| expected(hifijson::token::Expect::Eof, e) && exists|
                    token: hifijson::Token,
                    lexer: &mut hifijson::SliceLexer<'_>,
                    v: V,
                | #[trigger]
                    call_ensures(parse, (token, lexer), Ok::<V, E>(v)) && starts_at(
                        s@,
                        token,
                        *lexer,
                    ) && !is_blank(unread(*final(lexer)))
            },
        },
{
    hifijson::SliceLexer::new(s.as_bytes()).exactly_one(parse)
}

/// The text of the error for text that is not JSON for the reason `problem`.
pub open spec fn not_json(s: Seq<char>, problem: Seq<char>) -> Seq<char> {
    "cannot parse "@ + s + " as JSON: "@ + problem
}

/// What comes of parsing the text `s`, if that gave `r`: a value or the text of an error.
pub fn json_outcome<V: ValT>(s: &str, r: Result<V, String>) -> (o: ValR2<V>)
    ensures
        match r {
            Ok(v) => o == Ok::<V, Error<V>>(v),
            Err(problem) => o matches Err(e) && text_error(e, not_json(s@, problem@)),
        },
{
    match r {
        Ok(v) => Ok(v),
        Err(problem) => Err(
            Error::str(
                "cannot parse ".to_owned().concat(s).concat(" as JSON: ").concat(
                    problem.as_str(),
                ),
            ),
        ),
    }
}

/// `e` says that `s` is not JSON, for the reason that `d` shows.
pub open spec fn json_failed<V: ValT, D: core::fmt::Display>(
    s: Seq<char>,
    d: D,
    e: Error<V>,
) -> bool {
    exists|problem: Seq<char>| #[trigger]
        shows(d, problem) && text_error(e, not_json(s, problem))
}

/// Convert string to a single JSON value.
///
/// The value is read by `parse`, from its first token on.
pub fn from_json<
    V: ValT,
    E: From<hifijson::token::Expect> + core::fmt::Display,
    P: FnOnce(hifijson::Token, &mut hifijson::SliceLexer<'_>) -> Result<V, E>,
>(s: &str, parse: P) -> (r: ValR2<V>)
    requires
        forall|token: hifijson::Token, lexer: &mut hifijson::SliceLexer<'_>| #[trigger]
            call_requires(parse, (token, lexer)),
    ensures
        r matches Ok(v) ==> exists|
            token: hifijson::Token,
            lexer: &mut hifijson::SliceLexer<'_>,
        | #[trigger]
            call_ensures(parse, (token, lexer), Ok::<V, E>(v)) && starts_at(s@, token, *lexer)
                && is_blank(unread(*final(lexer))),
        r matches Err(e) ==> exists|d: E| #[trigger]
            json_failed(s@, d, e) && {
                ||| is_blank(encode_utf8(s@)) && expected(hifijson::token::Expect::Value, d)
                ||| exists|token: hifijson::Token, lexer: &mut hifijson::SliceLexer<'_>| #[trigger]
                    call_ensures(parse, (token, lexer), Err::<V, E>(d)) && starts_at(
                        s@,
                        token,
                        *lexer,
                    )
                ||| expected(hifijson::token::Expect::Eof, d) && exists|
                    token: hifijson::Token,
                    lexer: &mut hifijson::SliceLexer<'_>,
                    v: V,
                | #[trigger]
                    call_ensures(parse, (token, lexer), Ok::<V, E>(v)) && starts_at(
                        s@,
                        token,
                        *lexer,
                    ) && !is_blank(unread(*final(lexer)))
            },
{
    match exactly_one(s, parse) {
        Ok(v) => {
            let r = json_outcome(s, Ok(v));
            assert(r->Ok_0 == v);
            assert(exists|token: hifijson::Token, lexer: &mut hifijson::SliceLexer<'_>| #[trigger]
                call_ensures(parse, (token, lexer), Ok::<V, E>(r->Ok_0)) && starts_at(
                    s@,
                    token,
                    *lexer,
                ) && is_blank(unread(*final(lexer))));
            r
        },
        Err(d) => {
            let problem = d.to_string();
            assert(shows(d, problem@));
            let r = json_outcome(s, Err(problem));
            assert(json_failed(s@, d, r->Err_0));
            r
        },
    }
}

/// Only spaces, tabs, line feeds and carriage returns are skipped, and all of them:
/// what is left begins with another byte or is empty.
pub proof fn law_blanks_are_skipped(bs: Seq<u8>)
    ensures
        skip_blanks(bs).len() <= bs.len(),
        skip_blanks(bs) == bs.skip(bs.len() - skip_blanks(bs).len()),
        forall|i: int|
            0 <= i < bs.len() - skip_blanks(bs).len() ==> {
                ||| #[trigger] bs[i] == ' ' as u8
                ||| bs[i] == '\t' as u8
                ||| bs[i] == '\n' as u8
                ||| bs[i] == '\r' as u8
            },
        skip_blanks(bs).len() > 0 ==> {
            let b = skip_blanks(bs)[0];
            b != ' ' as u8 && b != '\t' as u8 && b != '\n' as u8 && b != '\r' as u8
        },
        is_blank(bs) <==> skip_blanks(bs).len() == 0,
    decreases bs.len(),
{
    if bs.len() > 0 && is_space(bs[0]) {
        let rest = bs.drop_first();
        law_blanks_are_skipped(rest);
        let n = bs.len() - skip_blanks(bs).len();
        assert(rest.skip(rest.len() - skip_blanks(rest).len()) =~= bs.skip(n));
        assert forall|i: int| 0 <= i < n implies {
            ||| #[trigger] bs[i] == ' ' as u8
            ||| bs[i] == '\t' as u8
            ||| bs[i] == '\n' as u8
            ||| bs[i] == '\r' as u8
        } by {
            if i > 0 {
                assert(rest[i - 1] == bs[i]);
            }
        }
    } else {
        assert(bs.skip(0) =~= bs);
    }
}

/// Bytes that hold only whitespace, and no others, are blank.
pub proof fn law_blank_is_all_whitespace(bs: Seq<u8>)
    ensures
        is_blank(bs) <==> forall|i: int|
            0 <= i < bs.len() ==> {
                ||| #[trigger] bs[i] == ' ' as u8
                ||| bs[i] == '\t' as u8
                ||| bs[i] == '\n' as u8
                ||| bs[i] == '\r' as u8
            },
{
    law_blanks_are_skipped(bs);
    if skip_blanks(bs).len() > 0 {
        let n = bs.len() - skip_blanks(bs).len();
        assert(bs[n] == skip_blanks(bs)[0]);
    }
}

/// The words `null`, `true` and `false` are read as tokens of their own;
/// of other tokens a byte is read, which tells the token, but a number is left to be read whole.
pub proof fn law_tokens(bs: Seq<u8>)
    requires
        bs.len() > 0,
    ensures
        ({
            let (token, n) = first_token(bs);
            let b = bs[0] as char;
            &&& 0 <= n <= bs.len()
            &&& token is Null <==> seq!['n' as u8, 'u' as u8, 'l' as u8, 'l' as u8].is_prefix_of(bs)
            &&& token is True <==> seq!['t' as u8, 'r' as u8, 'u' as u8, 'e' as u8].is_prefix_of(bs)
            &&& token is False <==> seq![
                'f' as u8,
                'a' as u8,
                'l' as u8,
                's' as u8,
                'e' as u8,
            ].is_prefix_of(bs)
            &&& token is Null || token is True ==> n == 4
            &&& token is False ==> n == 5
            &&& token is DigitOrMinus <==> b == '-' || '0' <= b <= '9'
            &&& token is DigitOrMinus ==> n == 0
            &&& token is Quote <==> b == '"'
            &&& token is LSquare <==> b == '['
            &&& token is RSquare <==> b == ']'
            &&& token is LCurly <==> b == '{'
            &&& token is RCurly <==> b == '}'
            &&& token is Comma <==> b == ','
            &&& token is Colon <==> b == ':'
            &&& !(token is Null || token is True || token is False || token is DigitOrMinus) ==> n
                == 1
        }),
{
    let words = (
        seq![0x6eu8, 0x75, 0x6c, 0x6c],
        seq![0x74u8, 0x72, 0x75, 0x65],
        seq![0x66u8, 0x61, 0x6c, 0x73, 0x65],
    );
    assert(seq!['n' as u8, 'u' as u8, 'l' as u8, 'l' as u8] =~= words.0);
    assert(seq!['t' as u8, 'r' as u8, 'u' as u8, 'e' as u8] =~= words.1);
    assert(seq!['f' as u8, 'a' as u8, 'l' as u8, 's' as u8, 'e' as u8] =~= words.2);
    assert(words.0.is_prefix_of(bs) ==> bs[0] == words.0[0]);
    assert(words.1.is_prefix_of(bs) ==> bs[0] == words.1[0]);
    assert(words.2.is_prefix_of(bs) ==> bs[0] == words.2[0]);
}

/// A parser is started at the first token of the text, behind leading whitespace:
/// whitespace, the bytes read with the token, and the unread bytes make up the text.
pub proof fn law_parser_starts_at_the_first_token(
    s: Seq<char>,
    token: hifijson::Token,
    lexer: hifijson::SliceLexer<'_>,
)
    requires
        starts_at(s, token, lexer),
    ensures
        exists|blanks: Seq<u8>, read: Seq<u8>|
            #![trigger blanks + read]
            blanks + read + unread(lexer) == encode_utf8(s) && is_blank(blanks) && {
                let bs = read + unread(lexer);
                bs.len() > 0 && !is_space(bs[0]) && token == first_token(bs).0 && read.len()
                    == first_token(bs).1
            },
{
    let all = encode_utf8(s);
    let bs = skip_blanks(all);
    law_blanks_are_skipped(all);
    law_tokens(bs);
    let n = all.len() - bs.len();
    let (blanks, read) = (all.take(n), bs.take(first_token(bs).1));
    law_blank_is_all_whitespace(blanks);
    assert(blanks + read + unread(lexer) =~= all);
    assert(read + unread(lexer) =~= bs);
}

/// The text of the error for text that is not JSON has the text and the reason in it.
pub proof fn law_not_json_text(s: Seq<char>, problem: Seq<char>)
    ensures
        not_json(s, problem).len() == "cannot parse "@.len() + s.len() + " as JSON: "@.len()
            + problem.len(),
        "cannot parse "@.is_prefix_of(not_json(s, problem)),
        ("cannot parse "@ + s + " as JSON: "@).is_prefix_of(not_json(s, problem)),
        problem.is_suffix_of(not_json(s, problem)),
{
}

} // verus!
