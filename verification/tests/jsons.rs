use hifijson::num::LexWrite;
use hifijson::token::Lex;
use hifijson::{SliceLexer, Token};
use jaq_core::json::{from_json, json_outcome};
use jaq_core::natives::fromjson;
use jaq_core::val::{Error, Type, Val};

/// Reads `null`, truth values, integers and arrays of these.
fn parse(token: Token, lexer: &mut SliceLexer<'_>) -> Result<Val, hifijson::Error> {
    match token {
        Token::Null => Ok(Val::Null),
        Token::True => Ok(Val::Bool(true)),
        Token::False => Ok(Val::Bool(false)),
        Token::DigitOrMinus => {
            let (n, _) = lexer.num_string()?;
            Ok(Val::Int(n.parse().unwrap()))
        }
        Token::LSquare => {
            let mut a = Vec::new();
            lexer.seq(Token::RSquare, |token, lexer| {
                a.push(parse(token, lexer)?);
                Ok::<_, hifijson::Error>(())
            })?;
            Ok(Val::Arr(a))
        }
        _ => Err(hifijson::token::Expect::Value.into()),
    }
}

fn problem(s: &str) -> String {
    match from_json::<Val, _, _>(s, parse) {
        Err(Error::Val(Val::Str(s))) => s,
        other => panic!("{:?}", other),
    }
}

#[test]
fn json_is_parsed_once_and_completely() {
    let r = from_json::<Val, _, _>(" [true, [null]] \n", parse);
    match r {
        Ok(v) => assert_eq!(format!("{:?}", v), "Arr([Bool(true), Arr([Null])])"),
        other => panic!("{:?}", other),
    }
    assert!(matches!(from_json::<Val, _, _>("false", parse), Ok(Val::Bool(false))));
    match from_json::<Val, _, _>("[1,null]", parse) {
        Ok(v) => assert_eq!(format!("{:?}", v), "Arr([Int(1), Null])"),
        other => panic!("{:?}", other),
    }
}

#[test]
fn text_that_is_not_json_is_refused() {
    assert_eq!(problem(" \t"), "cannot parse  \t as JSON: value expected");
    assert_eq!(problem("x"), "cannot parse x as JSON: value expected");
    assert_eq!(problem(""), "cannot parse  as JSON: value expected");
    assert_eq!(problem("1 2"), "cannot parse 1 2 as JSON: end of file expected");
    assert!(problem("null null").starts_with("cannot parse null null as JSON: "));
    assert!(problem("[true").starts_with("cannot parse [true as JSON: "));
}

#[test]
fn outcomes_of_parsing_json() {
    assert!(matches!(json_outcome::<Val>("s", Ok(Val::Int(1))), Ok(Val::Int(1))));
    match json_outcome::<Val>("s", Err("why".to_string())) {
        Err(Error::Val(Val::Str(s))) => assert_eq!(s, "cannot parse s as JSON: why"),
        other => panic!("{:?}", other),
    }
}

#[test]
fn filter_for_json() {
    assert!(matches!(fromjson(&Val::Str("null".to_string()), parse), Ok(Val::Null)));
    assert!(fromjson(&Val::Str("nul".to_string()), parse).is_err());
    assert!(matches!(fromjson(&Val::Int(1), parse), Err(Error::Type(Val::Int(1), Type::Str))));
}
