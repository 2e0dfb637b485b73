use jaq_core::natives::{
    ascii_downcase, ascii_upcase, contains, decode_base64, encode_base64, encode_uri, endswith,
    error, escape_csv, escape_html, escape_sh, escape_tsv, explode, has, implode, input,
    keys_unsorted, ltrimstr, rtrimstr, startswith, tojson, utf8bytelength,
};
use jaq_core::val::{Error, Type, Val, ValR2};

fn text(s: &str) -> Val {
    Val::Str(s.to_string())
}

fn text_of(r: ValR2<Val>) -> String {
    match r {
        Ok(Val::Str(s)) => s,
        other => panic!("not a string: {:?}", other),
    }
}

fn is_not_str(r: ValR2<Val>) -> bool {
    matches!(r, Err(Error::Type(Val::Int(7), Type::Str)))
}

#[test]
fn filters_on_strings() {
    assert_eq!(text_of(ascii_downcase(text("ÄBc"))), "Äbc");
    assert_eq!(text_of(ascii_upcase(text("äBc"))), "äBC");
    assert_eq!(text_of(escape_csv(&text("a\"b"))), "a\"\"b");
    assert_eq!(text_of(escape_sh(&text("it's"))), "it'\\''s");
    assert_eq!(text_of(escape_html(&text("<&>"))), "&lt;&amp;&gt;");
    assert_eq!(text_of(escape_tsv(&text("a\tb"))), "a\\tb");
    assert_eq!(text_of(encode_uri(&text("a b"))), "a%20b");
    assert_eq!(text_of(encode_base64(&text("foo"))), "Zm9v");
    assert_eq!(text_of(decode_base64(&text("Zm9v"))), "foo");
    assert!(matches!(utf8bytelength(&text("ä€")), Ok(Val::Int(5))));
    assert!(decode_base64(&text("Zm9")).is_err());
}

#[test]
fn filters_on_strings_refuse_other_values() {
    let v = Val::Int(7);
    assert!(is_not_str(ascii_downcase(v.clone())));
    assert!(is_not_str(ascii_upcase(v.clone())));
    assert!(is_not_str(escape_csv(&v)));
    assert!(is_not_str(escape_sh(&v)));
    assert!(is_not_str(escape_html(&v)));
    assert!(is_not_str(escape_tsv(&v)));
    assert!(is_not_str(encode_uri(&v)));
    assert!(is_not_str(encode_base64(&v)));
    assert!(is_not_str(decode_base64(&v)));
    assert!(is_not_str(utf8bytelength(&v)));
    assert!(is_not_str(explode(&v)));
}

#[test]
fn filters_on_two_strings() {
    assert!(matches!(startswith(&text("foobar"), text("foo")), Ok(Val::Bool(true))));
    assert!(matches!(startswith(&text("foobar"), text("bar")), Ok(Val::Bool(false))));
    assert!(matches!(endswith(&text("foobar"), text("bar")), Ok(Val::Bool(true))));
    assert!(matches!(endswith(&text("foobar"), text("foo")), Ok(Val::Bool(false))));
    assert_eq!(text_of(ltrimstr(&text("foobar"), text("foo"))), "bar");
    assert_eq!(text_of(ltrimstr(&text("foobar"), text("bar"))), "foobar");
    assert_eq!(text_of(rtrimstr(&text("foobar"), text("bar"))), "foo");
    assert_eq!(text_of(rtrimstr(&text("foobar"), text("foo"))), "foobar");
}

#[test]
fn filters_on_two_strings_refuse_other_values() {
    for f in [startswith, endswith, ltrimstr, rtrimstr] {
        assert!(is_not_str(f(&Val::Int(7), Val::Null)));
        assert!(is_not_str(f(&text("a"), Val::Int(7))));
    }
}

#[test]
fn explode_and_implode() {
    let v = explode(&text("ä€")).ok().unwrap();
    assert_eq!(format!("{:?}", v), "Arr([Int(228), Int(8364)])");
    assert_eq!(text_of(implode(v)), "ä€");
    assert!(matches!(implode(Val::Null), Err(Error::Type(Val::Null, Type::Arr))));
    let v = Val::Arr(vec![Val::Null]);
    assert!(matches!(implode(v), Err(Error::Type(Val::Null, Type::Int))));
}

#[test]
fn inputs_and_errors() {
    assert!(matches!(input::<Val>(Ok(Val::Int(1))), Ok(Val::Int(1))));
    match input::<Val>(Err("eof".to_string())) {
        Err(Error::Val(Val::Str(s))) => assert_eq!(s, "eof"),
        other => panic!("{:?}", other),
    }
    assert!(matches!(error(Val::Int(3)), Err(Error::Val(Val::Int(3)))));
}

#[test]
fn values_are_shown_as_asked() {
    assert_eq!(text_of(tojson(&Val::Int(3), |v: &Val| format!("{:?}", v))), "Int(3)");
}

#[test]
fn questions_on_values() {
    assert!(matches!(contains(&Val::Null, Val::Null, |_, _| true), Ok(Val::Bool(true))));
    assert!(matches!(has(&Val::Null, Val::Null, |_, _| Ok(false)), Ok(Val::Bool(false))));
    let no = |_: &Val, k: &Val| Err(Error::Val(k.clone()));
    assert!(matches!(has(&Val::Null, Val::Int(2), no), Err(Error::Val(Val::Int(2)))));
    let r = keys_unsorted(&Val::Null, |_| Ok(vec![Val::Int(0)]));
    assert!(matches!(r, Ok(Val::Arr(ks)) if ks.len() == 1));
    let r = keys_unsorted(&Val::Null, |v| Err(Error::Val(v.clone())));
    assert!(matches!(r, Err(Error::Val(Val::Null))));
}

#[test]
fn trimming_removes_what_is_found() {
    for (v, p) in [("aab", "a"), ("aab", "b"), ("aab", ""), ("", "a"), ("aa", "aa")] {
        let starts = matches!(startswith(&text(v), text(p)), Ok(Val::Bool(true)));
        let rest = text_of(ltrimstr(&text(v), text(p)));
        assert_eq!(if starts { format!("{}{}", p, rest) } else { rest }, v);
        let ends = matches!(endswith(&text(v), text(p)), Ok(Val::Bool(true)));
        let rest = text_of(rtrimstr(&text(v), text(p)));
        assert_eq!(if ends { format!("{}{}", rest, p) } else { rest }, v);
    }
    assert_eq!(text_of(ltrimstr(&text("aab"), text("a"))), "ab");
}
