use jaq_core::escape::{
    decode_base64, encode_base64, encode_uri, escape_html, escape_tsv,
};
use jaq_core::val::{Error, Val};

#[test]
fn html_is_escaped() {
    assert_eq!(
        escape_html("<a href=\"x\">'&amp;ä'</a>"),
        "&lt;a href=&quot;x&quot;&gt;&apos;&amp;amp;ä&apos;&lt;/a&gt;"
    );
    assert_eq!(escape_html(""), "");
}

#[test]
fn escaped_html_holds_no_markup() {
    assert!(!escape_html("<>'\"&").contains(|c| matches!(c, '<' | '>' | '\'' | '"')));
}

#[test]
fn tsv_is_escaped() {
    assert_eq!(escape_tsv("a\tb\\n\r\nö"), "a\\tb\\\\n\\r\\nö");
}

#[test]
fn escaped_tsv_holds_no_separator() {
    assert!(!escape_tsv("\t\r\n\\").contains(|c| matches!(c, '\t' | '\r' | '\n')));
}

#[test]
fn uri_is_encoded() {
    assert_eq!(encode_uri("-_.~azAZ09"), "-_.~azAZ09");
    assert_eq!(encode_uri("a b/ä%+"), "a%20b%2F%C3%A4%25%2B");
    assert_eq!(encode_uri("\u{0}\u{7f}"), "%00%7F");
}

#[test]
fn encoded_uri_holds_no_reserved_character() {
    let s: String = (0..=0x2ff).filter_map(char::from_u32).collect();
    let plain = |c: char| c.is_ascii_alphanumeric() || "-_.~%".contains(c);
    assert!(encode_uri(&s).chars().all(plain));
}

#[test]
fn base64_is_encoded_with_padding() {
    assert_eq!(encode_base64(""), "");
    assert_eq!(encode_base64("f"), "Zg==");
    assert_eq!(encode_base64("fo"), "Zm8=");
    assert_eq!(encode_base64("foo"), "Zm9v");
    assert_eq!(encode_base64("foobar"), "Zm9vYmFy");
    assert_eq!(encode_base64("ÿ>?>?"), "w78+Pz4/");
}

#[test]
fn base64_decode_inverts_encode() {
    for s in ["", "a", "ab", "abc", "€uro", "\u{0}\u{10ffff}"] {
        let r = decode_base64::<Val>(&encode_base64(s));
        assert_eq!(r.ok().as_deref(), Some(s));
    }
}

fn problem(s: &str) -> String {
    match decode_base64::<Val>(s) {
        Err(Error::Val(Val::Str(s))) => s,
        other => panic!("{:?}", other),
    }
}

#[test]
fn text_that_is_not_base64_is_refused() {
    assert_eq!(problem("Zg"), "Invalid padding");
    assert_eq!(problem("Zg="), "Invalid padding");
    assert_eq!(problem("Zm9v!A=="), "Invalid symbol 33, offset 4.");
    assert_eq!(problem("Zh=="), "Invalid last symbol 104, offset 1.");
    assert_eq!(problem("Z"), "Invalid input length: 1");
    assert_eq!(problem("===="), "Invalid symbol 61, offset 0.");
}

#[test]
fn base64_of_other_bytes_is_refused() {
    // the byte 0xff
    assert_eq!(problem("/w=="), "invalid utf-8 sequence of 1 bytes from index 0");
}
