use jaq_core::text::{
    ends_with, replace_char, same_text, starts_with, str_windows, strip_prefix, strip_suffix,
    to_decimal, to_lower, to_upper,
};

#[test]
fn windows_of_characters() {
    assert_eq!(str_windows("aä€😀", 1), ["a", "ä", "€", "😀"]);
    assert_eq!(str_windows("aä€😀", 2), ["aä", "ä€", "€😀"]);
    assert_eq!(str_windows("aä€😀", 4), ["aä€😀"]);
    assert!(str_windows("aä€😀", 5).is_empty());
    assert!(str_windows("", 1).is_empty());
}

#[test]
fn case_of_ascii_letters() {
    assert_eq!(to_lower("AZ[az`Ä0"), "az[az`Ä0");
    assert_eq!(to_upper("AZ[az{ä0"), "AZ[AZ{ä0");
}

#[test]
fn changing_case_forgets_case() {
    let s = "Hello, Wörld";
    assert_eq!(to_lower(&to_upper(s)), to_lower(s));
    assert_eq!(to_upper(&to_lower(s)), to_upper(s));
}

#[test]
fn replacing_a_character() {
    assert_eq!(replace_char("a\"b\"", '"', "\"\""), "a\"\"b\"\"");
    assert_eq!(replace_char("", 'x', "y"), "");
    assert_eq!(replace_char("xäx", 'x', ""), "ä");
}

#[test]
fn prefixes_and_suffixes() {
    assert!(starts_with("äbc", "ä"));
    assert!(starts_with("abc", ""));
    assert!(!starts_with("a", "ab"));
    assert!(ends_with("abç", "ç"));
    assert!(ends_with("abc", ""));
    assert!(!ends_with("c", "bc"));
    assert_eq!(strip_prefix("äbc", "äb").as_deref(), Some("c"));
    assert_eq!(strip_prefix("äbc", "b"), None);
    assert_eq!(strip_suffix("äbc", "bc").as_deref(), Some("ä"));
    assert_eq!(strip_suffix("äbc", "b"), None);
}

#[test]
fn prefix_and_rest_make_up_the_string() {
    let (s, prefix) = ("foobar", "foo");
    let rest = strip_prefix(s, prefix).unwrap();
    assert_eq!(format!("{}{}", prefix, rest), s);
    let (s, suffix) = ("foobar", "bar");
    let rest = strip_suffix(s, suffix).unwrap();
    assert_eq!(format!("{}{}", rest, suffix), s);
}

#[test]
fn texts_are_compared_by_their_characters() {
    assert!(same_text("ä€", "ä€"));
    assert!(!same_text("ä", "a"));
    assert!(!same_text("ab", "ac"));
    assert!(same_text("", ""));
}

#[test]
fn numbers_in_decimal() {
    assert_eq!(to_decimal(0), "0");
    assert_eq!(to_decimal(1114112), "1114112");
    assert_eq!(to_decimal(u64::MAX), "18446744073709551615");
}
