use jaq_core::natives;
use jaq_core::time::{from_iso8601, timestamp, timestamp_text, to_iso8601};
use jaq_core::val::{Error, Type, Val, ValR2};
use time::format_description::well_known::iso8601;
use time::OffsetDateTime;

fn fractional(seconds: i64, nanos: u32) -> Val {
    Val::Float((seconds as f64 + f64::from(nanos) * 1e-9).to_bits())
}

fn read(s: &str) -> ValR2<Val> {
    from_iso8601(s, fractional)
}

fn nanos(v: &Val) -> Result<i128, Error<Val>> {
    match v {
        Val::Float(f) => Ok((f64::from_bits(*f) * 1e9).round() as i128),
        v => Err(Error::Type(v.clone(), Type::Int)),
    }
}

fn show(v: &Val) -> String {
    match v {
        Val::Int(i) => i.to_string(),
        v => format!("{:?}", v),
    }
}

fn write(v: &Val) -> Result<String, Error<Val>> {
    to_iso8601(v, nanos, show)
}

#[test]
fn timestamps_are_read_as_integers() {
    assert!(matches!(read("1970-01-02T00:00:00Z"), Ok(Val::Int(86400))));
    assert!(matches!(read("1970-01-01T01:00:00+01:00"), Ok(Val::Int(0))));
    assert!(matches!(read("1969-12-31T23:59:59Z"), Ok(Val::Int(-1))));
}

#[test]
fn timestamps_with_a_decimal_sign_are_read_as_fractions() {
    match read("1970-01-02T00:00:00.123456789Z") {
        Ok(Val::Float(f)) => assert_eq!(f64::from_bits(f), 86400.123456789),
        other => panic!("{:?}", other),
    }
    assert!(matches!(read("1970-01-01T00:00:01.0Z"), Ok(Val::Float(f)) if f == 1f64.to_bits()));
}

#[test]
fn a_comma_is_a_decimal_sign() {
    match read("1970-01-01T00:00:00,5Z") {
        Ok(Val::Float(f)) => assert_eq!(f64::from_bits(f), 0.5),
        other => panic!("{:?}", other),
    }
    assert!(matches!(timestamp("x,y", Ok((2, 0)), fractional), Ok(Val::Float(_))));
}

#[test]
fn other_text_is_no_timestamp() {
    match read("yesterday") {
        Err(Error::Val(Val::Str(s))) => {
            assert!(s.starts_with("cannot parse yesterday as ISO-8601 timestamp: "));
            assert!(s.len() > "cannot parse yesterday as ISO-8601 timestamp: ".len());
        }
        other => panic!("{:?}", other),
    }
}

#[test]
fn outcomes_of_parsing() {
    assert!(matches!(timestamp("x", Ok((-7, 5)), fractional), Ok(Val::Int(-7))));
    assert!(matches!(timestamp("x.y", Ok((2, 0)), fractional), Ok(Val::Float(_))));
    let r: ValR2<Val> = timestamp("x", Err("why".to_string()), fractional);
    assert!(matches!(r, Err(Error::Val(Val::Str(s)))
        if s == "cannot parse x as ISO-8601 timestamp: why"));
}

#[test]
fn integers_are_written_without_fraction() {
    assert_eq!(write(&Val::Int(0)).ok().as_deref(), Some("1970-01-01T00:00:00Z"));
    assert_eq!(write(&Val::Int(-1)).ok().as_deref(), Some("1969-12-31T23:59:59Z"));
    assert_eq!(write(&Val::Int(86400)).ok().as_deref(), Some("1970-01-02T00:00:00Z"));
}

const SECONDS: iso8601::EncodedConfig = iso8601::Config::DEFAULT
    .set_time_precision(iso8601::TimePrecision::Second { decimal_digits: None })
    .encode();

#[test]
fn integers_are_written_as_iso8601_writes_seconds() {
    for i in [-62167219200, -62167219199, -1, 0, 951782400, 1720000000, 253402300799] {
        let d = OffsetDateTime::from_unix_timestamp(i).unwrap();
        let t = d.format(&iso8601::Iso8601::<SECONDS>).unwrap();
        assert_eq!(write(&Val::Int(i as isize)).ok(), Some(t));
    }
}

#[test]
fn fractions_are_written_with_nanoseconds() {
    let float = |f: f64| Val::Float(f.to_bits());
    assert_eq!(
        write(&float(86400.123456789)).ok().as_deref(),
        Some("1970-01-02T00:00:00.123456789Z")
    );
    assert_eq!(write(&float(-0.5)).ok().as_deref(), Some("1969-12-31T23:59:59.500000000Z"));
    assert_eq!(write(&float(1.0)).ok().as_deref(), Some("1970-01-01T00:00:01.000000000Z"));
}

#[test]
fn years_of_more_than_four_digits_are_not_written() {
    let fails = |i: isize| match write(&Val::Int(i)) {
        Err(Error::Val(Val::Str(s))) => {
            s.starts_with(&format!("cannot format {} as ISO-8601 timestamp: ", i))
        }
        _ => false,
    };
    assert!(fails(253402300800));
    assert!(fails(-62167219201));
    assert!(fails(isize::MAX));
    assert!(fails(isize::MIN));
    assert!(!fails(253402300799));
    assert!(!fails(-62167219200));
    let float = |f: f64| write(&Val::Float(f.to_bits()));
    assert!(float(253402300800.0).is_err());
    assert!(float(-62167219200.0).is_ok());
    assert!(float(-62167219201.0).is_err());
    assert!(float(f64::INFINITY).is_err());
}

#[test]
fn values_that_are_no_numbers_are_not_written() {
    assert!(matches!(write(&Val::Null), Err(Error::Type(Val::Null, Type::Int))));
}

#[test]
fn outcomes_of_formatting() {
    let r = timestamp_text(&Val::Int(3), Err("why".to_string()), show);
    assert!(matches!(r, Err(Error::Val(Val::Str(s)))
        if s == "cannot format 3 as ISO-8601 timestamp: why"));
    let r = timestamp_text(&Val::Int(3), Ok("t".to_string()), |_: &Val| panic!("no error"));
    assert_eq!(r.ok().as_deref(), Some("t"));
}

#[test]
fn integers_survive_the_round_trip() {
    let mut ints: Vec<i64> = (-62167219200..=253402300799).step_by(7_654_321_987).collect();
    ints.extend([-62167219200, -62135596801, -1, 0, 1, 68169599, 253402300799]);
    for i in ints {
        let t = write(&Val::Int(i as isize)).ok().unwrap();
        assert!(!t.contains(|c| c == '.' || c == ','));
        assert!(matches!(read(&t), Ok(Val::Int(j)) if j as i64 == i));
    }
}

#[test]
fn filters_for_timestamps() {
    let day = Val::Str("1970-01-02T00:00:00Z".to_string());
    assert!(matches!(natives::fromdateiso8601(&day, fractional), Ok(Val::Int(86400))));
    assert!(matches!(
        natives::fromdateiso8601(&Val::Null, fractional),
        Err(Error::Type(Val::Null, Type::Str))
    ));
    assert!(matches!(
        natives::todateiso8601(&Val::Int(86400), nanos, show),
        Ok(Val::Str(s)) if s == "1970-01-02T00:00:00Z"
    ));
    assert!(natives::todateiso8601(&Val::Int(isize::MAX), nanos, show).is_err());
}

#[test]
fn nanoseconds_survive_the_round_trip() {
    let pair = |s: i64, n: u32| Val::Arr(vec![Val::Int(s as isize), Val::Int(n as isize)]);
    let mut ns: Vec<i128> =
        (0..20_000i128).map(|i| -62_167_219_200_000_000_000 + i * 15_778_475_998_987_654).collect();
    ns.extend((0..20_000i128).map(|i| 1_720_000_000_000_000_000 + i * 49_999));
    ns.extend([0, 1, -1, 999_999_999, 1_000_000_000, -1_000_000_000, -999_999_999]);
    for n in ns {
        let text = to_iso8601(&Val::Null, |_: &Val| Ok(n), show).ok().unwrap();
        assert!(text.contains('.'));
        match from_iso8601(&text, pair) {
            Ok(Val::Arr(a)) => match (&a[0], &a[1]) {
                (Val::Int(s), Val::Int(f)) => {
                    assert_eq!(*s as i128 * 1_000_000_000 + *f as i128, n);
                    assert!((0..1_000_000_000).contains(f));
                }
                other => panic!("{:?}", other),
            },
            other => panic!("{:?}", other),
        }
    }
}
