use configparser::ArgType;
use configparser::LineKind;
use configparser::ParseError;
use configparser::bytes::bytes_eq;
use configparser::bytes::find_sep_bytes;
use configparser::bytes::lower_bytes;
use configparser::bytes::trim_bytes;
use configparser::parser::classify;
use configparser::parser::coerce;
use configparser::parser::resolve_type;
use configparser::parser::split_assignment;
use configparser::values::ArgTag;
use configparser::values::check_float;
use configparser::values::parse_bool;
use configparser::values::parse_i64;

#[test]
fn classify_follows_rule_order() {
    assert!(matches!(classify(b"#int", 1), Ok(LineKind::TYPE)));
    assert!(matches!(classify(b"#garbage", 1), Ok(LineKind::TYPE)));
    assert!(matches!(classify(b"// x := 1", 1), Ok(LineKind::COMMENT)));
    assert!(matches!(classify(b"", 1), Ok(LineKind::BLANK)));
    assert!(matches!(classify(b" \t ", 1), Ok(LineKind::BLANK)));
    assert!(matches!(classify(b"x := 1", 1), Ok(LineKind::ARGUMENT)));
    match classify(b"plain text", 7) {
        Err(ParseError::UnrecognizedLine { line, content }) => {
            assert_eq!(line, 7);
            assert_eq!(content, b"plain text".to_vec());
        }
        other => panic!("wrong result: {:?}", other),
    }
}

#[test]
fn comment_must_lead_the_line() {
    // A slash pair after other text does not make a comment.
    assert!(matches!(classify(b"x := 1 // note", 1), Ok(LineKind::ARGUMENT)));
    assert!(matches!(classify(b" // indented", 1), Err(_)));
}

#[test]
fn resolve_covers_the_fixed_table() {
    let table: [(&[u8], ArgTag); 6] = [
        (b"#int", ArgTag::INTEGER),
        (b"#str", ArgTag::STRING),
        (b"#string", ArgTag::STRING),
        (b"#bool", ArgTag::BOOL),
        (b"#float", ArgTag::FLOAT),
        (b"#vec", ArgTag::VECTOR),
    ];
    for (kw, tag) in table {
        match resolve_type(kw, 1) {
            Ok(marker) => assert_eq!(marker.tag(), tag),
            Err(e) => panic!("rejected {:?}: {:?}", kw, e),
        }
    }
    assert!(resolve_type(b"#integer", 1).is_err());
    assert!(resolve_type(b"int", 1).is_err());
}

#[test]
fn resolve_yields_empty_marker() {
    match resolve_type(b"#int", 1) {
        Ok(marker) => assert!(marker.inner_integer().is_none()),
        Err(e) => panic!("rejected: {:?}", e),
    }
}

#[test]
fn split_takes_first_separator() {
    match split_assignment(b"a := b := c") {
        Some((name, value)) => {
            assert_eq!(name, b"a".to_vec());
            assert_eq!(value, b"b := c".to_vec());
        }
        None => panic!("split failed"),
    }
    assert!(split_assignment(b"no separator").is_none());
    assert!(split_assignment(b" := v").is_none());
    assert!(split_assignment(b"n := ").is_none());
}

#[test]
fn coerce_dispatches_on_tag() {
    match coerce(ArgTag::INTEGER, b"x := 5", 1) {
        Ok(Some((name, ArgType::INTEGER(Some(5))))) => assert_eq!(name, b"x".to_vec()),
        other => panic!("wrong result: {:?}", other),
    }
    match coerce(ArgTag::STRING, b"x := 5", 1) {
        Ok(Some((_, val))) => assert_eq!(val.inner_string().unwrap(), b"5".to_vec()),
        other => panic!("wrong result: {:?}", other),
    }
    assert!(matches!(coerce(ArgTag::VECTOR, b"x := 1,2", 1), Ok(None)));
    assert!(matches!(
        coerce(ArgTag::BOOL, b"x := 5", 3),
        Err(ParseError::InvalidBooleanLiteral { line: 3, .. })
    ));
}

#[test]
fn parse_i64_exact_values() {
    assert_eq!(parse_i64(b"0"), Some(0));
    assert_eq!(parse_i64(b"-0"), Some(0));
    assert_eq!(parse_i64(b"+123"), Some(123));
    assert_eq!(parse_i64(b"000123"), Some(123));
    assert_eq!(parse_i64(b"9223372036854775807"), Some(i64::MAX));
    assert_eq!(parse_i64(b"-9223372036854775808"), Some(i64::MIN));
    assert_eq!(parse_i64(b"9223372036854775808"), None);
    assert_eq!(parse_i64(b"-9223372036854775809"), None);
    assert_eq!(parse_i64(b""), None);
    assert_eq!(parse_i64(b"+"), None);
    assert_eq!(parse_i64(b"12a"), None);
    assert_eq!(parse_i64(b" 1"), None);
}

#[test]
fn parse_bool_exact_tokens() {
    assert_eq!(parse_bool(b"true"), Some(true));
    assert_eq!(parse_bool(b"false"), Some(false));
    assert_eq!(parse_bool(b"TRUE"), None);
    assert_eq!(parse_bool(b"1"), None);
    assert_eq!(parse_bool(b""), None);
}

#[test]
fn check_float_follows_the_grammar() {
    for ok in ["1", "1.", ".1", "1.5", "-1.5e-10", "+.5E+2", "inf", "Infinity", "NAN", "-inf"] {
        assert!(check_float(ok.as_bytes()), "rejected {}", ok);
        assert!(ok.parse::<f64>().is_ok());
    }
    for bad in ["", "+", ".", "1..2", "1e1.5", "0x1", "in", "infinityy"] {
        assert!(!check_float(bad.as_bytes()), "accepted {}", bad);
        assert!(bad.parse::<f64>().is_err());
    }
}

#[test]
fn trim_and_lower_and_eq() {
    assert_eq!(trim_bytes(b"  \t a b \r\n"), b"a b".to_vec());
    assert_eq!(trim_bytes(b"   "), Vec::<u8>::new());
    assert_eq!(trim_bytes(b"x"), b"x".to_vec());
    assert_eq!(lower_bytes(b"#StR9?"), b"#str9?".to_vec());
    assert!(bytes_eq(b"abc", b"abc"));
    assert!(!bytes_eq(b"abc", b"abd"));
    assert!(!bytes_eq(b"abc", b"ab"));
}

#[test]
fn typed_values_expose_their_payloads() {
    let s = ArgType::STRING(Some(b"hi".to_vec()));
    assert_eq!(s.tag(), ArgTag::STRING);
    assert_eq!(s.duplicate().inner_string(), Some(b"hi".to_vec()));
    let f = ArgType::FLOAT(Some(b"2.5".to_vec()));
    assert_eq!(f.tag(), ArgTag::FLOAT);
    assert_eq!(f.duplicate().inner_float(), Some(b"2.5".to_vec()));
    assert_eq!(f.inner_bool(), None);
    let b = ArgType::BOOL(Some(true));
    assert_eq!(b.inner_bool(), Some(true));
    let v = ArgType::VECTOR(Some(vec![1, 2, 3]));
    assert_eq!(v.duplicate().inner_vector(), Some(vec![1, 2, 3]));
    assert_eq!(ArgType::INTEGER(None).inner_integer(), None);
}

#[test]
fn find_sep_reports_first_occurrence() {
    assert_eq!(find_sep_bytes(b"a := b"), Some(2));
    assert_eq!(find_sep_bytes(b":="), Some(0));
    assert_eq!(find_sep_bytes(b"a = b"), None);
    assert_eq!(find_sep_bytes(b":"), None);
}
