use configparser::ArgTag;
use configparser::ConfigParser;
use configparser::ParseError;

fn to_lines(src: &[&str]) -> Vec<Vec<u8>> {
    src.iter().map(|s| s.as_bytes().to_vec()).collect()
}

fn parse_ok(src: &[&str]) -> ConfigParser {
    match ConfigParser::new().parse(&to_lines(src)) {
        Ok(p) => p,
        Err(e) => panic!("parse failed: {:?}", e),
    }
}

fn parse_err(src: &[&str]) -> ParseError {
    match ConfigParser::new().parse(&to_lines(src)) {
        Ok(_) => panic!("parse unexpectedly succeeded"),
        Err(e) => e,
    }
}

#[test]
fn scenario_int_then_str() {
    let p = parse_ok(&["#int", "x := 5", "#str", "y := hi"]);
    assert_eq!(p.get_integer(b"x").unwrap(), 5);
    assert_eq!(p.get_string(b"y").unwrap(), b"hi".to_vec());
}

#[test]
fn scenario_bool_yes_fails() {
    let e = parse_err(&["#bool", "flag := yes"]);
    match e {
        ParseError::InvalidBooleanLiteral { line, content } => {
            assert_eq!(line, 2);
            assert_eq!(content, b"flag := yes".to_vec());
        }
        other => panic!("wrong error: {:?}", other),
    }
}

#[test]
fn scenario_assignment_before_directive() {
    let e = parse_err(&["x := 5"]);
    match e {
        ParseError::NoTypeDeclared { line } => assert_eq!(line, 1),
        other => panic!("wrong error: {:?}", other),
    }
}

#[test]
fn scenario_vector_is_documented_gap() {
    let p = parse_ok(&["#vec", "v := 1,2,3"]);
    assert!(p.get_arg(b"v").is_err());
    assert!(p.get_vector(b"v").is_err());
}

#[test]
fn unknown_directive_fails() {
    let e = parse_err(&["#nope"]);
    match e {
        ParseError::UnknownTypeDirective { line, content } => {
            assert_eq!(line, 1);
            assert_eq!(content, b"#nope".to_vec());
        }
        other => panic!("wrong error: {:?}", other),
    }
}

#[test]
fn last_write_wins_across_types() {
    let p = parse_ok(&["#int", "x := 1", "#str", "x := two"]);
    assert_eq!(p.get_string(b"x").unwrap(), b"two".to_vec());
    match p.get_integer(b"x") {
        Err(configparser::AccessError::TypeMismatch {
            name,
            expected,
            actual,
        }) => {
            assert_eq!(name, b"x".to_vec());
            assert_eq!(expected, ArgTag::INTEGER);
            assert_eq!(actual, ArgTag::STRING);
        }
        other => panic!("wrong result: {:?}", other),
    }
}

#[test]
fn last_write_wins_same_type() {
    let p = parse_ok(&["#int", "x := 1", "x := 2"]);
    assert_eq!(p.get_integer(b"x").unwrap(), 2);
}

#[test]
fn get_is_idempotent() {
    let p = parse_ok(&["#int", "n := -17"]);
    assert_eq!(p.get_integer(b"n").unwrap(), -17);
    assert_eq!(p.get_integer(b"n").unwrap(), -17);
    let a = p.get_arg(b"n").unwrap();
    let b = p.get_arg(b"n").unwrap();
    assert_eq!(a.inner_integer(), b.inner_integer());
}

#[test]
fn integer_agrees_with_std_parser() {
    let raws = ["0", "42", "+42", "-42", "9223372036854775807", "-9223372036854775808", "007"];
    for raw in raws {
        let p = parse_ok(&["#int", &format!("x := {}", raw)]);
        assert_eq!(p.get_integer(b"x").unwrap(), raw.parse::<i64>().unwrap());
    }
}

#[test]
fn integer_rejects_what_std_rejects() {
    let raws = ["9223372036854775808", "-9223372036854775809", "1e3", "--1", "+", "ten", "1 2"];
    for raw in raws {
        assert!(raw.parse::<i64>().is_err());
        let e = parse_err(&["#int", &format!("x := {}", raw)]);
        assert!(matches!(e, ParseError::InvalidIntegerLiteral { line: 2, .. }));
    }
}

#[test]
fn float_literal_agrees_with_std_parser() {
    let raws = ["1.5e3", "-0.25", ".5", "5.", "inf", "-INFINITY", "NaN", "+2E-4", "3"];
    for raw in raws {
        let p = parse_ok(&["#float", &format!("f := {}", raw)]);
        let lit = p.get_float(b"f").unwrap();
        assert_eq!(lit, raw.as_bytes().to_vec());
        let parsed = String::from_utf8(lit).unwrap().parse::<f64>().unwrap();
        let direct = raw.parse::<f64>().unwrap();
        assert!(parsed == direct || (parsed.is_nan() && direct.is_nan()));
    }
}

#[test]
fn float_rejects_what_std_rejects() {
    let raws = ["1.2.3", "e5", ".", "1e", "infinit", "nanx", "1,5", "- 1.0"];
    for raw in raws {
        assert!(raw.parse::<f64>().is_err());
        let e = parse_err(&["#float", &format!("f := {}", raw)]);
        assert!(matches!(e, ParseError::InvalidFloatLiteral { line: 2, .. }));
    }
}

#[test]
fn bool_literals_are_case_sensitive() {
    let p = parse_ok(&["#bool", "a := true", "b := false"]);
    assert_eq!(p.get_bool(b"a").unwrap(), true);
    assert_eq!(p.get_bool(b"b").unwrap(), false);
    let e = parse_err(&["#bool", "c := True"]);
    assert!(matches!(e, ParseError::InvalidBooleanLiteral { line: 2, .. }));
}

#[test]
fn malformed_assignment_sides() {
    let e = parse_err(&["#int", " := 5"]);
    assert!(matches!(e, ParseError::MalformedAssignment { line: 2, .. }));
    let e = parse_err(&["#int", "x := "]);
    assert!(matches!(e, ParseError::MalformedAssignment { line: 2, .. }));
}

#[test]
fn unrecognized_line_fails() {
    let e = parse_err(&["#int", "garbage"]);
    match e {
        ParseError::UnrecognizedLine { line, content } => {
            assert_eq!(line, 2);
            assert_eq!(content, b"garbage".to_vec());
        }
        other => panic!("wrong error: {:?}", other),
    }
}

#[test]
fn comments_and_blanks_are_ignored() {
    let p = parse_ok(&["// a comment", "", "   ", "#int", "x := 7", "// trailing"]);
    assert_eq!(p.get_integer(b"x").unwrap(), 7);
}

#[test]
fn directives_are_case_insensitive_and_trimmed() {
    let p = parse_ok(&["#INT", "a := 1", "#StRiNg  ", "b := t", "#FLOAT", "c := 1.0", "#Bool", "d := true"]);
    assert_eq!(p.get_integer(b"a").unwrap(), 1);
    assert_eq!(p.get_string(b"b").unwrap(), b"t".to_vec());
    assert_eq!(p.get_float(b"c").unwrap(), b"1.0".to_vec());
    assert_eq!(p.get_bool(b"d").unwrap(), true);
}

#[test]
fn assignment_sides_are_trimmed_inner_spaces_kept() {
    let p = parse_ok(&["#str", "  x   :=   hello world  "]);
    assert_eq!(p.get_string(b"x").unwrap(), b"hello world".to_vec());
}

#[test]
fn string_value_taken_verbatim() {
    let p = parse_ok(&["#str", "s := a:b=c//d#e"]);
    assert_eq!(p.get_string(b"s").unwrap(), b"a:b=c//d#e".to_vec());
}

#[test]
fn directive_replaces_prior_directive() {
    let p = parse_ok(&["#int", "#bool", "x := true"]);
    assert_eq!(p.get_bool(b"x").unwrap(), true);
}

#[test]
fn empty_input_yields_empty_store() {
    let p = parse_ok(&[]);
    assert!(matches!(
        p.get_arg(b"x"),
        Err(configparser::AccessError::MissingKey { .. })
    ));
}

#[test]
fn new_parser_is_empty() {
    let p = ConfigParser::new();
    assert!(p.get_arg(b"anything").is_err());
}

#[test]
fn missing_key_reports_name() {
    let p = parse_ok(&["#int", "x := 1"]);
    match p.get_string(b"y") {
        Err(configparser::AccessError::MissingKey { name }) => {
            assert_eq!(name, b"y".to_vec());
        }
        other => panic!("wrong result: {:?}", other),
    }
}

#[test]
fn first_error_aborts_whole_parse() {
    // The bad boolean on line 2 is reported even though later lines are fine.
    let e = parse_err(&["#bool", "a := maybe", "#int", "b := 1"]);
    assert!(matches!(e, ParseError::InvalidBooleanLiteral { line: 2, .. }));
}
