use dtui::error::{ErrorKind, Expected, ParseError};
use dtui::parser::get_parser;
use dtui::signature::Signature;
use dtui::value::Value;

fn test_generic_signature(src: &str, signature: &str, value: Value) {
    let signature = Signature::decode(signature).unwrap();
    println!("{:?}", signature);
    let result = get_parser(signature).unwrap().parse(src.trim());
    assert_eq!(result, Ok(value));
}

fn text(s: &str) -> Value {
    Value::Str(s.to_string())
}

fn int_array(items: &[i32]) -> Value {
    Value::Array(Signature::I32, items.iter().map(|n| Value::I32(*n)).collect())
}

#[test]
fn test_numbers() {
    test_generic_signature("5", "y", Value::U8(5));
    test_generic_signature("5", "n", Value::I16(5));
    test_generic_signature("-5", "n", Value::I16(-5));
    test_generic_signature("5", "q", Value::U16(5));
    test_generic_signature("5", "i", Value::I32(5));
    test_generic_signature("-5", "i", Value::I32(-5));
    test_generic_signature("5", "u", Value::U32(5));
    test_generic_signature("5", "x", Value::I64(5));
    test_generic_signature("-5", "x", Value::I64(-5));
    test_generic_signature("5", "t", Value::U64(5));
}

#[test]
fn test_float() {
    test_generic_signature("5.0", "d", Value::F64("5.0".to_string()));
    let parsed = get_parser(Signature::F64).unwrap().parse("5.0").unwrap();
    match parsed {
        Value::F64(literal) => assert_eq!(literal.parse::<f64>().unwrap(), 5.0),
        other => panic!("not a float: {:?}", other),
    }
}

#[test]
fn test_string() {
    test_generic_signature(r#""asd""#, "s", text("asd"));
}

#[test]
fn test_signature() {
    test_generic_signature(r#""s""#, "g", Value::Signature("s".to_string()));
    test_generic_signature(r#""(ss)""#, "g", Value::Signature("(ss)".to_string()));
    test_generic_signature(r#""as""#, "g", Value::Signature("as".to_string()));
    let signature = Signature::decode("g").unwrap();
    let result = get_parser(signature).unwrap().parse("k"); // k is not a valid signature
    assert!(result.is_err());
}

#[test]
fn test_object_path() {
    test_generic_signature(r#""/""#, "o", Value::ObjectPath("/".to_string()));
    test_generic_signature(r#""/test""#, "o", Value::ObjectPath("/test".to_string()));
    test_generic_signature(r#""/test/test2""#, "o", Value::ObjectPath("/test/test2".to_string()));

    let signature = Signature::decode("o").unwrap();
    let result = get_parser(signature).unwrap().parse("k"); // k is not a valid object path
    assert!(result.is_err());
    let signature = Signature::decode("o").unwrap();
    let result = get_parser(signature).unwrap().parse("//"); // // is not a valid object path
    assert!(result.is_err());
}

#[test]
fn test_bool() {
    test_generic_signature("true", "b", Value::Bool(true));
    test_generic_signature("false", "b", Value::Bool(false));
}

#[test]
fn test_array() {
    test_generic_signature("[1,2,3,4]", "ai", int_array(&[1, 2, 3, 4]));
    // One element
    test_generic_signature("[1]", "ai", int_array(&[1]));
    // array of array
    let expected = Value::Array(
        Signature::Array(Box::new(Signature::I32)),
        vec![int_array(&[1]), int_array(&[2]), int_array(&[3]), int_array(&[4])],
    );
    test_generic_signature("[[1],[2],[3],[4]]", "aai", expected);
    // array of strings
    test_generic_signature(
        r#"["a","b","c","d"]"#,
        "as",
        Value::Array(Signature::Str, vec![text("a"), text("b"), text("c"), text("d")]),
    );
}

#[test]
fn test_dict() {
    test_generic_signature(
        r#"{"a": "b", "c":"d"}"#,
        "a{ss}",
        Value::Dict(
            Signature::Str,
            Signature::Str,
            vec![(text("a"), text("b")), (text("c"), text("d"))],
        ),
    )
}

#[test]
fn test_struct() {
    test_generic_signature(
        r#"("5", 1)"#,
        "(si)",
        Value::Structure(vec![text("5"), Value::I32(1)]),
    );
}

#[test]
fn test_variant() {
    test_generic_signature(r#""u"->5"#, "v", Value::Variant(Box::new(Value::U32(5))));
}

fn parse(signature: &str, src: &str) -> Result<Value, Vec<ParseError>> {
    get_parser(Signature::decode(signature).unwrap()).unwrap().parse(src)
}

fn error(kind: ErrorKind, offset: usize, expected: Expected) -> ParseError {
    ParseError { kind, offset, expected }
}

#[test]
fn quoted_signature_that_is_not_legal_is_a_semantic_error() {
    assert_eq!(
        parse("g", "\"k\""),
        Err(vec![error(ErrorKind::SemanticValidationError, 0, Expected::SignatureText)])
    );
}

#[test]
fn quoted_path_with_two_slashes_is_a_semantic_error() {
    assert_eq!(
        parse("o", "\"//\""),
        Err(vec![error(ErrorKind::SemanticValidationError, 0, Expected::ObjectPathText)])
    );
    assert!(parse("o", "\"/a/\"").is_err());
    assert!(parse("o", "\"\"").is_err());
    assert!(parse("o", "\"a\"").is_err());
    assert!(parse("o", "\"/a.b\"").is_err());
    assert_eq!(parse("o", "\"/a_b/C9\""), Ok(Value::ObjectPath("/a_b/C9".to_string())));
}

#[test]
fn structure_with_wrong_arity_is_a_structural_error() {
    assert_eq!(
        parse("(si)", "(\"5\")"),
        Err(vec![error(ErrorKind::StructuralError, 4, Expected::StructureComma)])
    );
    assert_eq!(
        parse("(si)", "(\"5\",1,2)"),
        Err(vec![error(ErrorKind::StructuralError, 6, Expected::StructureClose)])
    );
    assert_eq!(
        parse("(si)", "(\"5\", 1"),
        Err(vec![error(ErrorKind::StructuralError, 7, Expected::StructureClose)])
    );
}

#[test]
fn integer_limits() {
    assert_eq!(parse("y", "255"), Ok(Value::U8(255)));
    assert_eq!(parse("y", "0"), Ok(Value::U8(0)));
    assert_eq!(
        parse("y", "256"),
        Err(vec![error(ErrorKind::RangeError, 0, Expected::Integer(dtui::error::IntegerKind::U8))])
    );
    assert_eq!(parse("n", "32767"), Ok(Value::I16(32767)));
    assert_eq!(parse("n", "-32768"), Ok(Value::I16(-32768)));
    assert!(parse("n", "32768").is_err());
    assert!(parse("n", "-32769").is_err());
    assert_eq!(parse("q", "65535"), Ok(Value::U16(65535)));
    assert!(parse("q", "65536").is_err());
    assert_eq!(parse("i", "2147483647"), Ok(Value::I32(i32::MAX)));
    assert_eq!(parse("i", "-2147483648"), Ok(Value::I32(i32::MIN)));
    assert!(parse("i", "2147483648").is_err());
    assert!(parse("i", "-2147483649").is_err());
    assert_eq!(parse("u", "4294967295"), Ok(Value::U32(u32::MAX)));
    assert!(parse("u", "4294967296").is_err());
    assert_eq!(parse("x", "9223372036854775807"), Ok(Value::I64(i64::MAX)));
    assert_eq!(parse("x", "-9223372036854775808"), Ok(Value::I64(i64::MIN)));
    assert!(parse("x", "9223372036854775808").is_err());
    assert!(parse("x", "-9223372036854775809").is_err());
    assert_eq!(parse("t", "18446744073709551615"), Ok(Value::U64(u64::MAX)));
    assert!(parse("t", "18446744073709551616").is_err());
    assert!(parse("t", "99999999999999999999999999999999999999999").is_err());
    assert_eq!(parse("t", "000000000000000000000000000000000000000007"), Ok(Value::U64(7)));
    assert_eq!(parse("n", "-0"), Ok(Value::I16(0)));
}

#[test]
fn unsigned_integer_takes_no_sign() {
    assert_eq!(
        parse("u", "-5"),
        Err(vec![error(ErrorKind::LexicalError, 0, Expected::Digit)])
    );
    assert_eq!(
        parse("i", "-"),
        Err(vec![error(ErrorKind::LexicalError, 1, Expected::Digit)])
    );
    assert!(parse("i", "+5").is_err());
    assert!(parse("i", "").is_err());
}

#[test]
fn bool_is_case_sensitive() {
    assert_eq!(
        parse("b", "True"),
        Err(vec![error(ErrorKind::LexicalError, 0, Expected::Bool)])
    );
    assert_eq!(parse("b", "  true  "), Ok(Value::Bool(true)));
    assert!(parse("b", "tru").is_err());
}

#[test]
fn float_literals() {
    assert_eq!(parse("d", "-12.50"), Ok(Value::F64("-12.50".to_string())));
    assert_eq!(parse("d", "7"), Ok(Value::F64("7".to_string())));
    assert_eq!(parse("d", " 7.25 "), Ok(Value::F64("7.25".to_string())));
    assert_eq!(parse("d", "7."), Ok(Value::F64("7".to_string())));
    assert_eq!(
        parse("d", ".5"),
        Err(vec![error(ErrorKind::LexicalError, 0, Expected::Digit)])
    );
}

#[test]
fn string_escapes() {
    assert_eq!(
        parse("s", r#""a\\b\/c\"d\b\f\n\r\tAé""#),
        Ok(text("a\\b/c\"d\u{8}\u{c}\n\r\tA\u{e9}"))
    );
    assert_eq!(parse("s", "\"\""), Ok(text("")));
    assert_eq!(parse("s", "\"a b\""), Ok(text("a b")));
}

#[test]
fn surrogate_escape_is_replaced_and_reported() {
    assert_eq!(
        parse("s", r#""a\ud800b""#),
        Err(vec![error(ErrorKind::LexicalError, 2, Expected::UnicodeScalar)])
    );
    assert_eq!(
        parse("as", r#"["\udfff", 5]"#),
        Err(vec![
            error(ErrorKind::LexicalError, 2, Expected::UnicodeScalar),
            error(ErrorKind::LexicalError, 11, Expected::OpeningQuote),
        ])
    );
}

#[test]
fn malformed_string_skips_to_the_next_closer() {
    assert_eq!(
        parse("aas", r#"[[abc], [def]]"#),
        Err(vec![
            error(ErrorKind::LexicalError, 2, Expected::OpeningQuote),
            error(ErrorKind::LexicalError, 9, Expected::OpeningQuote),
        ])
    );
    assert_eq!(
        parse("s", "abc"),
        Err(vec![error(ErrorKind::LexicalError, 0, Expected::OpeningQuote)])
    );
    assert_eq!(
        parse("s", "\"abc"),
        Err(vec![error(ErrorKind::LexicalError, 4, Expected::ClosingQuote)])
    );
    assert_eq!(
        parse("as", r#"["a\x", "b"]"#),
        Err(vec![error(ErrorKind::LexicalError, 4, Expected::Escape)])
    );
    assert_eq!(
        parse("as", r#"["\u12G4"]"#),
        Err(vec![error(ErrorKind::LexicalError, 6, Expected::HexDigit)])
    );
}

#[test]
fn signature_and_path_do_not_recover() {
    assert_eq!(
        parse("ag", r#"[s, "i"]"#),
        Err(vec![error(ErrorKind::LexicalError, 1, Expected::OpeningQuote)])
    );
    assert_eq!(
        parse("ao", r#"[/a, "/b"]"#),
        Err(vec![error(ErrorKind::LexicalError, 1, Expected::OpeningQuote)])
    );
}

#[test]
fn empty_composites() {
    assert_eq!(parse("ai", "[]"), Ok(int_array(&[])));
    assert_eq!(parse("ai", " [ ] "), Ok(int_array(&[])));
    assert_eq!(
        parse("a{ss}", "{}"),
        Ok(Value::Dict(Signature::Str, Signature::Str, vec![]))
    );
}

#[test]
fn white_space_around_every_token() {
    assert_eq!(parse("ai", " [ 1 , 2 ,3 ] "), Ok(int_array(&[1, 2, 3])));
    assert_eq!(
        parse("a{si}", " { \"a\" : 1 , \"b\" : 2 } "),
        Ok(Value::Dict(
            Signature::Str,
            Signature::I32,
            vec![(text("a"), Value::I32(1)), (text("b"), Value::I32(2))]
        ))
    );
    assert_eq!(
        parse("(si)", " ( \"5\" , 1 ) "),
        Ok(Value::Structure(vec![text("5"), Value::I32(1)]))
    );
    assert_eq!(
        parse("v", " \"u\" -> 5 "),
        Ok(Value::Variant(Box::new(Value::U32(5))))
    );
    assert_eq!(parse("aai", "[[1] , [2]]").is_ok(), true);
}

#[test]
fn array_errors() {
    assert_eq!(
        parse("ai", "1,2]"),
        Err(vec![error(ErrorKind::StructuralError, 0, Expected::ArrayOpen)])
    );
    assert_eq!(
        parse("ai", "[1,2"),
        Err(vec![error(ErrorKind::StructuralError, 4, Expected::ArrayNext)])
    );
    assert_eq!(
        parse("ai", "[1 2]"),
        Err(vec![error(ErrorKind::StructuralError, 3, Expected::ArrayNext)])
    );
    assert_eq!(
        parse("ai", "[1,]"),
        Err(vec![error(ErrorKind::LexicalError, 3, Expected::Digit)])
    );
    assert_eq!(
        parse("ai", "[1,x,3]"),
        Err(vec![error(ErrorKind::LexicalError, 3, Expected::Digit)])
    );
}

#[test]
fn dict_errors() {
    assert_eq!(
        parse("a{si}", "{\"a\" 1}"),
        Err(vec![error(ErrorKind::StructuralError, 5, Expected::DictColon)])
    );
    assert_eq!(
        parse("a{si}", "{\"a\": 1"),
        Err(vec![error(ErrorKind::StructuralError, 7, Expected::DictNext)])
    );
    assert_eq!(
        parse("a{si}", "\"a\": 1}"),
        Err(vec![error(ErrorKind::StructuralError, 0, Expected::DictOpen)])
    );
}

#[test]
fn later_duplicate_key_overwrites() {
    assert_eq!(
        parse("a{si}", r#"{"a": 1, "b": 2, "a": 3}"#),
        Ok(Value::Dict(
            Signature::Str,
            Signature::I32,
            vec![(text("a"), Value::I32(3)), (text("b"), Value::I32(2))]
        ))
    );
}

#[test]
fn variant_errors() {
    assert_eq!(
        parse("v", "\"u\" 5"),
        Err(vec![error(ErrorKind::StructuralError, 4, Expected::Arrow)])
    );
    assert_eq!(
        parse("v", "\"k\"->5"),
        Err(vec![error(ErrorKind::SemanticValidationError, 0, Expected::SignatureText)])
    );
    assert_eq!(
        parse("v", "\"h\"->5"),
        Err(vec![error(ErrorKind::UnsupportedTypeError, 5, Expected::LiteralType)])
    );
    assert_eq!(
        parse("v", "\"\"->5"),
        Err(vec![error(ErrorKind::UnsupportedTypeError, 4, Expected::LiteralType)])
    );
    assert_eq!(
        parse("v", "\"y\"->256"),
        Err(vec![error(
            ErrorKind::RangeError,
            5,
            Expected::Integer(dtui::error::IntegerKind::U8)
        )])
    );
}

#[test]
fn nested_variant() {
    assert_eq!(
        parse("v", r#""v"->"as"->["x"]"#),
        Ok(Value::Variant(Box::new(Value::Variant(Box::new(Value::Array(
            Signature::Str,
            vec![text("x")]
        ))))))
    );
    assert_eq!(
        parse("v", r#""ii"->(1,2)"#),
        Ok(Value::Variant(Box::new(Value::Structure(vec![Value::I32(1), Value::I32(2)]))))
    );
}

#[test]
fn descriptor_has_no_literal() {
    assert_eq!(
        parse("h", "5"),
        Err(vec![error(ErrorKind::UnsupportedTypeError, 0, Expected::LiteralType)])
    );
    assert_eq!(
        parse("ah", "[5]"),
        Err(vec![error(ErrorKind::UnsupportedTypeError, 1, Expected::LiteralType)])
    );
}

#[test]
fn unit_has_no_parser() {
    assert!(get_parser(Signature::Unit).is_err());
    assert!(get_parser(Signature::Array(Box::new(Signature::Unit))).is_err());
    assert!(get_parser(Signature::Structure(vec![Signature::I32, Signature::Unit])).is_err());
    assert!(get_parser(Signature::Dict(Box::new(Signature::Str), Box::new(Signature::Unit))).is_err());
    assert!(get_parser(Signature::Structure(vec![Signature::I32])).is_ok());
}

#[test]
fn parsing_twice_gives_the_same() {
    let parser = get_parser(Signature::decode("a{s(iv)}").unwrap()).unwrap();
    let src = r#"{"a": (1, "as"->["x", "y"]), "b": (2, "d"->0.5)}"#;
    let first = parser.parse(src);
    let second = parser.parse(src);
    assert!(first.is_ok());
    assert_eq!(first, second);
    let bad = r#"{"a": (1, "as"->[x, "y"]), "b": (2, "d"->0.5)"#;
    let first = parser.parse(bad);
    let second = parser.parse(bad);
    assert!(first.is_err());
    assert_eq!(first, second);
}

#[test]
fn what_follows_the_literal_is_not_read() {
    assert_eq!(parse("y", "5 apples"), Ok(Value::U8(5)));
    assert_eq!(parse("ai", "[1]]"), Ok(int_array(&[1])));
}

#[test]
fn unicode_escapes() {
    assert_eq!(parse("s", r#""\u0041\u00e9\u20AC\uFFFF""#), Ok(text("A\u{e9}\u{20ac}\u{ffff}")));
    assert_eq!(parse("s", r#""\ud7ff\ue000""#), Ok(text("\u{d7ff}\u{e000}")));
    assert_eq!(
        parse("s", r#""\udfff""#),
        Err(vec![error(ErrorKind::LexicalError, 1, Expected::UnicodeScalar)])
    );
    assert_eq!(
        parse("s", r#""\u00"#),
        Err(vec![error(ErrorKind::LexicalError, 5, Expected::HexDigit)])
    );
}

#[test]
fn every_kind_of_white_space_is_skipped() {
    let spaces = "\t\n\u{b}\u{c}\r \u{85}\u{a0}\u{1680}\u{2000}\u{2005}\u{200a}\u{2028}\u{2029}\u{202f}\u{205f}\u{3000}";
    let src = format!("{}[{}1{},{}2{}]{}", spaces, spaces, spaces, spaces, spaces, spaces);
    assert_eq!(parse("ai", &src), Ok(int_array(&[1, 2])));
    assert_eq!(
        parse("i", "\u{200b}1"),
        Err(vec![error(ErrorKind::LexicalError, 0, Expected::Digit)])
    );
}

#[test]
fn a_copy_of_a_parser_reads_the_same() {
    let parser = get_parser(Signature::decode("a{s(iv)}").unwrap()).unwrap();
    let copy = parser.clone();
    let src = r#"{"a": (1, "as"->["x", "y"])}"#;
    assert_eq!(parser.parse(src), copy.parse(src));
    assert!(copy.parse(src).is_ok());
    let chars: Vec<char> = src.chars().collect();
    assert_eq!(parser.parse_chars(&chars), parser.parse(src));
    assert_eq!(copy.signature().encode(), "a{s(iv)}");
}
