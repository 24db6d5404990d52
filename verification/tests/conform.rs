use dtui::conform::{is_codable, is_float_text};
use dtui::error::{Expected, IntegerKind};
use dtui::parser::{get_parser, insert_entry};
use dtui::signature::Signature;
use dtui::value::Value;

fn text(s: &str) -> Value {
    Value::Str(s.to_string())
}

#[test]
fn float_texts() {
    for good in ["0", "-0", "12", "1.5", "-1.50", "007.250"] {
        assert!(is_float_text(good), "{}", good);
    }
    for bad in ["", "-", ".", ".5", "5.", "1.5.2", "1e5", "+1", " 1", "1 ", "--1", "1-", "a"] {
        assert!(!is_float_text(bad), "{}", bad);
    }
}

#[test]
fn codable_signatures() {
    assert!(is_codable(&Signature::decode("a{s(iv)}").unwrap()));
    assert!(!is_codable(&Signature::Unit));
    assert!(!is_codable(&Signature::Structure(vec![])));
    assert!(!is_codable(&Signature::Array(Box::new(Signature::Structure(vec![])))));
    assert!(!is_codable(&Signature::Dict(Box::new(Signature::Str), Box::new(Signature::Unit))));
}

#[test]
fn well_formed_values() {
    assert!(Value::U8(1).is_well_formed());
    assert!(Value::F64("1.5".to_string()).is_well_formed());
    assert!(!Value::F64("1.".to_string()).is_well_formed());
    assert!(Value::Signature("a{sv}".to_string()).is_well_formed());
    assert!(!Value::Signature("k".to_string()).is_well_formed());
    assert!(Value::ObjectPath("/a".to_string()).is_well_formed());
    assert!(!Value::ObjectPath("/a/".to_string()).is_well_formed());
    assert!(Value::Array(Signature::Str, vec![text("a")]).is_well_formed());
    assert!(!Value::Array(Signature::Str, vec![text("a"), Value::U8(1)]).is_well_formed());
    assert!(!Value::Array(Signature::Str, vec![Value::F64("x".to_string())]).is_well_formed());
    let dict = |entries| Value::Dict(Signature::Str, Signature::U8, entries);
    assert!(dict(vec![(text("a"), Value::U8(1)), (text("b"), Value::U8(1))]).is_well_formed());
    assert!(!dict(vec![(text("a"), Value::U8(1)), (text("a"), Value::U8(2))]).is_well_formed());
    assert!(!dict(vec![(Value::U8(1), Value::U8(1))]).is_well_formed());
    assert!(!dict(vec![(text("a"), text("b"))]).is_well_formed());
    assert!(Value::Structure(vec![]).is_well_formed());
    assert!(!Value::Structure(vec![Value::ObjectPath("x".to_string())]).is_well_formed());
    assert!(!Value::Variant(Box::new(Value::Signature("k".to_string()))).is_well_formed());
}

#[test]
fn conformance_to_a_signature() {
    let value = Value::Structure(vec![text("5"), Value::I32(1)]);
    assert!(value.conforms_to(&Signature::decode("(si)").unwrap()));
    assert!(!value.conforms_to(&Signature::decode("(su)").unwrap()));
    assert!(!value.conforms_to(&Signature::decode("(s)").unwrap()));
    assert!(!Value::Array(Signature::U8, vec![Value::U16(1)])
        .conforms_to(&Signature::decode("ay").unwrap()));
}

#[test]
fn literal_only_of_what_can_be_written() {
    let value = Value::Variant(Box::new(Value::Structure(vec![text("5"), Value::I32(1)])));
    let literal = value.to_literal().unwrap();
    assert_eq!(literal, "\"(si)\"->(\"5\",1)");
    assert_eq!(get_parser(Signature::Variant).unwrap().parse(&literal), Ok(value));
    assert!(Value::Variant(Box::new(Value::Structure(vec![]))).to_literal().is_none());
    assert!(!Value::Variant(Box::new(Value::Structure(vec![]))).is_writable());
    assert!(Value::Structure(vec![]).is_writable());
    assert!(Value::F64("x".to_string()).to_literal().is_none());
    assert!(Value::Array(Signature::U8, vec![Value::U16(1)]).to_literal().is_none());
    // a dictionary keyed by a container has no signature text that the bus takes
    let odd = Value::Variant(Box::new(Value::Dict(
        Signature::Array(Box::new(Signature::U8)),
        Signature::U8,
        vec![],
    )));
    assert!(odd.is_well_formed());
    assert!(!odd.is_writable());
    assert!(odd.to_literal().is_none());
}

#[test]
fn dictionary_lookup() {
    let parsed = get_parser(Signature::decode("a{ss}").unwrap())
        .unwrap()
        .parse(r#"{"a": "b", "c":"d"}"#)
        .unwrap();
    assert_eq!(parsed.get(&text("a")), Some(&text("b")));
    assert_eq!(parsed.get(&text("c")), Some(&text("d")));
    assert_eq!(parsed.get(&text("b")), None);
    match &parsed {
        Value::Dict(_, _, entries) => assert_eq!(entries.len(), 2),
        other => panic!("not a dictionary: {:?}", other),
    }
    assert_eq!(Value::U8(1).get(&text("a")), None);
}

#[test]
fn insert_entry_replaces_in_place() {
    let mut entries = vec![(text("a"), Value::U8(1)), (text("b"), Value::U8(2))];
    insert_entry(&mut entries, text("a"), Value::U8(3));
    assert_eq!(entries, vec![(text("a"), Value::U8(3)), (text("b"), Value::U8(2))]);
    insert_entry(&mut entries, text("c"), Value::U8(4));
    assert_eq!(
        entries,
        vec![(text("a"), Value::U8(3)), (text("b"), Value::U8(2)), (text("c"), Value::U8(4))]
    );
}

#[test]
fn labels_say_what_was_expected() {
    assert_eq!(Expected::Bool.label(), "`true` or `false`");
    assert_eq!(Expected::Integer(IntegerKind::U8).label(), "a number from 0 to 255");
    assert_eq!(
        Expected::Integer(IntegerKind::I64).label(),
        "a number from -9223372036854775808 to 9223372036854775807"
    );
    assert_eq!(Expected::Arrow.label(), "`->`");
    assert_eq!(IntegerKind::I16.min_value(), -32768);
    assert_eq!(IntegerKind::U64.max_value(), 18446744073709551615);
    assert!(IntegerKind::I32.is_signed());
    assert!(!IntegerKind::U32.is_signed());
}

#[test]
fn odd_signature_texts_do_not_stop_the_parser() {
    let parser = get_parser(Signature::Signature).unwrap();
    for code in ["a{", "a", "(", "()", "a{sv", "{sv}", "a{vs}", "\u{e9}", "(((((((((i)))))))))"] {
        let literal = format!("\"{}\"", code);
        let first = parser.parse(&literal);
        assert_eq!(first, parser.parse(&literal));
    }
    let long = format!("\"{}\"", "i".repeat(300));
    assert!(parser.parse(&long).is_err());
    let variant = get_parser(Signature::Variant).unwrap();
    assert!(variant.parse("\"a{\"->5").is_err());
    assert!(variant.parse("\"{sv}\"->5").is_err());
}
