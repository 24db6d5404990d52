use dtui::parser::get_parser;
use dtui::signature::Signature;
use dtui::value::Value;

fn text(s: &str) -> Value {
    Value::Str(s.to_string())
}

fn round_trip(value: Value) {
    let signature = value.signature();
    let literal = value.to_text();
    let parser = get_parser(signature).unwrap();
    assert_eq!(parser.parse(&literal), Ok(value.clone()), "literal: {}", literal);
    assert!(parser.parse(&literal).unwrap().same(&value));
    assert!(parser.parse(&literal).unwrap().equivalent(&value));
}

#[test]
fn to_text_of_scalars() {
    assert_eq!(Value::U8(0).to_text(), "0");
    assert_eq!(Value::U8(255).to_text(), "255");
    assert_eq!(Value::I16(-32768).to_text(), "-32768");
    assert_eq!(Value::I64(i64::MIN).to_text(), "-9223372036854775808");
    assert_eq!(Value::U64(u64::MAX).to_text(), "18446744073709551615");
    assert_eq!(Value::I32(1000).to_text(), "1000");
    assert_eq!(Value::Bool(true).to_text(), "true");
    assert_eq!(Value::Bool(false).to_text(), "false");
    assert_eq!(Value::F64("-1.5".to_string()).to_text(), "-1.5");
    assert_eq!(text("a\"b\\c\n").to_text(), "\"a\\\"b\\\\c\n\"");
    assert_eq!(Value::ObjectPath("/a/b".to_string()).to_text(), "\"/a/b\"");
    assert_eq!(Value::Signature("a{sv}".to_string()).to_text(), "\"a{sv}\"");
}

#[test]
fn to_text_of_composites() {
    let array = Value::Array(Signature::I32, vec![Value::I32(1), Value::I32(-2), Value::I32(3)]);
    assert_eq!(array.to_text(), "[1,-2,3]");
    assert_eq!(Value::Array(Signature::I32, vec![]).to_text(), "[]");
    let dict = Value::Dict(
        Signature::Str,
        Signature::U8,
        vec![(text("a"), Value::U8(1)), (text("b"), Value::U8(2))],
    );
    assert_eq!(dict.to_text(), "{\"a\":1,\"b\":2}");
    assert_eq!(Value::Dict(Signature::Str, Signature::U8, vec![]).to_text(), "{}");
    let structure = Value::Structure(vec![text("5"), Value::I32(1)]);
    assert_eq!(structure.to_text(), "(\"5\",1)");
    let variant = Value::Variant(Box::new(array));
    assert_eq!(variant.to_text(), "\"ai\"->[1,-2,3]");
    assert_eq!(Value::Variant(Box::new(structure)).to_text(), "\"(si)\"->(\"5\",1)");
}

#[test]
fn signature_of_values() {
    assert_eq!(Value::U8(1).signature(), Signature::U8);
    assert_eq!(
        Value::Structure(vec![text("5"), Value::I32(1)]).signature(),
        Signature::Structure(vec![Signature::Str, Signature::I32])
    );
    assert_eq!(
        Value::Array(Signature::I32, vec![]).signature(),
        Signature::Array(Box::new(Signature::I32))
    );
    assert_eq!(Value::Variant(Box::new(Value::U8(1))).signature(), Signature::Variant);
}

#[test]
fn encode_is_the_inverse_of_decode() {
    for code in ["y", "b", "n", "q", "i", "u", "x", "t", "d", "s", "g", "o", "v", "h", "",
        "ai", "aai", "a{sv}", "(si)", "(a{s(ii)}x)", "a(ii)", "a{s(a{sv}ai)}"]
    {
        let signature = Signature::decode(code).unwrap();
        assert_eq!(signature.encode(), code);
        assert_eq!(Signature::decode(&signature.encode()), Some(signature));
    }
    assert_eq!(Signature::decode("si").unwrap().encode(), "(si)");
}

#[test]
fn literals_are_read_back() {
    round_trip(Value::U8(255));
    round_trip(Value::I16(-32768));
    round_trip(Value::U16(65535));
    round_trip(Value::I32(i32::MIN));
    round_trip(Value::U32(u32::MAX));
    round_trip(Value::I64(i64::MIN));
    round_trip(Value::I64(i64::MAX));
    round_trip(Value::U64(u64::MAX));
    round_trip(Value::Bool(true));
    round_trip(Value::Bool(false));
    round_trip(Value::F64("-0.25".to_string()));
    round_trip(Value::F64("17".to_string()));
    round_trip(text(""));
    round_trip(text("plain"));
    round_trip(text("with \"quotes\" and \\ and ] } , : \n\t\u{1F600} \u{e9}"));
    round_trip(Value::ObjectPath("/org/freedesktop/DBus".to_string()));
    round_trip(Value::Signature("a{sv}".to_string()));
    round_trip(Value::Array(Signature::Str, vec![]));
    round_trip(Value::Array(Signature::Str, vec![text("a]"), text("b")]));
    round_trip(Value::Dict(
        Signature::Str,
        Signature::Variant,
        vec![
            (text("b"), Value::Variant(Box::new(Value::U32(5)))),
            (text("a"), Value::Variant(Box::new(Value::Array(Signature::I16, vec![Value::I16(-1)])))),
        ],
    ));
    round_trip(Value::Structure(vec![
        text("5"),
        Value::I32(1),
        Value::Structure(vec![Value::Bool(true), Value::F64("1.0".to_string())]),
    ]));
    round_trip(Value::Variant(Box::new(Value::Variant(Box::new(Value::Dict(
        Signature::U8,
        Signature::Array(Box::new(Signature::Structure(vec![Signature::Str, Signature::I32]))),
        vec![(
            Value::U8(1),
            Value::Array(
                Signature::Structure(vec![Signature::Str, Signature::I32]),
                vec![Value::Structure(vec![text("x"), Value::I32(2)])],
            ),
        )],
    ))))));
}

#[test]
fn same_tells_values_apart() {
    let a = Value::Dict(
        Signature::Str,
        Signature::U8,
        vec![(text("a"), Value::U8(1)), (text("b"), Value::U8(2))],
    );
    let b = a.clone();
    assert!(a.same(&b));
    let c = Value::Dict(
        Signature::Str,
        Signature::U8,
        vec![(text("a"), Value::U8(1)), (text("b"), Value::U8(3))],
    );
    assert!(!a.same(&c));
    assert!(!Value::U8(1).same(&Value::U16(1)));
    assert!(!Value::Array(Signature::U8, vec![]).same(&Value::Array(Signature::U16, vec![])));
    assert!(Value::Variant(Box::new(Value::U8(1))).same(&Value::Variant(Box::new(Value::U8(1)))));
    assert!(!text("a").same(&text("b")));
}

#[test]
fn dictionaries_are_alike_in_any_order() {
    let forward = Value::Dict(
        Signature::Str,
        Signature::Str,
        vec![(text("a"), text("b")), (text("c"), text("d"))],
    );
    let backward = Value::Dict(
        Signature::Str,
        Signature::Str,
        vec![(text("c"), text("d")), (text("a"), text("b"))],
    );
    assert!(forward.equivalent(&backward));
    assert!(backward.equivalent(&forward));
    assert!(!forward.same(&backward));
    let parsed = get_parser(Signature::decode("a{ss}").unwrap())
        .unwrap()
        .parse(r#"{"a": "b", "c":"d"}"#)
        .unwrap();
    assert!(parsed.equivalent(&backward));
    let other = Value::Dict(
        Signature::Str,
        Signature::Str,
        vec![(text("c"), text("d")), (text("a"), text("x"))],
    );
    assert!(!forward.equivalent(&other));
    let shorter = Value::Dict(Signature::Str, Signature::Str, vec![(text("a"), text("b"))]);
    assert!(!forward.equivalent(&shorter));
    assert!(!shorter.equivalent(&forward));
    let keyed = Value::Dict(Signature::Str, Signature::U8, vec![]);
    assert!(!keyed.equivalent(&Value::Dict(Signature::Str, Signature::Str, vec![])));
    // structures and arrays keep their order
    let one = Value::Structure(vec![Value::U8(1), Value::U8(2)]);
    let two = Value::Structure(vec![Value::U8(2), Value::U8(1)]);
    assert!(!one.equivalent(&two));
    let one = Value::Array(Signature::U8, vec![Value::U8(1), Value::U8(2)]);
    let two = Value::Array(Signature::U8, vec![Value::U8(2), Value::U8(1)]);
    assert!(!one.equivalent(&two));
    // dictionaries inside other values
    let nested = |inner: Value| Value::Variant(Box::new(Value::Array(
        Signature::decode("a{ss}").unwrap(),
        vec![inner],
    )));
    assert!(nested(forward.clone()).equivalent(&nested(backward.clone())));
    assert!(!nested(forward).equivalent(&nested(other)));
}
