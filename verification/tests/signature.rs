use dtui::signature::Signature;

#[test]
fn decode_basic_types() {
    assert_eq!(Signature::decode("y"), Some(Signature::U8));
    assert_eq!(Signature::decode("b"), Some(Signature::Bool));
    assert_eq!(Signature::decode("n"), Some(Signature::I16));
    assert_eq!(Signature::decode("q"), Some(Signature::U16));
    assert_eq!(Signature::decode("i"), Some(Signature::I32));
    assert_eq!(Signature::decode("u"), Some(Signature::U32));
    assert_eq!(Signature::decode("x"), Some(Signature::I64));
    assert_eq!(Signature::decode("t"), Some(Signature::U64));
    assert_eq!(Signature::decode("d"), Some(Signature::F64));
    assert_eq!(Signature::decode("s"), Some(Signature::Str));
    assert_eq!(Signature::decode("g"), Some(Signature::Signature));
    assert_eq!(Signature::decode("o"), Some(Signature::ObjectPath));
    assert_eq!(Signature::decode("v"), Some(Signature::Variant));
    assert_eq!(Signature::decode("h"), Some(Signature::Fd));
    assert_eq!(Signature::decode(""), Some(Signature::Unit));
}

#[test]
fn decode_containers() {
    assert_eq!(
        Signature::decode("aai"),
        Some(Signature::Array(Box::new(Signature::Array(Box::new(Signature::I32)))))
    );
    assert_eq!(
        Signature::decode("a{sv}"),
        Some(Signature::Dict(Box::new(Signature::Str), Box::new(Signature::Variant)))
    );
    assert_eq!(
        Signature::decode("(si)"),
        Some(Signature::Structure(vec![Signature::Str, Signature::I32]))
    );
    assert_eq!(
        Signature::decode("(a{s(ii)}x)"),
        Some(Signature::Structure(vec![
            Signature::Dict(
                Box::new(Signature::Str),
                Box::new(Signature::Structure(vec![Signature::I32, Signature::I32]))
            ),
            Signature::I64
        ]))
    );
    assert_eq!(
        Signature::decode("si"),
        Some(Signature::Structure(vec![Signature::Str, Signature::I32]))
    );
}

#[test]
fn decode_refuses_what_is_no_signature() {
    assert_eq!(Signature::decode("k"), None);
    assert_eq!(Signature::decode("a"), None);
    assert_eq!(Signature::decode("()"), None);
    assert_eq!(Signature::decode("(i"), None);
    assert_eq!(Signature::decode("i)"), None);
    assert_eq!(Signature::decode("a{s}"), None);
    assert_eq!(Signature::decode("a{sii}"), None);
    assert_eq!(Signature::decode("{si}"), None);
    assert_eq!(Signature::decode("a{si"), None);
}

#[test]
fn same_and_clone() {
    let a = Signature::decode("(a{s(ii)}x)").unwrap();
    let b = a.clone();
    assert!(a.same(&b));
    assert!(!a.same(&Signature::decode("(a{s(iu)}x)").unwrap()));
    assert!(!a.same(&Signature::decode("(a{s(ii)})").unwrap()));
}
