use dtui::tree::{
    argument_label, child_path, extract_description, find_first, method_label, property_label,
    signal_label, ArgDirection, DbusIdentifier, IdentifierKind, MemberTypes, MethodArgument,
    MethodDescription, MethodPath,
};

fn arg(name: Option<&str>, ty: &str, direction: Option<ArgDirection>) -> MethodArgument {
    MethodArgument { name: name.map(|n| n.to_string()), ty: ty.to_string(), direction }
}

fn method(name: &str, args: Vec<MethodArgument>) -> MethodDescription {
    MethodDescription { name: name.to_string(), args }
}

#[test]
fn argument_labels() {
    assert_eq!(argument_label(&arg(Some("count"), "u", Some(ArgDirection::In))), "count: u");
    assert_eq!(argument_label(&arg(None, "a{sv}", None)), ": a{sv}");
}

#[test]
fn method_label_with_inputs_and_outputs() {
    let m = method(
        "Get",
        vec![
            arg(Some("interface"), "s", Some(ArgDirection::In)),
            arg(Some("value"), "v", Some(ArgDirection::Out)),
            arg(Some("property"), "s", Some(ArgDirection::In)),
            arg(None, "b", Some(ArgDirection::Out)),
            arg(Some("loose"), "i", None),
        ],
    );
    assert_eq!(method_label(&m), "Get(interface: s, property: s) => value: v, : b");
}

#[test]
fn method_label_without_outputs_has_no_arrow() {
    let m = method("Ping", vec![]);
    assert_eq!(method_label(&m), "Ping()  ");
    let m = method("Set", vec![arg(Some("x"), "i", Some(ArgDirection::In))]);
    assert_eq!(method_label(&m), "Set(x: i)  ");
    let m = method("Read", vec![arg(Some("x"), "i", Some(ArgDirection::Out))]);
    assert_eq!(method_label(&m), "Read() => x: i");
}

#[test]
fn signal_and_property_labels() {
    let args = vec![
        arg(Some("name"), "s", Some(ArgDirection::In)),
        arg(Some("old"), "s", None),
        arg(Some("new"), "s", Some(ArgDirection::In)),
    ];
    assert_eq!(signal_label("NameOwnerChanged", &args), "NameOwnerChanged(name: s, new: s)");
    assert_eq!(signal_label("Tick", &vec![]), "Tick()");
    assert_eq!(property_label("Features", "as"), "Features: as");
}

#[test]
fn child_paths() {
    assert_eq!(child_path("/", "org"), "/org");
    assert_eq!(child_path("/org", "freedesktop"), "/org/freedesktop");
    assert_eq!(child_path("/org/", "freedesktop"), "/org/freedesktop");
    assert_eq!(child_path("", "x"), "/x");
}

#[test]
fn default_identifier_is_the_root_object() {
    assert_eq!(DbusIdentifier::default(), DbusIdentifier::Object("/".to_string()));
}

#[test]
fn extract_description_needs_object_interface_and_method() {
    let m = method("Ping", vec![]);
    let full = vec![
        DbusIdentifier::Object("/a".to_string()),
        DbusIdentifier::Interface("org.a".to_string()),
        DbusIdentifier::Member(MemberTypes::Methods),
        DbusIdentifier::Method(m.clone()),
    ];
    assert_eq!(
        extract_description(&full),
        Some(MethodPath { object: 0, interface: 1, method: 3 })
    );
    assert_eq!(extract_description(&full[..3]), None);
    assert_eq!(extract_description(&full[1..]), None);
    assert_eq!(extract_description(&[]), None);
    let property = vec![
        DbusIdentifier::Object("/a".to_string()),
        DbusIdentifier::Interface("org.a".to_string()),
        DbusIdentifier::Member(MemberTypes::Properties),
        DbusIdentifier::Property("P".to_string()),
    ];
    assert_eq!(extract_description(&property), None);
    let twice = vec![
        DbusIdentifier::Method(m.clone()),
        DbusIdentifier::Object("/a".to_string()),
        DbusIdentifier::Object("/b".to_string()),
        DbusIdentifier::Interface("org.a".to_string()),
        DbusIdentifier::Method(m),
    ];
    assert_eq!(
        extract_description(&twice),
        Some(MethodPath { object: 1, interface: 3, method: 0 })
    );
    assert_eq!(find_first(&twice, IdentifierKind::Signal), 5);
    assert_eq!(find_first(&twice, IdentifierKind::Interface), 3);
}
