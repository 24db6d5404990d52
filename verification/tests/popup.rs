use dtui::events::{has_focus, margin_percent, on_key, Action, Key, Pane, WorkingArea};
use dtui::popup::{fields_for, MethodCallPopUp};
use dtui::tree::{ArgDirection, MethodArgument, MethodDescription};
use dtui::value::Value;

fn arg(name: &str, ty: &str, direction: Option<ArgDirection>) -> MethodArgument {
    MethodArgument { name: Some(name.to_string()), ty: ty.to_string(), direction }
}

fn form() -> MethodCallPopUp {
    let method = MethodDescription {
        name: "Do".to_string(),
        args: vec![
            arg("count", "u", Some(ArgDirection::In)),
            arg("result", "s", Some(ArgDirection::Out)),
            arg("names", "as", None),
            arg("code", "i", Some(ArgDirection::Out)),
        ],
    };
    let mut popup = MethodCallPopUp::new(
        "org.a".to_string(),
        "/a".to_string(),
        "org.a.I".to_string(),
        method,
    );
    popup.method_arg_vis = fields_for(&popup.method_description).ok().unwrap();
    popup
}

#[test]
fn new_form_is_empty() {
    let method = MethodDescription { name: "Do".to_string(), args: vec![] };
    let popup = MethodCallPopUp::new("s".to_string(), "/o".to_string(), "i".to_string(), method);
    assert_eq!(popup.service, "s");
    assert_eq!(popup.object, "/o");
    assert_eq!(popup.interface, "i");
    assert_eq!(popup.method_arg_vis.len(), 0);
    assert_eq!(popup.selected, 0);
    assert!(!popup.called);
    assert_eq!(popup.input_target(), None);
}

#[test]
fn fields_follow_the_arguments() {
    let popup = form();
    assert_eq!(popup.method_arg_vis.len(), 4);
    let inputs: Vec<bool> = popup.method_arg_vis.iter().map(|f| f.is_input).collect();
    assert_eq!(inputs, vec![true, false, true, false]);
    assert!(popup.method_arg_vis.iter().all(|f| f.text.is_empty()));
    assert_eq!(popup.method_arg_vis[2].parser.signature().encode(), "as");
}

#[test]
fn fields_for_reports_the_first_bad_type() {
    let method = MethodDescription {
        name: "Do".to_string(),
        args: vec![arg("a", "u", None), arg("b", "k", None), arg("c", "", None)],
    };
    assert_eq!(fields_for(&method).err(), Some(1));
    let method = MethodDescription {
        name: "Do".to_string(),
        args: vec![arg("a", "u", None), arg("c", "", None)],
    };
    assert_eq!(fields_for(&method).err(), Some(1));
}

#[test]
fn selection_moves_within_the_form() {
    let mut popup = form();
    popup.select_previous();
    assert_eq!(popup.selected, 0);
    assert_eq!(popup.input_target(), Some(0));
    for expected in [1, 2, 3, 4, 4, 4] {
        popup.select_next();
        assert_eq!(popup.selected, expected);
    }
    assert_eq!(popup.input_target(), None);
    popup.select_previous();
    assert_eq!(popup.selected, 3);
    assert_eq!(popup.input_target(), Some(3));
}

#[test]
fn arguments_are_the_inputs_in_order() {
    let mut popup = form();
    popup.method_arg_vis[0].text = "7".to_string();
    popup.method_arg_vis[1].text = "this is an output and is not read".to_string();
    popup.method_arg_vis[2].text = "[\"a\", \"b\"]".to_string();
    assert!(popup.method_arg_vis[0].is_valid());
    assert!(!popup.method_arg_vis[1].is_valid());
    assert_eq!(
        popup.arguments(),
        Some(vec![
            Value::U32(7),
            Value::Array(
                dtui::signature::Signature::Str,
                vec![Value::Str("a".to_string()), Value::Str("b".to_string())]
            ),
        ])
    );
}

#[test]
fn one_bad_input_blocks_the_call() {
    let mut popup = form();
    popup.method_arg_vis[0].text = "7".to_string();
    popup.method_arg_vis[2].text = "[\"a\", b]".to_string();
    assert!(!popup.method_arg_vis[2].is_valid());
    assert_eq!(popup.arguments(), None);
    popup.method_arg_vis[0].text = "".to_string();
    popup.method_arg_vis[2].text = "[]".to_string();
    assert_eq!(popup.arguments(), None);
}

#[test]
fn response_fills_the_outputs() {
    let mut popup = form();
    popup.method_arg_vis[0].text = "7".to_string();
    popup.record_response(&vec!["\"done\"".to_string(), "0".to_string(), "extra".to_string()]);
    assert!(popup.called);
    assert_eq!(popup.method_arg_vis[0].text, "7");
    assert_eq!(popup.method_arg_vis[1].text, "\"done\"");
    assert_eq!(popup.method_arg_vis[2].text, "");
    assert_eq!(popup.method_arg_vis[3].text, "0");
    let mut popup = form();
    popup.method_arg_vis[3].text = "old".to_string();
    popup.record_response(&vec!["x".to_string()]);
    assert_eq!(popup.method_arg_vis[1].text, "x");
    assert_eq!(popup.method_arg_vis[3].text, "old");
}

#[test]
fn keys_in_the_lists() {
    let services = WorkingArea::Services;
    let objects = WorkingArea::Objects;
    assert_eq!(on_key(&services, Key::Char('q')), Action::Quit);
    assert_eq!(on_key(&objects, Key::Char('q')), Action::Quit);
    assert_eq!(on_key(&services, Key::Char('x')), Action::Nothing);
    assert_eq!(on_key(&services, Key::Enter), Action::RequestObjects);
    assert_eq!(on_key(&objects, Key::Enter), Action::OpenMethodCall);
    assert_eq!(on_key(&services, Key::Left), Action::UnselectService);
    assert_eq!(on_key(&services, Key::Right), Action::Nothing);
    assert_eq!(on_key(&services, Key::Down), Action::NextService);
    assert_eq!(on_key(&services, Key::Up), Action::PreviousService);
    assert_eq!(on_key(&objects, Key::Left), Action::TreeLeft);
    assert_eq!(on_key(&objects, Key::Right), Action::TreeRight);
    assert_eq!(on_key(&objects, Key::Down), Action::TreeDown);
    assert_eq!(on_key(&objects, Key::Up), Action::TreeUp);
    assert_eq!(on_key(&services, Key::Tab), Action::FocusObjects);
    assert_eq!(on_key(&objects, Key::Tab), Action::FocusServices);
    assert_eq!(on_key(&services, Key::Esc), Action::FocusObjects);
    assert_eq!(on_key(&objects, Key::Other), Action::Nothing);
}

#[test]
fn keys_in_the_form() {
    let area = WorkingArea::MethodCallPopUp(form());
    assert_eq!(on_key(&area, Key::Char('q')), Action::Nothing);
    assert_eq!(on_key(&area, Key::Char('x')), Action::TypeInSelectedField);
    assert_eq!(on_key(&area, Key::Other), Action::TypeInSelectedField);
    assert_eq!(on_key(&area, Key::Enter), Action::CallMethod);
    assert_eq!(on_key(&area, Key::Left), Action::TypeInFirstField);
    assert_eq!(on_key(&area, Key::Right), Action::TypeInFirstField);
    assert_eq!(on_key(&area, Key::Down), Action::NextField);
    assert_eq!(on_key(&area, Key::Up), Action::PreviousField);
    assert_eq!(on_key(&area, Key::Tab), Action::Nothing);
    assert_eq!(on_key(&area, Key::Esc), Action::FocusObjects);
}

#[test]
fn focus_and_margins() {
    assert!(has_focus(&WorkingArea::Services, Pane::Services));
    assert!(!has_focus(&WorkingArea::Services, Pane::Objects));
    assert!(has_focus(&WorkingArea::Objects, Pane::Objects));
    assert!(!has_focus(&WorkingArea::MethodCallPopUp(form()), Pane::Objects));
    assert_eq!(margin_percent(80), 10);
    assert_eq!(margin_percent(50), 25);
    assert_eq!(margin_percent(100), 0);
    assert_eq!(margin_percent(0), 50);
    assert_eq!(margin_percent(75), 12);
}
