use dtui::chars::{chars_of, is_whitespace, skip_whitespace, string_of};
use dtui::error::{ErrorKind, Expected, IntegerKind, ParseError};
use dtui::grammar::Checked;
use dtui::lexer::{lex_bool, lex_checked, lex_float, lex_integer, lex_string};
use dtui::parser::{is_compilable, parse_value};
use dtui::signature::Signature;
use dtui::value::Value;

fn chars(s: &str) -> Vec<char> {
    s.chars().collect()
}

#[test]
fn characters_of_a_text() {
    assert_eq!(chars_of("a\u{e9}\u{1F600}"), vec!['a', '\u{e9}', '\u{1F600}']);
    assert_eq!(chars_of(""), Vec::<char>::new());
    assert_eq!(string_of(&chars("hello"), 1, 4), "ell");
    assert_eq!(string_of(&chars("hello"), 2, 2), "");
    assert_eq!(string_of(&chars("h\u{e9}llo"), 0, 5), "h\u{e9}llo");
}

#[test]
fn white_space() {
    for c in [' ', '\t', '\n', '\r', '\u{b}', '\u{c}', '\u{85}', '\u{a0}', '\u{3000}'] {
        assert!(is_whitespace(c));
        assert_eq!(is_whitespace(c), c.is_whitespace());
    }
    for c in ['a', '0', '_', '\u{200b}', '\u{feff}', '\u{180e}', '\u{8}', '\u{e}'] {
        assert!(!is_whitespace(c));
        assert_eq!(is_whitespace(c), c.is_whitespace());
    }
    for code in 0..0x3100u32 {
        if let Some(c) = char::from_u32(code) {
            assert_eq!(is_whitespace(c), c.is_whitespace(), "{:x}", code);
        }
    }
    assert_eq!(skip_whitespace(&chars("  a  "), 0), 2);
    assert_eq!(skip_whitespace(&chars("  a  "), 2), 2);
    assert_eq!(skip_whitespace(&chars("  a  "), 3), 5);
    assert_eq!(skip_whitespace(&chars(""), 0), 0);
}

#[test]
fn lexers_start_where_they_are_told_and_say_where_they_end() {
    let text = chars("x true ,");
    let mut errors = Vec::new();
    let step = lex_bool(&text, 1, &mut errors);
    assert_eq!(step.value, Some(Value::Bool(true)));
    assert_eq!(step.next, 7);
    assert!(!step.halted);
    assert!(errors.is_empty());

    let text = chars("[-12 ]");
    let step = lex_integer(IntegerKind::I32, &text, 1, &mut errors);
    assert_eq!(step.value, Some(Value::I32(-12)));
    assert_eq!(step.next, 5);

    let text = chars("1.5.2");
    let step = lex_float(&text, 0, &mut errors);
    assert_eq!(step.value, Some(Value::F64("1.5".to_string())));
    assert_eq!(step.next, 3);

    let text = chars(" \"a\" b");
    let step = lex_string(&text, 0, &mut errors);
    assert_eq!(step.value, Some(Value::Str("a".to_string())));
    assert_eq!(step.next, 5);
    assert!(errors.is_empty());
}

#[test]
fn lexers_add_their_errors_to_the_list() {
    let first = ParseError { kind: ErrorKind::RangeError, offset: 9, expected: Expected::Digit };
    let mut errors = vec![first];
    let text = chars("yes");
    let step = lex_bool(&text, 0, &mut errors);
    assert_eq!(step.value, None);
    assert!(step.halted);
    assert_eq!(
        errors,
        vec![
            first,
            ParseError { kind: ErrorKind::LexicalError, offset: 0, expected: Expected::Bool }
        ]
    );
    let text = chars("[x] 1");
    let step = lex_string(&text, 1, &mut errors);
    assert_eq!(step.value, None);
    assert!(!step.halted);
    assert_eq!(step.next, 2);
    assert_eq!(errors.len(), 3);
    assert_eq!(errors[2].expected, Expected::OpeningQuote);
}

#[test]
fn checked_texts_hand_out_their_content() {
    let mut errors = Vec::new();
    let text = chars(" \"a{sv}\" ->");
    let read = lex_checked(Checked::Signature, &text, 0, &mut errors);
    assert_eq!(read.step.value, Some(Value::Signature("a{sv}".to_string())));
    assert_eq!(read.content, "a{sv}");
    assert_eq!(read.step.next, 9);
    let text = chars("\"/a/b\"");
    let read = lex_checked(Checked::ObjectPath, &text, 0, &mut errors);
    assert_eq!(read.step.value, Some(Value::ObjectPath("/a/b".to_string())));
    assert!(errors.is_empty());
    let text = chars("\"a/b\"");
    let read = lex_checked(Checked::ObjectPath, &text, 0, &mut errors);
    assert!(read.step.halted);
    assert_eq!(
        errors,
        vec![ParseError {
            kind: ErrorKind::SemanticValidationError,
            offset: 0,
            expected: Expected::ObjectPathText
        }]
    );
}

#[test]
fn values_are_read_from_any_position() {
    let signature = Signature::decode("(si)").unwrap();
    let text = chars("junk (\"a\", 1) more");
    let mut errors = Vec::new();
    let step = parse_value(&signature, &text, 4, &mut errors);
    assert_eq!(
        step.value,
        Some(Value::Structure(vec![Value::Str("a".to_string()), Value::I32(1)]))
    );
    assert_eq!(step.next, 14);
    assert!(errors.is_empty());
    let step = parse_value(&Signature::Unit, &text, 0, &mut errors);
    assert!(step.halted);
    assert_eq!(errors[0].kind, ErrorKind::UnsupportedTypeError);
}

#[test]
fn compilable_signatures() {
    assert!(is_compilable(&Signature::Fd));
    assert!(is_compilable(&Signature::Structure(vec![])));
    assert!(is_compilable(&Signature::decode("a{s(iv)}").unwrap()));
    assert!(!is_compilable(&Signature::Unit));
    assert!(!is_compilable(&Signature::Structure(vec![Signature::U8, Signature::Unit])));
}
