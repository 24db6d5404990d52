use dtui::value::Value;

fn texts(alphabet: &[char], longest: usize) -> Vec<String> {
    let mut all = vec![String::new()];
    let mut last = vec![String::new()];
    for _ in 0..longest {
        let mut next = Vec::new();
        for text in &last {
            for c in alphabet {
                let mut longer = text.clone();
                longer.push(*c);
                next.push(longer);
            }
        }
        all.extend(next.iter().cloned());
        last = next;
    }
    all
}

fn follows_the_rules(path: &str) -> bool {
    let chars: Vec<char> = path.chars().collect();
    !chars.is_empty()
        && chars[0] == '/'
        && (chars.len() == 1 || chars[chars.len() - 1] != '/')
        && chars.iter().all(|c| c.is_ascii_alphanumeric() || *c == '_' || *c == '/')
        && chars.windows(2).all(|pair| !(pair[0] == '/' && pair[1] == '/'))
}

#[test]
fn object_paths_are_judged_by_the_stated_rules() {
    let alphabet = ['/', 'a', 'Z', '0', '_', '.', '-', ' ', '\u{e9}', '\u{1F600}'];
    for path in texts(&alphabet, 4) {
        assert_eq!(
            Value::ObjectPath(path.clone()).is_well_formed(),
            follows_the_rules(&path),
            "{:?}",
            path
        );
    }
    for path in ["/org/freedesktop/DBus", "/a/b/c/d/e/f", "/_/_", "/9"] {
        assert!(Value::ObjectPath(path.to_string()).is_well_formed());
    }
    for path in ["/org/freedesktop/DBus/", "/a//b", "org", "/a b", "/a\n", "/\u{7f}"] {
        assert!(!Value::ObjectPath(path.to_string()).is_well_formed());
    }
}

#[test]
fn signature_texts_get_one_answer() {
    let alphabet = ['a', '{', '}', '(', ')', 's', 'v', 'i', 'k'];
    for text in texts(&alphabet, 4) {
        let first = Value::Signature(text.clone()).is_well_formed();
        let second = Value::Signature(text.clone()).is_well_formed();
        assert_eq!(first, second, "{:?}", text);
    }
    for text in ["", "s", "ai", "a{sv}", "(si)", "sis", "aaai", "(a{s(ii)}x)"] {
        assert!(Value::Signature(text.to_string()).is_well_formed(), "{:?}", text);
    }
    for text in ["k", "a", "(", "()", "a{s}", "a{", "(i", "i)", "a{(i)s}", "\u{e9}"] {
        assert!(!Value::Signature(text.to_string()).is_well_formed(), "{:?}", text);
    }
}
