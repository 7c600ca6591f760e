use tokito_native::sexpr::{list_head, parse, Sexpr};

#[test]
fn parses_nested_list() {
    let s = parse("(a (b 1 2) \"c\")").unwrap();
    assert!(matches!(s, Sexpr::List(_)));
}

fn atoms_of(e: &Sexpr) -> Vec<String> {
    match e {
        Sexpr::List(items) => items
            .iter()
            .map(|i| match i {
                Sexpr::Atom(a) => a.clone(),
                Sexpr::List(_) => "<list>".to_string(),
            })
            .collect(),
        Sexpr::Atom(a) => vec![a.clone()],
    }
}

#[test]
fn nested_list_items_in_order() {
    let s = parse("(a (b 1 2) \"c\")").unwrap();
    assert_eq!(atoms_of(&s), vec!["a", "<list>", "c"]);
    match &s {
        Sexpr::List(items) => assert_eq!(atoms_of(&items[1]), vec!["b", "1", "2"]),
        Sexpr::Atom(_) => panic!("expected a list"),
    }
}

#[test]
fn single_atom_parses() {
    let s = parse("  hello  ").unwrap();
    assert_eq!(s.as_atom(), Some("hello"));
}

#[test]
fn empty_list_parses() {
    let s = parse("()").unwrap();
    match s {
        Sexpr::List(items) => assert!(items.is_empty()),
        Sexpr::Atom(_) => panic!("expected a list"),
    }
}

#[test]
fn quoted_string_keeps_spaces_and_escapes() {
    let s = parse("(name \"a b\\\"c\")").unwrap();
    assert_eq!(atoms_of(&s), vec!["name", "a b\"c"]);
}

#[test]
fn unterminated_quote_takes_rest_of_input() {
    let s = parse("\"abc").unwrap();
    assert_eq!(s.as_atom(), Some("abc"));
}

#[test]
fn quoted_non_ascii_bytes_become_latin1_chars() {
    // Each byte of a quoted string becomes one character.
    let s = parse("\"\u{e9}\"").unwrap();
    assert_eq!(s.as_atom(), Some("\u{c3}\u{a9}"));
}

#[test]
fn unquoted_non_ascii_atom_is_kept() {
    let s = parse("(n \u{e9}t\u{e9})").unwrap();
    assert_eq!(atoms_of(&s), vec!["n", "\u{e9}t\u{e9}"]);
}

#[test]
fn unclosed_list_is_an_error() {
    let e = parse("(a (b 1)").unwrap_err();
    assert_eq!(e.message, "unclosed list");
}

#[test]
fn empty_input_is_unexpected() {
    let e = parse("   ").unwrap_err();
    assert_eq!(e.message, "unexpected token");
}

#[test]
fn stray_close_paren_is_unexpected() {
    let e = parse(")").unwrap_err();
    assert_eq!(e.message, "unexpected token");
}

#[test]
fn trailing_tokens_are_an_error() {
    let e = parse("(a) b").unwrap_err();
    assert_eq!(e.message, "trailing tokens after expression");
}

#[test]
fn list_head_splits_head_and_tail() {
    let s = parse("(at 1 2 90)").unwrap();
    let (h, tail) = list_head(&s).unwrap();
    assert_eq!(h, "at");
    assert_eq!(tail.len(), 3);
    assert_eq!(tail[2].as_atom(), Some("90"));
}

#[test]
fn list_head_none_for_atoms_and_list_heads() {
    assert!(list_head(&parse("x").unwrap()).is_none());
    assert!(list_head(&parse("()").unwrap()).is_none());
    assert!(list_head(&parse("((a) b)").unwrap()).is_none());
}

#[test]
fn as_atom_none_for_list() {
    assert!(parse("(a)").unwrap().as_atom().is_none());
}

#[test]
fn child_list_finds_first_matching_child() {
    let s = parse("(pin (at 1 2) (length 3) (at 4 5))").unwrap();
    let at = s.child_list("at").unwrap();
    assert_eq!(atoms_of(at), vec!["at", "1", "2"]);
    assert!(s.child_list("name").is_none());
    assert!(parse("x").unwrap().child_list("at").is_none());
}

fn same_tree(a: &Sexpr, b: &Sexpr) -> bool {
    match (a, b) {
        (Sexpr::Atom(x), Sexpr::Atom(y)) => x == y,
        (Sexpr::List(xs), Sexpr::List(ys)) => {
            xs.len() == ys.len() && xs.iter().zip(ys.iter()).all(|(x, y)| same_tree(x, y))
        }
        _ => false,
    }
}

#[test]
fn quoted_body_reads_as_one_atom() {
    assert_eq!(parse("\"(x y)\"").unwrap().as_atom(), Some("(x y)"));
    assert_eq!(parse("\"\"").unwrap().as_atom(), Some(""));
    assert_eq!(parse("\"a\\\"b\"").unwrap().as_atom(), Some("a\"b"));
}

#[test]
fn layout_white_space_does_not_change_the_tree() {
    let plain = parse("(sym (pin 1 2) \u{e9}t\u{e9} (a))").unwrap();
    let padded = parse(" \t( sym\n ( pin  1 \r 2 ) \u{e9}t\u{e9}  ( a ) )\n").unwrap();
    assert!(same_tree(&plain, &padded));
    assert!(!same_tree(&plain, &parse("(sym (pin 1 2))").unwrap()));
}
