use bladeink_compiler::ast::{Condition, Divert, Expression};
use bladeink_compiler::choice::{gather_nesting_level, parse_choice_prefixes, parse_choice_text, ParsedChoiceText};
use bladeink_compiler::error::ErrorKind;

fn chars(s: &str) -> Vec<char> {
    s.chars().collect()
}

fn plain(display: &str, selected: Option<&str>, start: &str, choice_only: &str, has_start: bool, has_choice_only: bool) -> ParsedChoiceText {
    ParsedChoiceText {
        display_text: display.to_string(),
        selected_text: selected.map(|s| s.to_string()),
        start_text: start.to_string(),
        choice_only_text: choice_only.to_string(),
        has_start_content: has_start,
        has_choice_only_content: has_choice_only,
        inline_target: None,
        start_tags: vec![],
        choice_only_tags: vec![],
        selected_tags: vec![],
    }
}

#[test]
fn plain_choice_text() {
    assert_eq!(parse_choice_text("Hello").unwrap(), plain("Hello", Some("Hello"), "Hello", "", true, false));
}

#[test]
fn bracketed_choice_only_text() {
    assert_eq!(
        parse_choice_text("Hello [back] right").unwrap(),
        plain("Hello back", Some("Hello right"), "Hello ", "back", true, true)
    );
}

#[test]
fn leading_brackets_are_choice_only() {
    assert_eq!(
        parse_choice_text("[Only choice]").unwrap(),
        plain("Only choice", None, "", "Only choice", false, true)
    );
}

#[test]
fn empty_brackets_suppress_nothing_shown() {
    assert_eq!(parse_choice_text("Hi[] there").unwrap(), plain("Hi", Some("Hi there"), "Hi", "", true, false));
}

#[test]
fn divert_only_choice() {
    let t = parse_choice_text("-> knot").unwrap();
    assert_eq!(t.inline_target, Some(Divert { target: "knot".to_string(), arguments: vec![] }));
    assert_eq!(t.display_text, "");
    assert_eq!(t.selected_text, None);
}

#[test]
fn escaped_space_is_dropped() {
    assert_eq!(parse_choice_text("\\ x").unwrap(), plain("x", Some("x"), "x", "", true, false));
}

#[test]
fn unclosed_leading_bracket_is_invalid() {
    assert_eq!(parse_choice_text("[oops").unwrap_err().kind, ErrorKind::InvalidSource);
}

#[test]
fn label_and_conditions() {
    let (label, conditions, rest) = parse_choice_prefixes("(lbl) {a} {b} text").unwrap();
    assert_eq!(label, Some("lbl".to_string()));
    assert_eq!(
        conditions,
        vec![
            Condition::Expression(Expression::Variable("a".to_string())),
            Condition::Expression(Expression::Variable("b".to_string())),
        ]
    );
    assert_eq!(rest, "text");
    assert_eq!(parse_choice_prefixes("(lbl text").unwrap_err().kind, ErrorKind::InvalidSource);
    assert_eq!(parse_choice_prefixes("{a text").unwrap_err().kind, ErrorKind::InvalidSource);
}

#[test]
fn gather_levels() {
    assert_eq!(gather_nesting_level(&chars("- x")), 1);
    assert_eq!(gather_nesting_level(&chars("- - x")), 2);
    assert_eq!(gather_nesting_level(&chars("--x")), 2);
    assert_eq!(gather_nesting_level(&chars("-> x")), 0);
    assert_eq!(gather_nesting_level(&chars("x")), 0);
}

#[test]
fn display_is_start_then_choice_only() {
    let t = parse_choice_text("Hello [back] you").unwrap();
    assert_eq!("Hello back", t.display_text);
    assert_eq!("Hello ", t.start_text);
    assert_eq!("back", t.choice_only_text);
    assert_eq!(Some("Hello you".to_string()), t.selected_text);
    for input in ["Hello", "[Only]", "Hi[] there", "-> knot", "a [b] c.", "[x] y"] {
        let t = parse_choice_text(input).unwrap();
        assert_eq!(t.display_text, t.start_text.clone() + &t.choice_only_text);
        if t.selected_text.is_none() {
            assert!(t.start_text.is_empty());
        }
    }
}
