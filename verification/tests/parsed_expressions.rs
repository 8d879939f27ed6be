use bladeink_compiler::content_list::ContentList;
use bladeink_compiler::parsed_expressions::{StringExpression, VariableReference};

#[test]
fn string_expression_reports_single_string_shape() {
    let mut content = ContentList::new();
    content.push_text("hello");
    let string_expression = StringExpression::new(content);
    assert!(string_expression.is_single_string());
}

#[test]
fn variable_reference_joins_path_segments() {
    let variable = VariableReference::new(vec!["knot".to_owned(), "stitch".to_owned()]);
    assert_eq!("knot.stitch", variable.name());
}

#[test]
fn string_expression_with_line_break_or_two_texts_is_not_single() {
    let mut content = ContentList::new();
    content.push_text("a\nb");
    assert!(!StringExpression::new(content).is_single_string());

    let mut two = ContentList::new();
    two.push_text("a");
    two.push_text("b");
    assert!(!StringExpression::new(two).is_single_string());

    assert!(!StringExpression::new(ContentList::new()).is_single_string());
}

#[test]
fn variable_reference_names() {
    assert_eq!("", VariableReference::new(Vec::new()).name());
    assert_eq!("x", VariableReference::new(vec!["x".to_owned()]).name());
    let v = VariableReference::new(vec!["a".to_owned(), "b".to_owned(), "c".to_owned()]);
    assert_eq!("a.b.c", v.name());
    assert_eq!(3, v.path().len());
}
