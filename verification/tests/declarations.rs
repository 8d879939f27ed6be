use bladeink_compiler::ast::{AssignMode, Expression, Node};
use bladeink_compiler::declarations::{
    brace_spans_multiple_lines, parse_assignment, parse_content_line, parse_global_assignment,
    parse_list_declaration, parse_u32, split_assignment,
};
use bladeink_compiler::error::ErrorKind;
use bladeink_compiler::lines::Line;

fn chars(s: &str) -> Vec<char> {
    s.chars().collect()
}

#[test]
fn global_assignment() {
    let g = parse_global_assignment(&chars("x = 5")).unwrap();
    assert_eq!(g.name, "x");
    assert_eq!(g.initial_value, Expression::Int(5));
    assert_eq!(parse_global_assignment(&chars("x 5")).unwrap_err().kind, ErrorKind::InvalidSource);
}

#[test]
fn split_assignment_trims_both_sides() {
    let (n, e) = split_assignment(&chars(" a += b + 1 "), &chars("+=")).unwrap();
    assert_eq!(n, chars("a"));
    assert_eq!(e, chars("b + 1"));
}

#[test]
fn list_items_are_numbered_from_one() {
    let d = parse_list_declaration(&chars("colours = red, (green), blue")).unwrap();
    assert_eq!(d.name, "colours");
    assert_eq!(
        d.items,
        vec![("red".to_string(), 1, false), ("green".to_string(), 2, true), ("blue".to_string(), 3, false)]
    );
}

#[test]
fn list_item_values_can_be_set() {
    let d = parse_list_declaration(&chars("l = a = 5, b, (c = 10), d")).unwrap();
    assert_eq!(
        d.items,
        vec![("a".to_string(), 5, false), ("b".to_string(), 6, false), ("c".to_string(), 10, true), ("d".to_string(), 11, false)]
    );
}

#[test]
fn list_errors() {
    assert_eq!(parse_list_declaration(&chars("l a, b")).unwrap_err().kind, ErrorKind::InvalidSource);
    assert_eq!(parse_list_declaration(&chars("l = a = x")).unwrap_err().kind, ErrorKind::InvalidSource);
    assert_eq!(parse_list_declaration(&chars("l = a = 4294967296")).unwrap_err().kind, ErrorKind::InvalidSource);
}

#[test]
fn unsigned_numbers() {
    assert_eq!(parse_u32(&chars("0")), Some(0));
    assert_eq!(parse_u32(&chars("+7")), Some(7));
    assert_eq!(parse_u32(&chars("4294967295")), Some(4294967295));
    assert_eq!(parse_u32(&chars("4294967296")), None);
    assert_eq!(parse_u32(&chars("")), None);
    assert_eq!(parse_u32(&chars("+")), None);
    assert_eq!(parse_u32(&chars("-1")), None);
    assert_eq!(parse_u32(&chars("1a")), None);
}

#[test]
fn assignments() {
    assert_eq!(
        parse_assignment(&chars("x++")).unwrap(),
        Node::Assignment { variable_name: "x".to_string(), expression: Expression::Int(1), mode: AssignMode::AddAssign }
    );
    assert_eq!(
        parse_assignment(&chars("x--")).unwrap(),
        Node::Assignment { variable_name: "x".to_string(), expression: Expression::Int(1), mode: AssignMode::SubtractAssign }
    );
    assert_eq!(
        parse_assignment(&chars("x += 2")).unwrap(),
        Node::Assignment { variable_name: "x".to_string(), expression: Expression::Int(2), mode: AssignMode::AddAssign }
    );
    assert_eq!(
        parse_assignment(&chars("x -= 2")).unwrap(),
        Node::Assignment { variable_name: "x".to_string(), expression: Expression::Int(2), mode: AssignMode::SubtractAssign }
    );
    assert_eq!(
        parse_assignment(&chars("x = 3")).unwrap(),
        Node::Assignment { variable_name: "x".to_string(), expression: Expression::Int(3), mode: AssignMode::Assign }
    );
    assert_eq!(
        parse_assignment(&chars("temp y = 3")).unwrap(),
        Node::Assignment { variable_name: "y".to_string(), expression: Expression::Int(3), mode: AssignMode::TempSet }
    );
    assert_eq!(
        parse_assignment(&chars("f(1)")).unwrap(),
        Node::VoidCall { name: "f".to_string(), args: vec![Expression::Int(1)] }
    );
    assert_eq!(parse_assignment(&chars("nothing")).unwrap_err().kind, ErrorKind::InvalidSource);
}

#[test]
fn braces_spanning_lines() {
    assert!(brace_spans_multiple_lines(&chars("{x:")));
    assert!(!brace_spans_multiple_lines(&chars("{x: y}")));
    assert!(!brace_spans_multiple_lines(&chars("{a{b}c}")));
    assert!(brace_spans_multiple_lines(&chars("{a{b}c")));
}

#[test]
fn content_line_trims_before_the_line_break() {
    let line = Line { content: chars("Hello   "), indent: 0, had_newline: true };
    assert_eq!(parse_content_line(&line, false).unwrap(), vec![Node::Text("Hello".to_string()), Node::Newline]);
    let line = Line { content: chars("  Hi -> end"), indent: 2, had_newline: false };
    let nodes = parse_content_line(&line, false).unwrap();
    assert_eq!(nodes.len(), 2);
    assert_eq!(nodes[0], Node::Text("Hi ".to_string()));
}
