use bladeink_compiler::ast::{Expression, Node};
use bladeink_compiler::error::ErrorKind;
use bladeink_compiler::story::Parser;

fn text(s: &str) -> Node {
    Node::Text(s.to_string())
}

#[test]
fn empty_source_is_invalid() {
    let e = Parser::new("").parse().unwrap_err();
    assert_eq!(e.kind, ErrorKind::InvalidSource);
    assert_eq!(e.message, "ink source is empty; expected at least one line of text");
}

#[test]
fn knots_and_stitches() {
    let story = Parser::new("Hello\n== knot ==\nIn knot\n= st\nIn stitch\n").parse().unwrap();
    assert_eq!(story.root, vec![text("Hello"), Node::Newline]);
    assert_eq!(story.flows.len(), 1);
    let knot = &story.flows[0];
    assert_eq!(knot.name, "knot");
    assert!(!knot.is_function);
    assert_eq!(knot.nodes, vec![text("In knot"), Node::Newline]);
    assert_eq!(knot.children.len(), 1);
    assert_eq!(knot.children[0].name, "st");
    assert_eq!(knot.children[0].nodes, vec![text("In stitch"), Node::Newline]);
}

#[test]
fn top_level_stitch_is_a_flow() {
    let story = Parser::new("= top\nText\n").parse().unwrap();
    assert_eq!(story.flows.len(), 1);
    assert_eq!(story.flows[0].name, "top");
    assert!(story.flows[0].children.is_empty());
}

#[test]
fn functions() {
    let story = Parser::new("== function f(x) ==\n~ return x\n").parse().unwrap();
    let f = &story.flows[0];
    assert!(f.is_function);
    assert_eq!(f.parameters, vec!["x".to_string()]);
    assert_eq!(f.nodes, vec![Node::ReturnExpr(Expression::Variable("x".to_string()))]);
}

#[test]
fn declarations_are_collected() {
    let story = Parser::new("VAR x = 1\nCONST a = 1\nCONST a = 2\nLIST l = p\nEXTERNAL g()\n").parse().unwrap();
    assert_eq!(story.globals.len(), 1);
    assert_eq!(story.consts, vec![("a".to_string(), Expression::Int(2))]);
    assert_eq!(story.list_declarations.len(), 1);
    assert_eq!(story.external_functions, vec!["g".to_string()]);
}

#[test]
fn windows_line_endings() {
    let story = Parser::new("One\r\nTwo\r\n").parse().unwrap();
    assert_eq!(story.root, vec![text("One"), Node::Newline, text("Two"), Node::Newline]);
}

#[test]
fn headerless_source_has_no_flows() {
    let story = Parser::new("Hello\n* Choice\n  Taken\n- Done\n").parse().unwrap();
    assert!(story.flows.is_empty());
    assert_eq!(story.root[0], text("Hello"));
    assert_eq!(story.root[1], Node::Newline);
}

#[test]
fn stitch_content_goes_to_its_stitch() {
    let story = Parser::new("== k ==\nIn knot\n= s\nIn stitch\n").parse().unwrap();
    assert_eq!(story.flows.len(), 1);
    assert_eq!(story.flows[0].nodes, vec![text("In knot"), Node::Newline]);
    assert_eq!(story.flows[0].children.len(), 1);
    assert_eq!(story.flows[0].children[0].nodes, vec![text("In stitch"), Node::Newline]);
}

#[test]
fn crlf_and_lf_sources_parse_alike() {
    let a = Parser::new("== k ==\r\nHello\r\n* Go\r\n").parse().unwrap();
    let b = Parser::new("== k ==\nHello\n* Go\n").parse().unwrap();
    assert_eq!(a, b);
}

#[test]
fn crlf_replaced_once_keeps_an_earlier_carriage_return() {
    let a = Parser::new("a #tag\r\r\n").parse().unwrap();
    let b = Parser::new("a #tag\r\n").parse().unwrap();
    assert_ne!(a, b);
}
