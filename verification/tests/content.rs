use bladeink_compiler::ast::{
    Condition, Divert, DynamicString, DynamicStringPart, Expression, Node, Sequence, SequenceMode,
};
use bladeink_compiler::content::{parse_dynamic_string, split_text_and_tags, tokenize_inline_content};
use bladeink_compiler::error::ErrorKind;

fn text(s: &str) -> Node {
    Node::Text(s.to_string())
}

fn tag(s: &str) -> DynamicString {
    DynamicString { parts: vec![DynamicStringPart::Text(s.to_string())] }
}

#[test]
fn plain_text_is_one_text_node() {
    assert_eq!(tokenize_inline_content("Hello world").unwrap(), vec![text("Hello world")]);
}

#[test]
fn empty_content_has_no_nodes() {
    assert_eq!(tokenize_inline_content("").unwrap(), Vec::<Node>::new());
}

#[test]
fn glue_splits_text() {
    assert_eq!(
        tokenize_inline_content("Hello <> world").unwrap(),
        vec![text("Hello "), Node::Glue, text(" world")]
    );
}

#[test]
fn escapes_keep_the_next_character() {
    assert_eq!(tokenize_inline_content("a\\#b\\nc").unwrap(), vec![text("a#b\nc")]);
}

#[test]
fn tags_follow_the_text() {
    assert_eq!(
        tokenize_inline_content("Hi #tag1 #tag2").unwrap(),
        vec![text("Hi "), Node::Tag(tag("tag1 ")), Node::Tag(tag("tag2"))]
    );
}

#[test]
fn braces_print_an_expression() {
    assert_eq!(
        tokenize_inline_content("{x}").unwrap(),
        vec![Node::OutputExpression(Expression::Variable("x".to_string()))]
    );
}

#[test]
fn braces_with_pipes_are_a_sequence() {
    assert_eq!(
        tokenize_inline_content("{a|b}").unwrap(),
        vec![Node::Sequence(Sequence { mode: SequenceMode::Stopping, branches: vec![vec![text("a")], vec![text("b")]] })]
    );
    assert_eq!(
        tokenize_inline_content("{&a|b}").unwrap(),
        vec![Node::Sequence(Sequence { mode: SequenceMode::Cycle, branches: vec![vec![text("a")], vec![text("b")]] })]
    );
    assert_eq!(
        tokenize_inline_content("{~a|b}").unwrap(),
        vec![Node::Sequence(Sequence { mode: SequenceMode::Shuffle, branches: vec![vec![text("a")], vec![text("b")]] })]
    );
    assert_eq!(
        tokenize_inline_content("{!once}").unwrap(),
        vec![Node::Sequence(Sequence { mode: SequenceMode::Once, branches: vec![vec![text("once")]] })]
    );
}

#[test]
fn braces_with_a_colon_are_a_conditional() {
    assert_eq!(
        tokenize_inline_content("{true: yes|no}").unwrap(),
        vec![Node::Conditional {
            condition: Condition::Bool(true),
            when_true: vec![text(" yes")],
            when_false: Some(vec![text("no")]),
        }]
    );
}

#[test]
fn unterminated_brace_is_invalid() {
    assert_eq!(tokenize_inline_content("{x").unwrap_err().kind, ErrorKind::InvalidSource);
}

#[test]
fn divert_ends_the_content() {
    assert_eq!(
        tokenize_inline_content("go -> knot").unwrap(),
        vec![text("go "), Node::Divert(Divert { target: "knot".to_string(), arguments: vec![] })]
    );
}

#[test]
fn thread_divert_inside_content() {
    assert_eq!(
        tokenize_inline_content("a <- t b").unwrap(),
        vec![text("a "), Node::ThreadDivert(Divert { target: "t".to_string(), arguments: vec![] }), text(" b")]
    );
}

#[test]
fn dynamic_string_mixes_text_and_expressions() {
    assert_eq!(
        parse_dynamic_string("a {x} b").unwrap(),
        DynamicString {
            parts: vec![
                DynamicStringPart::Text("a ".to_string()),
                DynamicStringPart::Expression(Expression::Variable("x".to_string())),
                DynamicStringPart::Text(" b".to_string()),
            ],
        }
    );
    assert_eq!(parse_dynamic_string("a {x").unwrap_err().kind, ErrorKind::InvalidSource);
}

#[test]
fn text_and_tags_split_at_the_first_hash() {
    let (t, tags) = split_text_and_tags("Hello #one #two").unwrap();
    assert_eq!(t, "Hello ");
    assert_eq!(tags, vec![tag("one "), tag("two")]);
    let (t, tags) = split_text_and_tags("No tags").unwrap();
    assert_eq!(t, "No tags");
    assert!(tags.is_empty());
}

#[test]
fn braces_keep_hash_inside_tags() {
    let (_, tags) = split_text_and_tags("x #a {b|#c} d").unwrap();
    assert_eq!(tags.len(), 1);
}
