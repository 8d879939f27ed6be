use bladeink_compiler::ast::{Divert, Expression, Node};
use bladeink_compiler::error::ErrorKind;
use bladeink_compiler::ported::{compile, ContentItem, ContentList, InkParser, ParsedBase};

#[test]
fn compile_is_not_available_yet() {
    assert_eq!(compile("Hello").unwrap_err().kind, ErrorKind::UnsupportedFeature);
    assert_eq!(InkParser::parse("Hello").unwrap_err().kind, ErrorKind::UnsupportedFeature);
}

#[test]
fn content_lists_from_nodes() {
    let nodes = vec![
        Node::Text("Hi".to_string()),
        Node::Newline,
        Node::Divert(Divert { target: "END".to_string(), arguments: vec![] }),
        Node::Divert(Divert { target: "DONE".to_string(), arguments: vec![] }),
        Node::Divert(Divert { target: "knot".to_string(), arguments: vec![] }),
    ];
    let list = ContentList::from_legacy_nodes(&nodes).unwrap();
    assert_eq!(
        list.items,
        vec![
            ContentItem::Text("Hi".to_string()),
            ContentItem::Newline,
            ContentItem::End,
            ContentItem::Done,
            ContentItem::Divert("knot".to_string()),
        ]
    );
}

#[test]
fn other_nodes_are_unsupported() {
    let nodes = vec![Node::Divert(Divert { target: "f".to_string(), arguments: vec![Expression::Int(1)] })];
    assert_eq!(ContentList::from_legacy_nodes(&nodes).unwrap_err().kind, ErrorKind::UnsupportedFeature);
    assert_eq!(ContentList::from_legacy_nodes(&[Node::Glue]).unwrap_err().kind, ErrorKind::UnsupportedFeature);
}

#[test]
fn push_text_appends() {
    let mut list = ContentList::new(vec![]);
    list.push_text("a");
    assert_eq!(list.items, vec![ContentItem::Text("a".to_string())]);
    assert!(ParsedBase::new().parent.is_none());
}
