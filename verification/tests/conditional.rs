use bladeink_compiler::ast::{Condition, Node};
use bladeink_compiler::conditional::{fold_conditional_branches, looks_like_conditional};

fn text(s: &str) -> Node {
    Node::Text(s.to_string())
}

#[test]
fn conditionals_are_recognised() {
    assert!(looks_like_conditional("{x: a}"));
    assert!(looks_like_conditional("{x:"));
    assert!(!looks_like_conditional("{x}"));
    assert!(!looks_like_conditional("x: a"));
}

#[test]
fn no_branches_fold_to_nothing() {
    assert_eq!(fold_conditional_branches(vec![]).unwrap(), Vec::<Node>::new());
}

#[test]
fn if_else_folds_to_one_conditional() {
    let folded = fold_conditional_branches(vec![
        (Some(Condition::Bool(true)), vec![text("a")]),
        (None, vec![text("b")]),
    ])
    .unwrap();
    assert_eq!(
        folded,
        vec![Node::Conditional { condition: Condition::Bool(true), when_true: vec![text("a")], when_false: Some(vec![text("b")]) }]
    );
}

#[test]
fn chains_nest_in_the_else_branch() {
    let folded = fold_conditional_branches(vec![
        (Some(Condition::Bool(true)), vec![text("a")]),
        (Some(Condition::Bool(false)), vec![text("b")]),
        (None, vec![text("c")]),
    ])
    .unwrap();
    assert_eq!(
        folded,
        vec![Node::Conditional {
            condition: Condition::Bool(true),
            when_true: vec![text("a")],
            when_false: Some(vec![Node::Conditional {
                condition: Condition::Bool(false),
                when_true: vec![text("b")],
                when_false: Some(vec![text("c")]),
            }]),
        }]
    );
}

#[test]
fn a_lone_else_is_its_nodes() {
    assert_eq!(fold_conditional_branches(vec![(None, vec![text("only")])]).unwrap(), vec![text("only")]);
}
