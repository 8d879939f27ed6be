use bladeink_compiler::ast::{
    AssignMode, Condition, Divert, DynamicString, DynamicStringPart, Expression, Node, Sequence,
    SequenceMode,
};
use bladeink_compiler::error::ErrorKind;
use bladeink_compiler::lines::split_lines;
use bladeink_compiler::statement::{parse_multi_branch_sequence, parse_statement, ParsedStatement};

fn text(s: &str) -> Node {
    Node::Text(s.to_string())
}

fn one(source: &str) -> (ParsedStatement, usize) {
    let lines = split_lines(source);
    let mut index = 0;
    let statement = parse_statement(&lines, &mut index, false).unwrap();
    (statement, index)
}

fn nodes(source: &str) -> Vec<Node> {
    match one(source).0 {
        ParsedStatement::Nodes(ns) => ns,
        other => panic!("expected nodes, got {:?}", other),
    }
}

#[test]
fn blank_and_comment_lines_give_nothing() {
    assert_eq!(one("\n"), (ParsedStatement::Nodes(vec![]), 1));
    assert_eq!(one("// note\n"), (ParsedStatement::Nodes(vec![]), 1));
}

#[test]
fn content_line() {
    assert_eq!(nodes("Hello\n"), vec![text("Hello"), Node::Newline]);
}

#[test]
fn declarations() {
    match one("VAR x = 1\n").0 {
        ParsedStatement::Global(g) => {
            assert_eq!(g.name, "x");
            assert_eq!(g.initial_value, Expression::Int(1));
        },
        other => panic!("unexpected {:?}", other),
    }
    assert!(matches!(one("CONST c = 2\n").0, ParsedStatement::Const(_)));
    match one("LIST l = a, b\n").0 {
        ParsedStatement::List(d) => assert_eq!(d.items.len(), 2),
        other => panic!("unexpected {:?}", other),
    }
    assert_eq!(one("EXTERNAL f(x)\n").0, ParsedStatement::ExternalFunction("f".to_string()));
}

#[test]
fn list_continues_on_indented_lines() {
    let (statement, index) = one("LIST l = a,\n  b\nText\n");
    match statement {
        ParsedStatement::List(d) => assert_eq!(d.items.len(), 2),
        other => panic!("unexpected {:?}", other),
    }
    assert_eq!(index, 2);
}

#[test]
fn tilde_lines() {
    assert_eq!(nodes("~ return\n"), vec![Node::ReturnVoid]);
    assert_eq!(nodes("~ return 5\n"), vec![Node::ReturnExpr(Expression::Int(5))]);
    assert_eq!(nodes("~ return true\n"), vec![Node::ReturnExpr(Expression::Bool(true))]);
    assert_eq!(
        nodes("~ x = 1\n"),
        vec![Node::Assignment { variable_name: "x".to_string(), expression: Expression::Int(1), mode: AssignMode::Assign }]
    );
}

#[test]
fn tag_line() {
    assert_eq!(
        nodes("# author: me\n"),
        vec![Node::Tag(DynamicString { parts: vec![DynamicStringPart::Text("author: me".to_string())] })]
    );
}

#[test]
fn divert_statement_lines() {
    assert_eq!(nodes("->->\n"), vec![Node::TunnelReturn]);
    assert_eq!(nodes("-> knot\n"), vec![Node::Divert(Divert { target: "knot".to_string(), arguments: vec![] })]);
}

#[test]
fn thread_lines() {
    let thread = vec![Node::ThreadDivert(Divert { target: "worker".to_string(), arguments: vec![] })];
    assert_eq!(nodes("<- worker\n"), thread);
    assert_eq!(nodes("<-worker\n"), thread);
}

#[test]
fn choice_with_body() {
    let (statement, index) = one("* Hello\n  Body\n");
    assert_eq!(index, 2);
    match statement {
        ParsedStatement::Nodes(ns) => {
            assert_eq!(ns.len(), 1);
            match &ns[0] {
                Node::Choice(c) => {
                    assert_eq!(c.display_text, "Hello");
                    assert_eq!(c.selected_text, Some("Hello".to_string()));
                    assert_eq!(c.body, vec![text("Body"), Node::Newline]);
                    assert!(c.once_only);
                    assert_eq!(c.nesting_level, 1);
                    assert!(!c.is_invisible_default);
                },
                other => panic!("unexpected {:?}", other),
            }
        },
        other => panic!("unexpected {:?}", other),
    }
}

#[test]
fn sticky_nested_choice() {
    match &nodes("+ + [Again]\n")[0] {
        Node::Choice(c) => {
            assert!(!c.once_only);
            assert_eq!(c.nesting_level, 2);
            assert_eq!(c.choice_only_text, "Again");
        },
        other => panic!("unexpected {:?}", other),
    }
}

#[test]
fn sequence_block() {
    let (statement, index) = one("{stopping:\n- a\n- b\n}\n");
    assert_eq!(index, 4);
    assert_eq!(
        statement,
        ParsedStatement::Nodes(vec![Node::Sequence(Sequence {
            mode: SequenceMode::Stopping,
            branches: vec![
                vec![Node::Newline, text("a"), Node::Newline],
                vec![Node::Newline, text("b"), Node::Newline],
            ],
        })])
    );
}

#[test]
fn unterminated_sequence_is_invalid() {
    let lines = split_lines("{stopping:\n- a\n");
    let mut index = 0;
    let e = parse_statement(&lines, &mut index, false).unwrap_err();
    assert_eq!(e.kind, ErrorKind::InvalidSource);
    assert_eq!(e.line, Some(1));
}

#[test]
fn conditional_block() {
    let (statement, index) = one("{x:\n- yes\n- no\n}\n");
    assert_eq!(index, 4);
    assert_eq!(
        statement,
        ParsedStatement::Nodes(vec![Node::Conditional {
            condition: Condition::Expression(Expression::Variable("x".to_string())),
            when_true: vec![Node::Newline, text("yes"), Node::Newline],
            when_false: Some(vec![text("no"), Node::Newline]),
        }])
    );
}

#[test]
fn multi_branch_conditional_block() {
    let (statement, index) = one("{\n- true: a\n- else: b\n}\n");
    assert_eq!(index, 4);
    assert_eq!(
        statement,
        ParsedStatement::Nodes(vec![Node::Conditional {
            condition: Condition::Bool(true),
            when_true: vec![text("a"), Node::Newline],
            when_false: Some(vec![text("b"), Node::Newline]),
        }])
    );
}

#[test]
fn switch_block() {
    let (statement, index) = one("{x:\n- 1: one\n- else: other\n}\n");
    assert_eq!(index, 4);
    assert_eq!(
        statement,
        ParsedStatement::Nodes(vec![Node::SwitchConditional {
            value: Expression::Variable("x".to_string()),
            branches: vec![
                (Some(Expression::Int(1)), vec![text("one"), Node::Newline]),
                (None, vec![text("other"), Node::Newline]),
            ],
        }])
    );
}

#[test]
fn gathers() {
    assert_eq!(nodes("-\n"), vec![Node::GatherPoint]);
    assert_eq!(nodes("- (lbl) text\n"), vec![Node::GatherLabel("lbl".to_string()), text("text"), Node::Newline]);
}

#[test]
fn errors_carry_their_line() {
    let lines = split_lines("Hello\nVAR x\n");
    let mut index = 1;
    let e = parse_statement(&lines, &mut index, false).unwrap_err();
    assert_eq!(e.kind, ErrorKind::InvalidSource);
    assert_eq!(e.line, Some(2));
}

#[test]
fn thread_needs_a_name_after_the_arrow() {
    assert_eq!(nodes("<-_w\n"), vec![Node::ThreadDivert(Divert { target: "_w".to_string(), arguments: vec![] })]);
    assert_eq!(
        nodes("<-!x\n"),
        vec![Node::ThreadDivert(Divert { target: "".to_string(), arguments: vec![] }), text("!x"), Node::Newline]
    );
}

#[test]
fn gather_opening_a_choice() {
    let ns = nodes("- (top) * Go\n");
    assert_eq!(ns.len(), 3);
    assert_eq!(ns[0], Node::GatherPoint);
    assert_eq!(ns[1], Node::GatherLabel("top".to_string()));
    assert!(matches!(&ns[2], Node::Choice(c) if c.display_text == "Go" && c.once_only));
}

#[test]
fn declarations_inside_blocks_are_unsupported() {
    let lines = split_lines("{x:\nVAR y = 1\n}\n");
    let mut index = 0;
    let e = parse_statement(&lines, &mut index, false).unwrap_err();
    assert_eq!(e.kind, ErrorKind::UnsupportedFeature);
    assert_eq!(e.line, Some(1));
}

#[test]
fn list_declaration_over_several_lines() {
    let (statement, index) = one("LIST l = a,\n\n  b\nNext\n");
    assert_eq!(index, 3);
    assert!(matches!(statement, ParsedStatement::List(d) if d.name == "l" && d.items.len() == 2));
}

#[test]
fn sequence_block_naming_its_mode_in_a_branch() {
    let lines = split_lines("{\n- cycle: a\n- b\n}\n");
    let mut index = 0;
    let ns = parse_multi_branch_sequence(&lines, &mut index).unwrap();
    assert_eq!(index, 4);
    assert_eq!(
        ns,
        vec![Node::Sequence(Sequence {
            mode: SequenceMode::Cycle,
            branches: vec![
                vec![Node::Newline, text("a"), Node::Newline],
                vec![Node::Newline, text("b"), Node::Newline],
            ],
        })]
    );
}

#[test]
fn bare_brace_opens_a_conditional() {
    let (statement, index) = one("{\n- cycle: a\n- b\n}\n");
    assert_eq!(index, 4);
    assert_eq!(
        statement,
        ParsedStatement::Nodes(vec![Node::Conditional {
            condition: Condition::Expression(Expression::Variable("cycle".to_string())),
            when_true: vec![text("a"), Node::Newline],
            when_false: Some(vec![text("b"), Node::Newline]),
        }])
    );
}

#[test]
fn choice_taking_its_text_from_the_next_line() {
    let (statement, index) = one("* {x}\n  Go on\n");
    assert_eq!(index, 2);
    match statement {
        ParsedStatement::Nodes(ns) => match &ns[0] {
            Node::Choice(c) => {
                assert_eq!(c.display_text, "Go on");
                assert_eq!(c.conditions, vec![Condition::Expression(Expression::Variable("x".to_string()))]);
                assert!(!c.is_invisible_default);
            },
            other => panic!("unexpected {:?}", other),
        },
        other => panic!("unexpected {:?}", other),
    }
}

#[test]
fn unterminated_conditional_is_invalid() {
    let lines = split_lines("{x:\n- a\n");
    let mut index = 0;
    let e = parse_statement(&lines, &mut index, false).unwrap_err();
    assert_eq!(e.kind, ErrorKind::InvalidSource);
    assert_eq!(e.line, Some(1));
}

#[test]
fn choice_invisible_default_and_level() {
    match &nodes("* * -> out\n")[0] {
        Node::Choice(c) => {
            assert_eq!(c.nesting_level, 2);
            assert_eq!(c.is_invisible_default, c.display_text.is_empty() && c.selected_text.is_none());
            assert!(c.is_invisible_default);
        },
        other => panic!("unexpected {:?}", other),
    }
}

#[test]
fn conditional_block_with_else_line() {
    let (statement, index) = one("{x:\nA\n- else:\nB\n}\n");
    assert_eq!(index, 5);
    assert_eq!(
        statement,
        ParsedStatement::Nodes(vec![Node::Conditional {
            condition: Condition::Expression(Expression::Variable("x".to_string())),
            when_true: vec![Node::Newline, text("A"), Node::Newline],
            when_false: Some(vec![Node::Newline, text("B"), Node::Newline]),
        }])
    );
}
