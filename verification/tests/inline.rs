use bladeink_compiler::ast::{Condition, Divert, Expression, Node};
use bladeink_compiler::error::ErrorKind;
use bladeink_compiler::inline::{
    find_matching_brace, parse_condition, parse_divert, parse_divert_line, parse_inline_conditional,
    split_inline_choice_divert, split_inline_divert, split_top_level_pipe,
};

fn divert(target: &str) -> Divert {
    Divert { target: target.to_string(), arguments: vec![] }
}

#[test]
fn matching_brace_counts_nesting() {
    assert_eq!(find_matching_brace("{a{b}c}d", 0), Some(6));
    assert_eq!(find_matching_brace("{a{b}c}d", 2), Some(4));
    assert_eq!(find_matching_brace("{a{b}", 0), None);
    assert_eq!(find_matching_brace("a{b{c}d}e", 1), Some(7));
    assert_eq!(find_matching_brace("{x", 0), None);
}

#[test]
fn pipes_split_only_at_top_level() {
    assert_eq!(split_top_level_pipe("a|{b|c}|d"), vec!["a".to_string(), "{b|c}".to_string(), "d".to_string()]);
    assert_eq!(split_top_level_pipe("a\\|b|c"), vec!["a\\|b".to_string(), "c".to_string()]);
    assert_eq!(split_top_level_pipe(""), vec!["".to_string()]);
}

#[test]
fn inline_divert_splits_at_the_last_arrow() {
    assert_eq!(split_inline_divert("text -> knot"), Some(("text ".to_string(), "knot".to_string())));
    assert_eq!(split_inline_divert("no divert here"), None);
}

#[test]
fn conditions_are_bools_calls_or_expressions() {
    assert_eq!(parse_condition("true").unwrap(), Condition::Bool(true));
    assert_eq!(parse_condition("false").unwrap(), Condition::Bool(false));
    assert_eq!(parse_condition("seen()").unwrap(), Condition::FunctionCall("seen".to_string()));
    assert_eq!(parse_condition("x").unwrap(), Condition::Expression(Expression::Variable("x".to_string())));
}

#[test]
fn inline_conditional_needs_braces_and_colon() {
    let (c, branch) = parse_inline_conditional("{x: a|b}").unwrap().unwrap();
    assert_eq!(c, Condition::Expression(Expression::Variable("x".to_string())));
    assert_eq!(branch, " a|b");
    assert!(parse_inline_conditional("{x}").unwrap().is_none());
    assert!(parse_inline_conditional("x: y").unwrap().is_none());
}

#[test]
fn divert_with_arguments() {
    let d = parse_divert("knot(1, x)").unwrap();
    assert_eq!(d.target, "knot");
    assert_eq!(d.arguments, vec![Expression::Int(1), Expression::Variable("x".to_string())]);
    assert_eq!(parse_divert("  knot.stitch ").unwrap(), divert("knot.stitch"));
}

#[test]
fn divert_lines() {
    assert_eq!(parse_divert_line("-> knot").unwrap(), vec![Node::Divert(divert("knot"))]);
    assert_eq!(parse_divert_line("->->").unwrap(), vec![Node::TunnelReturn]);
    assert_eq!(
        parse_divert_line("-> tunnel ->").unwrap(),
        vec![Node::TunnelDivert { target: "tunnel".to_string(), is_variable: false, args: vec![] }]
    );
    assert_eq!(
        parse_divert_line("-> a -> b").unwrap(),
        vec![
            Node::TunnelDivert { target: "a".to_string(), is_variable: false, args: vec![] },
            Node::Divert(divert("b")),
        ]
    );
}

#[test]
fn choice_divert_splits_text_and_target() {
    let (t, d) = split_inline_choice_divert("Go on -> next").unwrap();
    assert_eq!(t, "Go on");
    assert_eq!(d, Some(divert("next")));
    let (t, d) = split_inline_choice_divert("Stay").unwrap();
    assert_eq!(t, "Stay");
    assert_eq!(d, None);
}

#[test]
fn malformed_divert_arguments_are_errors() {
    assert_eq!(parse_divert("knot(1,").unwrap_err().kind, ErrorKind::InvalidSource);
}

#[test]
fn matching_brace_positions_are_byte_offsets() {
    assert_eq!(find_matching_brace("é{}", 2), Some(3));
    assert_eq!(find_matching_brace("{é}", 0), Some(3));
    assert_eq!(find_matching_brace("é{", 3), None);
}

#[test]
fn pipes_cut_only_at_top_level_unescaped_bars() {
    assert_eq!(vec!["{x|y}".to_string(), "z".to_string()], split_top_level_pipe("{x|y}|z"));
    assert_eq!(vec!["a\\|b".to_string()], split_top_level_pipe("a\\|b"));
    assert_eq!(vec!["".to_string()], split_top_level_pipe(""));
    assert_eq!(vec!["(a|b)".to_string(), "".to_string(), "c".to_string()], split_top_level_pipe("(a|b)||c"));
    assert_eq!(vec!["a\\\\".to_string(), "b".to_string()], split_top_level_pipe("a\\\\|b"));
}

#[test]
fn spanning_brace_is_one_without_a_match() {
    for s in ["{x:", "{x: y}", "{a: {b}", "{a{b}c}", "no brace", "}{"] {
        let chars: Vec<char> = s.chars().collect();
        assert_eq!(
            bladeink_compiler::declarations::brace_spans_multiple_lines(&chars),
            find_matching_brace(s, 0).is_none()
        );
    }
    assert_eq!(None, find_matching_brace("{x:", 0));
    assert_eq!(Some(5), find_matching_brace("{x: y}", 0));
    assert_eq!(None, find_matching_brace("{a: {b}", 0));
}
