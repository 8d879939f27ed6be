use bladeink_compiler::ast::{BinaryOperator, Expression};
use bladeink_compiler::error::ErrorKind;
use bladeink_compiler::expression::{
    parse_bool, parse_call_like, parse_expression, parse_path_identifier, split_top_level_commas,
    tokenize_expression, Token,
};

#[test]
fn tokenizes_operators_and_literals() {
    let tokens = tokenize_expression("x >= 10 && -> knot.stitch").unwrap();
    assert_eq!(
        tokens,
        vec![
            Token::Ident("x".to_owned()),
            Token::GreaterEqual,
            Token::Int(10),
            Token::AndAnd,
            Token::DivertTarget("knot.stitch".to_owned()),
        ]
    );
}

#[test]
fn integer_literal_out_of_range_is_invalid() {
    let err = tokenize_expression("2147483648").unwrap_err();
    assert_eq!(err.kind, ErrorKind::InvalidSource);
    assert_eq!(tokenize_expression("2147483647").unwrap(), vec![Token::Int(2147483647)]);
}

#[test]
fn precedence_multiplication_binds_tighter() {
    let e = parse_expression("1 + 2 * 3").unwrap();
    assert_eq!(
        e,
        Expression::Binary {
            left: Box::new(Expression::Int(1)),
            operator: BinaryOperator::Add,
            right: Box::new(Expression::Binary {
                left: Box::new(Expression::Int(2)),
                operator: BinaryOperator::Multiply,
                right: Box::new(Expression::Int(3)),
            }),
        }
    );
}

#[test]
fn not_is_equality_with_zero() {
    let e = parse_expression("!x").unwrap();
    assert_eq!(
        e,
        Expression::Binary {
            left: Box::new(Expression::Variable("x".to_owned())),
            operator: BinaryOperator::Equal,
            right: Box::new(Expression::Int(0)),
        }
    );
}

#[test]
fn list_literals_and_calls() {
    assert_eq!(
        parse_expression("(a, b)").unwrap(),
        Expression::ListItems(vec!["a".to_owned(), "b".to_owned()])
    );
    assert_eq!(parse_expression("()").unwrap(), Expression::EmptyList);
    assert_eq!(
        parse_expression("(a)").unwrap(),
        Expression::ListItems(vec!["a".to_owned()])
    );
    assert_eq!(
        parse_expression("f(1, \"s\")").unwrap(),
        Expression::FunctionCall {
            name: "f".to_owned(),
            args: vec![Expression::Int(1), Expression::Str("s".to_owned())],
        }
    );
    assert_eq!(parse_expression("1.5").unwrap(), Expression::Float("1.5".to_owned()));
}

#[test]
fn trailing_tokens_are_unsupported() {
    assert_eq!(parse_expression("1 2").unwrap_err().kind, ErrorKind::UnsupportedFeature);
    assert_eq!(parse_expression("").unwrap_err().kind, ErrorKind::InvalidSource);
    assert_eq!(parse_expression("\"open").unwrap_err().kind, ErrorKind::InvalidSource);
    assert_eq!(parse_expression("a @ b").unwrap_err().kind, ErrorKind::UnsupportedFeature);
}

#[test]
fn helpers() {
    assert_eq!(parse_bool("true").unwrap(), true);
    assert_eq!(parse_bool("false").unwrap(), false);
    assert_eq!(parse_bool("yes").unwrap_err().kind, ErrorKind::UnsupportedFeature);
    assert_eq!(parse_path_identifier("knot.stitch(1)"), Some("knot.stitch".to_owned()));
    assert_eq!(parse_path_identifier("(x"), None);
    assert_eq!(
        split_top_level_commas(" a , f(b, c), \"x,y\" "),
        vec!["a".to_owned(), "f(b, c)".to_owned(), "\"x,y\"".to_owned()]
    );
    let (name, args) = parse_call_like(" go(1, x) ").unwrap().unwrap();
    assert_eq!(name, "go");
    assert_eq!(args, vec![Expression::Int(1), Expression::Variable("x".to_owned())]);
    assert!(parse_call_like("plain").unwrap().is_none());
    assert_eq!(parse_call_like("go(").unwrap_err().kind, ErrorKind::InvalidSource);
}
