use bladeink_compiler::header::{parse_header, Header};

fn strings(v: &[&str]) -> Vec<String> {
    v.iter().map(|s| s.to_string()).collect()
}

#[test]
fn knot_header() {
    assert_eq!(
        parse_header("=== knot ===").unwrap(),
        Header::Knot { name: "knot".to_string(), parameters: vec![], ref_parameters: vec![], divert_parameters: vec![] }
    );
    assert_eq!(
        parse_header("== knot").unwrap(),
        Header::Knot { name: "knot".to_string(), parameters: vec![], ref_parameters: vec![], divert_parameters: vec![] }
    );
}

#[test]
fn function_header_with_parameters() {
    assert_eq!(
        parse_header("=== function add(a, ref b, -> c) ===").unwrap(),
        Header::Function {
            name: "add".to_string(),
            parameters: strings(&["a", "b", "c"]),
            ref_parameters: strings(&["b"]),
            divert_parameters: strings(&["c"]),
        }
    );
}

#[test]
fn stitch_header() {
    assert_eq!(
        parse_header("= stitch").unwrap(),
        Header::Stitch { name: "stitch".to_string(), parameters: vec![], ref_parameters: vec![], divert_parameters: vec![] }
    );
}

#[test]
fn other_lines_are_not_headers() {
    assert!(parse_header("Hello").is_none());
    assert!(parse_header("== ").is_none());
    assert!(parse_header("").is_none());
}
