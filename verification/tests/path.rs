use bladeink_compiler::path::{join_dotted, ParsedPath};

#[test]
fn dotted_paths_split_into_components() {
    let p = ParsedPath::from_dotted("knot.stitch.label");
    assert_eq!(p.as_str(), "knot.stitch.label");
    assert_eq!(p.components(), &["knot".to_string(), "stitch".to_string(), "label".to_string()]);
    assert_eq!(p.first_component(), Some("knot"));
    assert_eq!(p.number_of_components(), 3);
    assert!(!p.is_empty());
}

#[test]
fn empty_path_has_no_components() {
    let p = ParsedPath::from_dotted("");
    assert!(p.is_empty());
    assert_eq!(p.first_component(), None);
    assert_eq!(p.number_of_components(), 0);
}

#[test]
fn components_join_with_dots() {
    let p = ParsedPath::new(vec!["a".to_string(), "b".to_string()]);
    assert_eq!(p.as_str(), "a.b");
    assert_eq!(join_dotted(&vec!["x".to_string()]), "x");
    assert_eq!(join_dotted(&vec![]), "");
    let again = ParsedPath::from_dotted(p.as_str());
    assert_eq!(again.components(), p.components());
}
