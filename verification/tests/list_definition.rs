use bladeink_compiler::list_definition::{List, ListDefinition, ListElementDefinition};

#[test]
fn list_expression_tracks_empty_and_items() {
    assert!(List::new(None).is_empty());

    let list = List::new(Some(vec!["A".to_owned(), "B".to_owned()]));
    assert_eq!(
        Some(&["A".to_owned(), "B".to_owned()][..]),
        list.item_identifier_list()
    );
}

#[test]
fn list_definition_assigns_series_values_like_reference() {
    let mut definition = ListDefinition::new(vec![
        ListElementDefinition::new("a", false, None),
        ListElementDefinition::new("b", true, Some(5)),
        ListElementDefinition::new("c", false, None),
    ]);
    definition.set_identifier("things");

    let items = definition.item_definitions();
    assert_eq!(1, items[0].series_value());
    assert_eq!(5, items[1].series_value());
    assert_eq!(6, items[2].series_value());
    assert_eq!("things.c", items[2].full_name("things"));
    assert_eq!(
        Some("b"),
        definition.item_named("b").map(|item| item.name())
    );
}

#[test]
fn list_with_no_items_is_empty() {
    assert!(List::new(Some(Vec::new())).is_empty());
    assert!(!List::new(Some(vec!["A".to_owned()])).is_empty());
    assert_eq!(None, List::new(None).item_identifier_list());
}

#[test]
fn list_definition_keeps_item_fields_and_restarts_after_explicit_values() {
    let definition = ListDefinition::new(vec![
        ListElementDefinition::new("x", true, Some(-3)),
        ListElementDefinition::new("y", false, None),
        ListElementDefinition::new("z", true, Some(10)),
        ListElementDefinition::new("w", false, Some(2)),
    ]);
    assert_eq!(None, definition.identifier());
    let items = definition.item_definitions();
    let values: Vec<i32> = items.iter().map(|i| i.series_value()).collect();
    assert_eq!(vec![-3, -2, 10, 2], values);
    assert!(items[0].in_initial_list());
    assert!(!items[1].in_initial_list());
    assert_eq!(Some(10), items[2].explicit_value());
    assert_eq!(None, items[1].explicit_value());
    assert_eq!("w", items[3].name());
}

#[test]
fn item_named_finds_first_match_or_none() {
    let definition = ListDefinition::new(vec![
        ListElementDefinition::new("a", false, None),
        ListElementDefinition::new("a", true, None),
    ]);
    let found = definition.item_named("a").unwrap();
    assert_eq!(1, found.series_value());
    assert!(definition.item_named("missing").is_none());
}

#[test]
fn new_element_is_not_numbered_yet() {
    let item = ListElementDefinition::new("q", false, Some(4));
    assert_eq!(0, item.series_value());
    assert_eq!("list.q", item.full_name("list"));
}
