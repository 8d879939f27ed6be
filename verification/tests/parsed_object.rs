use bladeink_compiler::hierarchy::DebugMetadata;
use bladeink_compiler::object::{ObjectKind, ParsedObjectRef};
use bladeink_compiler::parsed_object::ParsedObject;

#[test]
fn object_tracks_parent_and_content_refs() {
    let mut parent = ParsedObject::new(1, ObjectKind::Story);
    let mut child = ParsedObject::new(2, ObjectKind::Text);

    child.set_parent(&parent);
    parent.add_content_ref(child.reference());

    assert_eq!(Some(parent.id()), child.parent_id());
    assert_eq!(
        Some(child.reference()),
        parent.find_child_by_kind(ObjectKind::Text)
    );
    assert_eq!(1, parent.find_all_children_by_kind(ObjectKind::Text).len());
}

#[test]
fn object_deduplicates_errors_and_warnings() {
    let mut object = ParsedObject::new(1, ObjectKind::Text);
    object.error("bad");
    object.error("bad");
    object.warning("careful");
    object.warning("careful");

    assert_eq!(&["bad".to_owned()], object.errors());
    assert_eq!(&["careful".to_owned()], object.warnings());
    assert!(object.had_error());
    assert!(object.had_warning());
}

#[test]
fn errors_keep_first_report_order() {
    let mut object = ParsedObject::new(7, ObjectKind::Knot);
    assert!(!object.had_error());
    assert!(!object.had_warning());
    object.error("b");
    object.error("a");
    object.error("b");
    assert_eq!(&["b".to_owned(), "a".to_owned()], object.errors());
    assert!(object.warnings().is_empty());
}

#[test]
fn children_by_kind_in_order() {
    let mut parent = ParsedObject::new(1, ObjectKind::Weave);
    let a = ParsedObjectRef::new(2, ObjectKind::Choice);
    let b = ParsedObjectRef::new(3, ObjectKind::Gather);
    let c = ParsedObjectRef::new(4, ObjectKind::Choice);
    parent.add_content_ref(a);
    parent.add_content_ref(b);
    parent.add_content_ref(c);
    assert_eq!(Some(a), parent.find_child_by_kind(ObjectKind::Choice));
    assert_eq!(vec![a, c], parent.find_all_children_by_kind(ObjectKind::Choice));
    assert_eq!(None, parent.find_child_by_kind(ObjectKind::Text));
    assert_eq!(&[a, b, c], parent.content());
}

#[test]
fn parent_by_id_is_taken_for_a_flow() {
    let mut o = ParsedObject::new(5, ObjectKind::Text);
    assert_eq!(None, o.parent_id());
    o.set_parent_id(9);
    assert_eq!(Some(ParsedObjectRef::new(9, ObjectKind::FlowBase)), o.parent_ref());
    o.set_parent_ref(ParsedObjectRef::new(3, ObjectKind::Stitch));
    assert_eq!(Some(3), o.parent_id());
}

#[test]
fn object_holds_debug_metadata() {
    let mut o = ParsedObject::new(1, ObjectKind::Text);
    assert!(!o.has_own_debug_metadata());
    o.set_debug_metadata(DebugMetadata {
        start_line_number: 2,
        end_line_number: 3,
        start_character_number: 4,
        end_character_number: 5,
        file_name: None,
    });
    assert!(o.has_own_debug_metadata());
    assert_eq!(2, o.debug_metadata().unwrap().start_line_number);
}

#[test]
fn count_flags_follow_marks_and_arguments() {
    let mut o = ParsedObject::new(1, ObjectKind::Knot);
    assert_eq!(0, o.count_flags(false, false));
    assert_eq!(1, o.count_flags(true, false));
    assert_eq!(4, o.count_flags(false, true));
    o.mark_turn_index_should_be_counted();
    assert_eq!(2, o.count_flags(false, false));
    o.mark_visits_should_be_counted();
    assert_eq!(3, o.count_flags(false, false));
    assert_eq!(7, o.count_flags(true, true));
}
