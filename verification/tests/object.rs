use bladeink_compiler::object::{ObjectKind, ParsedObjectIndex, ParsedObjectRef};
use bladeink_compiler::parsed_object::ParsedObject;

#[test]
fn object_index_resolves_ancestry_story_flow_and_deep_search() {
    let mut story = ParsedObject::new(1, ObjectKind::Story);
    let mut knot = ParsedObject::new(2, ObjectKind::Knot);
    let mut content = ParsedObject::new(3, ObjectKind::ContentList);
    let mut text = ParsedObject::new(4, ObjectKind::Text);

    knot.set_parent(&story);
    content.set_parent(&knot);
    text.set_parent(&content);
    story.add_content_ref(knot.reference());
    knot.add_content_ref(content.reference());
    content.add_content_ref(text.reference());

    let mut index = ParsedObjectIndex::new();
    for object in [&story, &knot, &content, &text] {
        index.register(object);
    }

    assert_eq!(
        vec![story.reference(), knot.reference(), content.reference()],
        index.ancestry_of(text.reference())
    );
    assert_eq!(Some(story.reference()), index.story_for(text.reference()));
    assert_eq!(
        Some(knot.reference()),
        index.closest_flow_base_for(text.reference())
    );
    assert_eq!(Some(text.reference()), story.find(&index, ObjectKind::Text));
    assert_eq!(1, story.find_all(&index, ObjectKind::Text).len());
}

#[test]
fn register_then_lookup() {
    let a = ParsedObjectRef::new(7, ObjectKind::Choice);
    let b = ParsedObjectRef::new(8, ObjectKind::Gather);
    let mut index = ParsedObjectIndex::new();
    assert_eq!(index.resolve(7), None);
    index.register_ref(a, Some(b), vec![b]);
    assert_eq!(index.resolve(7), Some(a));
    assert_eq!(index.parent_of(7), Some(b));
    assert_eq!(index.content_of(7), &[b]);
    assert_eq!(index.parent_of(8), None);
    assert!(index.content_of(8).is_empty());
    assert_eq!(a.id(), 7);
    assert_eq!(a.kind(), ObjectKind::Choice);
}

#[test]
fn objects_without_parents_have_no_ancestry() {
    let s = ParsedObjectRef::new(1, ObjectKind::Story);
    let mut index = ParsedObjectIndex::new();
    index.register_ref(s, None, vec![]);
    assert!(index.ancestry_of(s).is_empty());
    assert_eq!(index.story_for(s), Some(s));
    assert_eq!(index.find_descendant(s, ObjectKind::Text), None);
}
