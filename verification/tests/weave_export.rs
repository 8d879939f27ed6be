use bladeink_compiler::choice_export::ChoiceExportInput;
use bladeink_compiler::runtime_tree::RuntimeItem;
use bladeink_compiler::weave_export::{
    export_weave, ChoiceEntryExport, GatherEntryExport, InnerExport, PendingContainer, WeaveEntryExportKind,
    WeaveExportEntry,
};

type Entry = WeaveExportEntry<&'static str>;

fn choice(choice_only: Option<&'static str>, inner: Vec<RuntimeItem<&'static str>>, inner_has_terminal: bool) -> WeaveEntryExportKind<&'static str> {
    WeaveEntryExportKind::Choice(ChoiceEntryExport {
        input: ChoiceExportInput {
            once_only: true,
            is_invisible_default: false,
            has_start: false,
            start_items: vec![],
            has_choice_only: choice_only.is_some(),
            choice_only_items: choice_only.map(|c| vec![RuntimeItem::Exported(c)]).unwrap_or_default(),
            condition_items: None,
        },
        inner: InnerExport::Items(inner),
        inner_has_terminal,
    })
}

fn entry(kind: WeaveEntryExportKind<&'static str>, nested: Option<Vec<Entry>>) -> Entry {
    WeaveExportEntry { kind, nested }
}

fn show(c: &PendingContainer<&'static str>) -> Vec<String> {
    c.content.iter().map(|e| format!("{:?}", e)).collect()
}

fn named(c: &PendingContainer<&'static str>) -> Vec<(String, usize)> {
    c.named.clone()
}

#[test]
fn root_weave_of_two_choices_ends_in_a_final_gather() {
    let w = export_weave(
        vec![
            entry(choice(Some("A"), vec![RuntimeItem::Exported("x")], false), None),
            entry(choice(Some("B"), vec![RuntimeItem::Exported("y")], false), None),
        ],
        "knot",
        true,
        5,
    );
    assert_eq!(0, w.root);
    assert_eq!(4, w.containers.len());
    let root = &w.containers[0];
    assert_eq!("knot", root.path);
    assert_eq!(None, root.name);
    assert_eq!(
        vec![("c-0".to_string(), 1), ("c-1".to_string(), 2), ("g-0".to_string(), 3)],
        named(root)
    );
    let mut want = Vec::new();
    for (c, path) in [("A", "knot.c-0"), ("B", "knot.c-1")] {
        want.push("Object(Command(EvalStart))".to_string());
        want.push("Object(Command(BeginString))".to_string());
        want.push(format!("Object(Exported({:?}))", c));
        want.push("Object(Command(EndString))".to_string());
        want.push("Object(Command(EvalEnd))".to_string());
        want.push(format!("Object(ChoicePoint {{ flags: 20, target: {:?} }})", path));
    }
    assert_eq!(want, show(root));
    let c0 = &w.containers[1];
    assert_eq!("knot.c-0", c0.path);
    assert_eq!(Some("c-0".to_string()), c0.name);
    assert_eq!(5, c0.count_flags);
    assert_eq!(
        vec!["Object(Exported(\"x\"))", "Object(StringValue(\"\\n\"))", "Object(DivertToPath(\"knot.g-0\"))"],
        show(c0)
    );
    let g = &w.containers[3];
    assert_eq!("knot.g-0", g.path);
    assert_eq!(vec!["Object(Command(Done))"], show(g));
}

#[test]
fn gather_without_a_choice_before_is_entered() {
    let w = export_weave(
        vec![
            entry(WeaveEntryExportKind::Content(vec![RuntimeItem::Exported("hello")]), None),
            entry(
                WeaveEntryExportKind::Gather(GatherEntryExport {
                    identifier: None,
                    content: InnerExport::Items(vec![RuntimeItem::Exported("after")]),
                }),
                None,
            ),
        ],
        "k",
        false,
        5,
    );
    assert_eq!(2, w.containers.len());
    assert_eq!(vec!["Object(Exported(\"hello\"))", "Container(1)"], show(&w.containers[0]));
    assert_eq!("k.g-0", w.containers[1].path);
    assert_eq!(vec!["Object(Exported(\"after\"))"], show(&w.containers[1]));
    assert!(w.containers[0].named.is_empty());
}

fn nested_case(wcf: i32) -> Vec<PendingContainer<&'static str>> {
    export_weave(
        vec![
            entry(
                choice(None, vec![], true),
                Some(vec![entry(choice(None, vec![], false), None)]),
            ),
            entry(
                WeaveEntryExportKind::Gather(GatherEntryExport {
                    identifier: Some("join".to_string()),
                    content: InnerExport::Items(vec![]),
                }),
                None,
            ),
        ],
        "k",
        false,
        wcf,
    )
    .containers
}

#[test]
fn loose_choices_of_a_nested_weave_divert_to_the_next_gather() {
    let cs = nested_case(5);
    assert_eq!(5, cs.len());
    assert_eq!(vec![("c-0".to_string(), 1), ("join".to_string(), 4)], named(&cs[0]));
    assert_eq!("Container(2)", show(&cs[0])[3]);
    assert_eq!("k.3", cs[2].path);
    assert_eq!("k.3.c-0", cs[3].path);
    assert_eq!(
        vec!["Object(StringValue(\"\\n\"))", "Object(DivertToPath(\"k.join\"))"],
        show(&cs[3])
    );
    assert_eq!(vec!["Object(StringValue(\"\\n\"))"], show(&cs[1]));
    assert_eq!("k.join", cs[4].path);
}

#[test]
fn nested_loose_ends_are_found_by_their_counting_flags() {
    let cs = nested_case(1);
    assert_eq!(vec!["Object(StringValue(\"\\n\"))"], show(&cs[3]));
}

use bladeink_compiler::weave_export::{current_level_label_paths, label_alias, WeaveLabel};

fn pair(a: &str, b: &str) -> (String, String) {
    (a.to_string(), b.to_string())
}

#[test]
fn label_paths_follow_choices_and_gathers() {
    let labels = vec![
        WeaveLabel::Choice(Some("a".to_string())),
        WeaveLabel::Content,
        WeaveLabel::Gather(Some("g".to_string())),
        WeaveLabel::Choice(Some("b".to_string())),
        WeaveLabel::Gather(None),
        WeaveLabel::Gather(Some("h".to_string())),
    ];
    assert_eq!(
        vec![pair("a", "k.c-0"), pair("g", "k.g"), pair("b", "k.g.c-1"), pair("h", "k.g-0.h")],
        current_level_label_paths("k", &labels)
    );
}

#[test]
fn a_label_first_in_its_container_has_a_short_form() {
    assert_eq!(
        vec![pair("x", "k.0.x"), pair("k.x", "k.0.x")],
        current_level_label_paths("k.0", &vec![WeaveLabel::Gather(Some("x".to_string()))])
    );
    assert_eq!(Some("a.b".to_string()), label_alias("a.0.b", "b"));
    assert_eq!(None, label_alias("a.1.b", "b"));
}
