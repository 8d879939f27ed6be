use bladeink_compiler::choice_export::{choice_key, choice_point_flags, decimal_text, start_choice_paths};

#[test]
fn choice_point_flags_set_one_bit_per_fact() {
    assert_eq!(0, choice_point_flags(false, false, false, false, false));
    assert_eq!(1, choice_point_flags(true, false, false, false, false));
    assert_eq!(2, choice_point_flags(false, true, false, false, false));
    assert_eq!(4, choice_point_flags(false, false, true, false, false));
    assert_eq!(8, choice_point_flags(false, false, false, true, false));
    assert_eq!(16, choice_point_flags(false, false, false, false, true));
    assert_eq!(22, choice_point_flags(false, true, true, false, true));
    assert_eq!(31, choice_point_flags(true, true, true, true, true));
}

#[test]
fn decimal_text_has_no_leading_zeros() {
    let s: String = decimal_text(0).into_iter().collect();
    assert_eq!("0", s);
    let s: String = decimal_text(1045).into_iter().collect();
    assert_eq!("1045", s);
}

#[test]
fn choice_key_names_the_index() {
    assert_eq!("c-0", choice_key(0));
    assert_eq!("c-12", choice_key(12));
}

#[test]
fn start_choice_paths_inside_a_named_container() {
    let p = start_choice_paths("knot.0", 3, "knot.0.c-1", "knot.0", 1);
    assert_eq!("knot.0.3", p.outer);
    assert_eq!("knot.0.3.$r1", p.r1);
    assert_eq!("knot.0.c-1.$r2", p.r2);
    assert_eq!("knot.0.3.s", p.start);
}

#[test]
fn start_choice_paths_inside_a_relative_container() {
    let p = start_choice_paths(".^.b", 0, "k.c-0", "k", 0);
    assert_eq!(".^.^.0", p.outer);
    assert_eq!(".^.b.0.$r1", p.r1);
    assert_eq!("k.c-0.$r2", p.r2);
    assert_eq!(".^.^.0.s", p.start);
}

use bladeink_compiler::choice_export::{export_choice, ChoiceExportInput};
use bladeink_compiler::runtime_tree::{ControlCommand, RuntimeContainer, RuntimeItem};

fn show(items: &[RuntimeItem<&'static str>]) -> Vec<String> {
    items.iter().map(|i| match i {
        RuntimeItem::Command(c) => format!("{:?}", c),
        RuntimeItem::PathValue(p) => format!("path {}", p),
        RuntimeItem::VariableAssignment { name, is_global, is_new_declaration } =>
            format!("assign {} {} {}", name, is_global, is_new_declaration),
        RuntimeItem::DivertToContainer(p) => format!("divert {}", p),
        RuntimeItem::VariableDivert(v) => format!("vdivert {}", v),
        RuntimeItem::ChoicePoint { flags, target } => format!("choice {} {}", flags, target),
        RuntimeItem::Container(c) => format!("container {} {:?}", c.path.clone().unwrap_or_default(), c.name),
        RuntimeItem::Exported(x) => format!("exported {}", x),
        other => format!("{:?}", other),
    }).collect()
}

fn container<'a>(item: &'a RuntimeItem<&'static str>) -> &'a RuntimeContainer<&'static str> {
    match item {
        RuntimeItem::Container(c) => c,
        _ => panic!("not a container"),
    }
}

#[test]
fn choice_without_start_content_is_placed_where_it_stands() {
    let input = ChoiceExportInput {
        once_only: true,
        is_invisible_default: false,
        has_start: false,
        start_items: vec![],
        has_choice_only: true,
        choice_only_items: vec![RuntimeItem::Exported("co")],
        condition_items: Some(vec![RuntimeItem::Exported("cond")]),
    };
    let r = export_choice(input, 0, "k", 2, "k.c-0", "k");
    assert_eq!(
        vec!["EvalStart", "BeginString", "exported co", "EndString", "exported cond", "EvalEnd", "choice 21 k.c-0"],
        show(&r.into_current)
    );
    assert!(r.into_choice_container.is_empty());
    let _ = ControlCommand::EvalStart;
}

#[test]
fn choice_with_start_content_gets_its_own_containers() {
    let input = ChoiceExportInput {
        once_only: false,
        is_invisible_default: false,
        has_start: true,
        start_items: vec![RuntimeItem::Exported("hi")],
        has_choice_only: false,
        choice_only_items: vec![],
        condition_items: None,
    };
    let r = export_choice(input, 1, "knot.0", 3, "knot.0.c-1", "knot.0");
    assert_eq!(vec!["container knot.0.3 None"], show(&r.into_current));
    let outer = container(&r.into_current[0]);
    assert_eq!(0, outer.count_flags);
    assert_eq!(
        vec![
            "EvalStart",
            "path knot.0.3.$r1",
            "assign $r false true",
            "BeginString",
            "divert knot.0.3.s",
            "container knot.0.3.$r1 Some(\"$r1\")",
            "EndString",
            "EvalEnd",
            "choice 2 knot.0.c-1",
        ],
        show(&outer.content)
    );
    assert_eq!(1, outer.named.len());
    assert_eq!("s", outer.named[0].0);
    let start = &outer.named[0].1;
    assert_eq!(Some("knot.0.3.s".to_string()), start.path);
    assert_eq!(vec!["exported hi", "vdivert $r"], show(&start.content));
    assert_eq!(
        vec![
            "EvalStart",
            "path knot.0.c-1.$r2",
            "EvalEnd",
            "assign $r false true",
            "divert knot.0.3.s",
            "container knot.0.c-1.$r2 Some(\"$r2\")",
        ],
        show(&r.into_choice_container)
    );
}
