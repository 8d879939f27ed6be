use bladeink_compiler::conditional_export::{
    conditional_branch_path, conditional_weave_prefix, export_conditional, ConditionalBranchExport,
};
use bladeink_compiler::runtime_tree::{RuntimeContainer, RuntimeItem};

type Item = RuntimeItem<&'static str>;

fn show(items: &[Item]) -> Vec<String> {
    items.iter().map(|i| match i {
        RuntimeItem::Container(_) => "Container".to_string(),
        other => format!("{:?}", other),
    }).collect()
}

fn branch(
    is_else: bool,
    is_true_branch: bool,
    matching_equality: bool,
    condition: Option<&'static str>,
    content: &'static str,
) -> ConditionalBranchExport<&'static str> {
    ConditionalBranchExport {
        is_else,
        is_true_branch,
        matching_equality,
        condition_items: condition.map(|c| vec![RuntimeItem::Exported(c)]),
        content: vec![RuntimeItem::Exported(content)],
        named: vec![],
        count_flags: 0,
    }
}

fn part(c: &RuntimeContainer<&'static str>, i: usize) -> (Vec<String>, Vec<String>) {
    let b = match &c.content[i] {
        RuntimeItem::Container(b) => b,
        _ => panic!("not a branch"),
    };
    assert_eq!(1, b.named.len());
    assert_eq!("b", b.named[0].0);
    assert_eq!(Some("b".to_string()), b.named[0].1.name);
    (show(&b.content), show(&b.named[0].1.content))
}

const BACK: &str = "DivertToMark { is_function: false, is_conditional: false, mark: Rejoin }";

#[test]
fn if_else_conditional() {
    let c = export_conditional(
        Some(vec![RuntimeItem::Exported("x")]),
        false,
        vec![branch(false, true, false, None, "yes"), branch(true, false, false, None, "no")],
    );
    assert_eq!(
        vec!["Command(EvalStart)", "Exported(\"x\")", "Command(EvalEnd)", "Container", "Container", "NoOp(Rejoin)"],
        show(&c.content)
    );
    let (control, body) = part(&c, 3);
    assert_eq!(vec!["DivertToNamed { is_conditional: true, name: \"b\" }"], control);
    assert_eq!(vec!["Exported(\"yes\")", BACK], body);
    let (control, body) = part(&c, 4);
    assert_eq!(vec!["DivertToNamed { is_conditional: false, name: \"b\" }"], control);
    assert_eq!(vec!["Exported(\"no\")", BACK], body);
}

#[test]
fn switch_without_else_drops_the_value() {
    let c = export_conditional(
        Some(vec![RuntimeItem::Exported("v")]),
        true,
        vec![branch(false, false, true, Some("1"), "one")],
    );
    assert_eq!(
        vec!["Command(EvalStart)", "Exported(\"v\")", "Command(EvalEnd)", "Container", "Command(PopEvaluatedValue)", "NoOp(Rejoin)"],
        show(&c.content)
    );
    let (control, body) = part(&c, 3);
    assert_eq!(
        vec![
            "Command(Duplicate)",
            "Command(EvalStart)",
            "Exported(\"1\")",
            "Native(Equal)",
            "Command(EvalEnd)",
            "DivertToNamed { is_conditional: true, name: \"b\" }",
        ],
        control
    );
    assert_eq!(vec!["Command(PopEvaluatedValue)", "Exported(\"one\")", BACK], body);
}

#[test]
fn switch_else_pops_and_multi_branch_tests() {
    let c = export_conditional(
        Some(vec![RuntimeItem::Exported("v")]),
        true,
        vec![branch(false, false, true, Some("1"), "one"), branch(true, false, true, None, "other")],
    );
    assert_eq!(
        vec!["Command(EvalStart)", "Exported(\"v\")", "Command(EvalEnd)", "Container", "Container", "NoOp(Rejoin)"],
        show(&c.content)
    );
    let (control, body) = part(&c, 4);
    assert_eq!(vec!["DivertToNamed { is_conditional: false, name: \"b\" }"], control);
    assert_eq!(vec!["Command(PopEvaluatedValue)", "Exported(\"other\")", BACK], body);

    let c = export_conditional(None, false, vec![branch(false, false, false, Some("c"), "a")]);
    assert_eq!(vec!["Container", "NoOp(Rejoin)"], show(&c.content));
    let (control, _) = part(&c, 0);
    assert_eq!(
        vec!["Command(EvalStart)", "Exported(\"c\")", "Command(EvalEnd)", "DivertToNamed { is_conditional: true, name: \"b\" }"],
        control
    );
}

#[test]
fn conditional_branch_paths() {
    assert_eq!(Some("k.0.3.b".to_string()), conditional_branch_path(Some("k.0"), 3));
    assert_eq!(None, conditional_branch_path(None, 3));
    assert_eq!("k.1.b", conditional_weave_prefix(Some("k.1.b".to_string()), true));
    assert_eq!(".^.^", conditional_weave_prefix(None, true));
    assert_eq!(".^", conditional_weave_prefix(None, false));
}
