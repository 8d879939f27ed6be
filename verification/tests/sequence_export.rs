use bladeink_compiler::runtime_tree::{RuntimeContainer, RuntimeItem};
use bladeink_compiler::sequence_export::{
    export_sequence, sequence_branch_path, sequence_weave_prefix, SequenceBranch,
};

fn branch(x: &'static str) -> SequenceBranch<&'static str> {
    SequenceBranch { content: vec![RuntimeItem::Exported(x)], named: vec![], count_flags: 0 }
}

fn show(items: &[RuntimeItem<&'static str>]) -> Vec<String> {
    items.iter().map(|i| format!("{:?}", i)).collect()
}

fn tests_for(count: usize) -> Vec<String> {
    let mut v = Vec::new();
    for i in 0..count {
        v.push("Command(EvalStart)".to_string());
        v.push("Command(Duplicate)".to_string());
        v.push(format!("IntValue({})", i));
        v.push("Native(Equal)".to_string());
        v.push("Command(EvalEnd)".to_string());
        v.push(format!("DivertToBranch(\"s{}\")", i));
    }
    v
}

fn expect(c: &RuntimeContainer<&'static str>, head: &[&str], count: usize) {
    let mut want: Vec<String> = head.iter().map(|s| s.to_string()).collect();
    want.extend(tests_for(count));
    want.push("NoOp(PostSequence)".to_string());
    assert_eq!(want, show(&c.content));
    assert_eq!(5, c.count_flags);
    assert_eq!(None, c.name);
    assert_eq!(count, c.named.len());
    for (i, (name, b)) in c.named.iter().enumerate() {
        assert_eq!(&format!("s{}", i), name);
        assert_eq!(Some(format!("s{}", i)), b.name);
        assert_eq!("Command(PopEvaluatedValue)", format!("{:?}", b.content[0]));
        assert_eq!(
            "DivertToMark { is_function: true, is_conditional: false, mark: PostSequence }",
            format!("{:?}", b.content[b.content.len() - 1])
        );
    }
}

#[test]
fn stopping_sequence_caps_the_visit_count() {
    let c = export_sequence(0, vec![branch("a"), branch("b")]);
    expect(&c, &["Command(EvalStart)", "Command(VisitIndex)", "IntValue(1)", "Native(Min)", "Command(EvalEnd)"], 2);
    assert_eq!(vec!["Command(PopEvaluatedValue)", "Exported(\"a\")", "DivertToMark { is_function: true, is_conditional: false, mark: PostSequence }"], show(&c.named[0].1.content));
}

#[test]
fn once_sequence_has_an_empty_last_branch() {
    let c = export_sequence(8, vec![branch("a")]);
    expect(&c, &["Command(EvalStart)", "Command(VisitIndex)", "IntValue(1)", "Native(Min)", "Command(EvalEnd)"], 2);
    assert_eq!(2, c.named[1].1.content.len());
}

#[test]
fn cycle_sequence_wraps_the_visit_count() {
    let c = export_sequence(2, vec![branch("a"), branch("b"), branch("c")]);
    expect(&c, &["Command(EvalStart)", "Command(VisitIndex)", "IntValue(3)", "Native(Mod)", "Command(EvalEnd)"], 3);
}

#[test]
fn shuffle_sequences() {
    let c = export_sequence(4, vec![branch("a"), branch("b")]);
    expect(&c, &["Command(EvalStart)", "Command(VisitIndex)", "IntValue(2)", "Command(SequenceShuffleIndex)", "Command(EvalEnd)"], 2);
    let c = export_sequence(5, vec![branch("a"), branch("b"), branch("c")]);
    expect(
        &c,
        &[
            "Command(EvalStart)",
            "Command(VisitIndex)",
            "IntValue(2)",
            "Native(Min)",
            "Command(Duplicate)",
            "IntValue(2)",
            "Native(Equal)",
            "DivertToMark { is_function: false, is_conditional: true, mark: PostShuffle }",
            "IntValue(2)",
            "Command(SequenceShuffleIndex)",
            "NoOp(PostShuffle)",
            "Command(EvalEnd)",
        ],
        3,
    );
}

#[test]
fn branch_paths() {
    assert_eq!(Some("k.0.s3".to_string()), sequence_branch_path(Some("k.0"), 3));
    assert_eq!(None, sequence_branch_path(None, 3));
    assert_eq!("k.s0", sequence_weave_prefix(Some("k"), 0));
    assert_eq!(".^", sequence_weave_prefix(None, 1));
}
