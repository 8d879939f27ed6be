use bladeink_compiler::weave::{StructuredWeave, StructuredWeaveEntryKind, WeaveNode};

fn kinds(w: &StructuredWeave) -> Vec<StructuredWeaveEntryKind> {
    w.entries().iter().map(|e| e.kind().clone()).collect()
}

#[test]
fn choices_and_content_at_one_depth() {
    let nodes = [WeaveNode::Choice(1), WeaveNode::Other, WeaveNode::Choice(1)];
    let w = StructuredWeave::from_nodes(&nodes).unwrap();
    assert_eq!(1, w.base_depth());
    assert_eq!(
        vec![
            StructuredWeaveEntryKind::Choice(0),
            StructuredWeaveEntryKind::Content(vec![1]),
            StructuredWeaveEntryKind::Choice(2),
        ],
        kinds(&w)
    );
    assert!(w.entries().iter().all(|e| e.nested().is_none()));
}

#[test]
fn deeper_choices_nest_under_the_entry_before_them() {
    let nodes = [
        WeaveNode::Choice(1),
        WeaveNode::Choice(2),
        WeaveNode::Other,
        WeaveNode::Gather(1),
    ];
    let w = StructuredWeave::from_nodes(&nodes).unwrap();
    assert_eq!(
        vec![StructuredWeaveEntryKind::Choice(0), StructuredWeaveEntryKind::Gather(3)],
        kinds(&w)
    );
    let nested = w.entries()[0].nested().unwrap();
    assert_eq!(2, nested.base_depth());
    assert_eq!(
        vec![StructuredWeaveEntryKind::Choice(1), StructuredWeaveEntryKind::Content(vec![2])],
        kinds(nested)
    );
    assert!(w.entries()[1].nested().is_none());
}

#[test]
fn content_pending_before_a_nested_part_comes_after_it() {
    let nodes = [
        WeaveNode::Gather(1),
        WeaveNode::Other,
        WeaveNode::Choice(2),
        WeaveNode::Other,
    ];
    let w = StructuredWeave::from_nodes(&nodes).unwrap();
    assert_eq!(
        vec![StructuredWeaveEntryKind::Gather(0), StructuredWeaveEntryKind::Content(vec![1])],
        kinds(&w)
    );
    let nested = w.entries()[0].nested().unwrap();
    assert_eq!(
        vec![StructuredWeaveEntryKind::Choice(2), StructuredWeaveEntryKind::Content(vec![3])],
        kinds(nested)
    );
}

#[test]
fn a_leading_deeper_part_gets_an_empty_content_entry() {
    let nodes = [WeaveNode::Choice(2), WeaveNode::Choice(1)];
    let w = StructuredWeave::from_nodes(&nodes).unwrap();
    assert_eq!(1, w.base_depth());
    assert_eq!(
        vec![StructuredWeaveEntryKind::Content(vec![]), StructuredWeaveEntryKind::Choice(1)],
        kinds(&w)
    );
    let nested = w.entries()[0].nested().unwrap();
    assert_eq!(vec![StructuredWeaveEntryKind::Choice(0)], kinds(nested));
}

#[test]
fn base_depth_is_the_least_depth() {
    let nodes = [WeaveNode::Other, WeaveNode::Choice(2), WeaveNode::Choice(3)];
    let w = StructuredWeave::from_nodes(&nodes).unwrap();
    assert_eq!(2, w.base_depth());
    assert_eq!(
        vec![StructuredWeaveEntryKind::Content(vec![0]), StructuredWeaveEntryKind::Choice(1)],
        kinds(&w)
    );
    assert_eq!(3, w.entries()[1].nested().unwrap().base_depth());
}

#[test]
fn weave_without_choices_or_gathers() {
    let w = StructuredWeave::from_nodes(&[]).unwrap();
    assert_eq!(1, w.base_depth());
    assert!(w.entries().is_empty());
    let w = StructuredWeave::from_nodes(&[WeaveNode::Other, WeaveNode::Other]).unwrap();
    assert_eq!(vec![StructuredWeaveEntryKind::Content(vec![0, 1])], kinds(&w));
}

fn flatten(w: &StructuredWeave, out: &mut Vec<usize>) {
    for e in w.entries() {
        match e.kind() {
            StructuredWeaveEntryKind::Content(v) => out.extend(v.iter().copied()),
            StructuredWeaveEntryKind::Choice(i) => out.push(*i),
            StructuredWeaveEntryKind::Gather(i) => out.push(*i),
        }
        if let Some(n) = e.nested() {
            flatten(n, out);
        }
    }
}

#[test]
fn structuring_keeps_every_node_once() {
    let nodes = [
        WeaveNode::Other,
        WeaveNode::Gather(1),
        WeaveNode::Other,
        WeaveNode::Choice(2),
        WeaveNode::Choice(3),
        WeaveNode::Other,
        WeaveNode::Choice(2),
        WeaveNode::Gather(1),
        WeaveNode::Other,
    ];
    let w = StructuredWeave::from_nodes(&nodes).unwrap();
    let mut all = Vec::new();
    flatten(&w, &mut all);
    all.sort();
    assert_eq!((0..nodes.len()).collect::<Vec<_>>(), all);
}
