//! The runtime form of a sequence (`{a|b|c}` and its kinds): the
//! evaluation that picks a branch from the visit count, the test and divert
//! for each branch, and a named container per branch that returns to the
//! end of the sequence.
use vstd::prelude::*;
use crate::choice_export::{decimal_text, spec_decimal_text};
use crate::runtime_tree::{
    lemma_items_concat, lemma_items_empty, lemma_items_push, lemma_named_push, runtime_container_model,
    runtime_item_model, runtime_items_model, runtime_named_model, ControlCommand, NativeOp, RuntimeContainer,
    RuntimeItem, JoinMark, SpecRuntimeContainer, SpecRuntimeItem,
};
use crate::text::{concat, string_of};

verus! {

/// A branch of a sequence as exported elsewhere: its content, the
/// containers it holds by name, and its counting flags.
#[derive(Debug)]
pub struct SequenceBranch<T> {
    pub content: Vec<RuntimeItem<T>>,
    pub named: Vec<(String, RuntimeContainer<T>)>,
    pub count_flags: i32,
}

pub struct SpecSequenceBranch<T> {
    pub content: Seq<SpecRuntimeItem<T>>,
    pub named: Seq<(Seq<char>, SpecRuntimeContainer<T>)>,
    pub count_flags: int,
}

pub open spec fn branch_model<T>(b: SequenceBranch<T>) -> SpecSequenceBranch<T> {
    SpecSequenceBranch {
        content: runtime_items_model(b.content@),
        named: runtime_named_model(b.named@),
        count_flags: b.count_flags as int,
    }
}

pub open spec fn branches_model<T>(s: Seq<SequenceBranch<T>>) -> Seq<SpecSequenceBranch<T>> {
    s.map_values(|b: SequenceBranch<T>| branch_model(b))
}

/// The kinds a sequence's type bits give: once, cycle, stopping (also
/// when no kind is given), shuffle.
pub open spec fn spec_sequence_kinds(t: u8) -> (bool, bool, bool, bool) {
    let once = t & 8 != 0;
    let cycle = t & 2 != 0;
    let shuffle = t & 4 != 0;
    let stopping = t & 1 != 0 || (!once && !cycle && !shuffle);
    (once, cycle, stopping, shuffle)
}

/// The name of branch `i`: `s` and its index.
pub open spec fn spec_branch_name(i: nat) -> Seq<char> {
    seq!['s'] + spec_decimal_text(i)
}

pub open spec fn cmd<T>(c: ControlCommand) -> SpecRuntimeItem<T> {
    SpecRuntimeItem::Command(c)
}

/// The evaluation that leaves the index of the branch to take: the visit
/// count, capped (stopping, once) or wrapped (cycle), or shuffled.
pub open spec fn spec_sequence_head<T>(t: u8, n: nat) -> Seq<SpecRuntimeItem<T>> {
    let (once, cycle, stopping, shuffle) = spec_sequence_kinds(t);
    let count: int = if once { n + 1int } else { n as int };
    seq![cmd(ControlCommand::EvalStart), cmd(ControlCommand::VisitIndex)]
        + (if stopping || once {
            seq![SpecRuntimeItem::IntValue(count - 1), SpecRuntimeItem::Native(NativeOp::Min)]
        } else if cycle {
            seq![SpecRuntimeItem::IntValue(n as int), SpecRuntimeItem::Native(NativeOp::Mod)]
        } else {
            Seq::empty()
        })
        + (if shuffle {
            (if once || stopping {
                seq![
                    cmd(ControlCommand::Duplicate),
                    SpecRuntimeItem::IntValue(if stopping { n - 1 } else { n as int }),
                    SpecRuntimeItem::Native(NativeOp::Equal),
                    SpecRuntimeItem::DivertToMark { is_function: false, is_conditional: true, mark: JoinMark::PostShuffle },
                ]
            } else {
                Seq::empty()
            }) + seq![
                SpecRuntimeItem::IntValue(if stopping { if n > 0 { n - 1 } else { 0 } } else { n as int }),
                cmd(ControlCommand::SequenceShuffleIndex),
            ] + (if once || stopping { seq![SpecRuntimeItem::NoOp(JoinMark::PostShuffle)] } else { Seq::empty() })
        } else {
            Seq::empty()
        })
        + seq![cmd(ControlCommand::EvalEnd)]
}

/// The test for branch `i`: compare the index with `i`, divert to the
/// branch when equal.
pub open spec fn spec_branch_test<T>(i: nat) -> Seq<SpecRuntimeItem<T>> {
    seq![
        cmd(ControlCommand::EvalStart),
        cmd(ControlCommand::Duplicate),
        SpecRuntimeItem::IntValue(i as int),
        SpecRuntimeItem::Native(NativeOp::Equal),
        cmd(ControlCommand::EvalEnd),
        SpecRuntimeItem::DivertToBranch(spec_branch_name(i)),
    ]
}

pub open spec fn spec_branch_tests<T>(k: nat) -> Seq<SpecRuntimeItem<T>>
    decreases k,
{
    if k == 0 {
        Seq::empty()
    } else {
        spec_branch_tests((k - 1) as nat) + spec_branch_test((k - 1) as nat)
    }
}

/// The container of branch `i`: drop the index, run the branch's content
/// (none past the given branches: the extra branch of a once-only
/// sequence), return to the end of the sequence.
pub open spec fn spec_branch_container<T>(bs: Seq<SpecSequenceBranch<T>>, i: nat) -> SpecRuntimeContainer<T> {
    let has = i < bs.len();
    SpecRuntimeContainer {
        path: None,
        name: Some(spec_branch_name(i)),
        count_flags: if has { bs[i as int].count_flags } else { 0 },
        content: seq![cmd(ControlCommand::PopEvaluatedValue)]
            + (if has { bs[i as int].content } else { Seq::empty() })
            + seq![SpecRuntimeItem::DivertToMark { is_function: true, is_conditional: false, mark: JoinMark::PostSequence }],
        named: if has { bs[i as int].named } else { Seq::empty() },
    }
}

pub open spec fn spec_branch_containers<T>(bs: Seq<SpecSequenceBranch<T>>, k: nat) -> Seq<(Seq<char>, SpecRuntimeContainer<T>)>
    decreases k,
{
    if k == 0 {
        Seq::empty()
    } else {
        spec_branch_containers(bs, (k - 1) as nat).push((spec_branch_name((k - 1) as nat), spec_branch_container(bs, (k - 1) as nat)))
    }
}

/// The runtime container of a sequence of type bits `t` with branches
/// `bs`: a once-only sequence has one branch more, left empty, for when
/// all are used up.
pub open spec fn spec_export_sequence<T>(t: u8, bs: Seq<SpecSequenceBranch<T>>) -> SpecRuntimeContainer<T> {
    let (once, cycle, stopping, shuffle) = spec_sequence_kinds(t);
    let n = bs.len();
    let count: nat = if once { n + 1 } else { n };
    SpecRuntimeContainer {
        path: None,
        name: None,
        count_flags: 5,
        content: spec_sequence_head(t, n) + spec_branch_tests(count) + seq![SpecRuntimeItem::NoOp(JoinMark::PostSequence)],
        named: spec_branch_containers(bs, count),
    }
}

fn push<T>(v: &mut Vec<RuntimeItem<T>>, x: RuntimeItem<T>)
    ensures
        runtime_items_model(final(v)@) == runtime_items_model(old(v)@).push(runtime_item_model(x)),
{
    let ghost before = v@;
    v.push(x);
    proof {
        lemma_items_push(before, x);
    }
}

fn branch_name(i: usize) -> (s: String)
    ensures
        s@ == spec_branch_name(i as nat),
{
    let mut p: Vec<char> = Vec::new();
    p.push('s');
    assert(p@ =~= seq!['s']);
    string_of(&concat(&p, &decimal_text(i)))
}

/// Exports a sequence; see `spec_export_sequence`.
pub fn export_sequence<T>(sequence_type: u8, branches: Vec<SequenceBranch<T>>) -> (c: RuntimeContainer<T>)
    requires
        branches.len() < i32::MAX,
    ensures
        runtime_container_model(c) == spec_export_sequence(sequence_type, branches_model(branches@)),
{
    let ghost bs = branches_model(branches@);
    let once = sequence_type & 8 != 0;
    let cycle = sequence_type & 2 != 0;
    let shuffle = sequence_type & 4 != 0;
    let stopping = sequence_type & 1 != 0 || (!once && !cycle && !shuffle);
    let n = branches.len();
    let count = if once { n + 1 } else { n };
    let mut items: Vec<RuntimeItem<T>> = Vec::new();
    proof {
        lemma_items_empty::<T>();
    }
    push(&mut items, RuntimeItem::Command(ControlCommand::EvalStart));
    push(&mut items, RuntimeItem::Command(ControlCommand::VisitIndex));
    if stopping || once {
        push(&mut items, RuntimeItem::IntValue(count as i32 - 1));
        push(&mut items, RuntimeItem::Native(NativeOp::Min));
    } else if cycle {
        push(&mut items, RuntimeItem::IntValue(n as i32));
        push(&mut items, RuntimeItem::Native(NativeOp::Mod));
    }
    if shuffle {
        if once || stopping {
            let last_idx: i32 = if stopping { n as i32 - 1 } else { n as i32 };
            push(&mut items, RuntimeItem::Command(ControlCommand::Duplicate));
            push(&mut items, RuntimeItem::IntValue(last_idx));
            push(&mut items, RuntimeItem::Native(NativeOp::Equal));
            push(&mut items, RuntimeItem::DivertToMark { is_function: false, is_conditional: true, mark: JoinMark::PostShuffle });
        }
        let to_shuffle: usize = if stopping { if n > 0 { n - 1 } else { 0 } } else { n };
        push(&mut items, RuntimeItem::IntValue(to_shuffle as i32));
        push(&mut items, RuntimeItem::Command(ControlCommand::SequenceShuffleIndex));
        if once || stopping {
            push(&mut items, RuntimeItem::NoOp(JoinMark::PostShuffle));
        }
    }
    push(&mut items, RuntimeItem::Command(ControlCommand::EvalEnd));
    let ghost head = runtime_items_model(items@);
    assert(head =~= spec_sequence_head::<T>(sequence_type, n as nat));
    let mut i: usize = 0;
    while i < count
        invariant
            i <= count,
            count <= i32::MAX,
            runtime_items_model(items@) == head + spec_branch_tests::<T>(i as nat),
        decreases count - i,
    {
        let ghost before = runtime_items_model(items@);
        push(&mut items, RuntimeItem::Command(ControlCommand::EvalStart));
        push(&mut items, RuntimeItem::Command(ControlCommand::Duplicate));
        push(&mut items, RuntimeItem::IntValue(i as i32));
        push(&mut items, RuntimeItem::Native(NativeOp::Equal));
        push(&mut items, RuntimeItem::Command(ControlCommand::EvalEnd));
        push(&mut items, RuntimeItem::DivertToBranch(branch_name(i)));
        assert(runtime_items_model(items@) =~= before + spec_branch_test::<T>(i as nat));
        assert(spec_branch_tests::<T>((i + 1) as nat) == spec_branch_tests::<T>(i as nat) + spec_branch_test::<T>(i as nat));
        i = i + 1;
    }
    push(&mut items, RuntimeItem::NoOp(JoinMark::PostSequence));
    let ghost items_model = runtime_items_model(items@);
    assert(items_model =~= head + spec_branch_tests::<T>(count as nat) + seq![SpecRuntimeItem::<T>::NoOp(JoinMark::PostSequence)]);

    let mut rest = branches;
    let ghost orig = rest@;
    let mut named: Vec<(String, RuntimeContainer<T>)> = Vec::new();
    assert(runtime_named_model(named@) =~= Seq::<(Seq<char>, SpecRuntimeContainer<T>)>::empty());
    let mut j: usize = 0;
    while j < count
        invariant
            j <= count,
            n == orig.len(),
            count == (if once { n + 1 } else { n as int }),
            bs == branches_model(orig),
            j <= n ==> rest@ == orig.skip(j as int),
            j > n ==> rest@.len() == 0,
            runtime_named_model(named@) == spec_branch_containers(bs, j as nat),
            runtime_items_model(items@) == items_model,
        decreases count - j,
    {
        let mut content: Vec<RuntimeItem<T>> = Vec::new();
        proof {
            lemma_items_empty::<T>();
        }
        push(&mut content, RuntimeItem::Command(ControlCommand::PopEvaluatedValue));
        let ghost c0 = runtime_items_model(content@);
        let (flags, inner) = if j < n {
            proof {
                assert(rest@.len() > 0);
            }
            let b = rest.remove(0);
            proof {
                assert(orig.skip(j as int)[0] == orig[j as int]);
                assert(rest@ =~= orig.skip(j + 1));
                assert(bs[j as int] == branch_model(b));
            }
            let SequenceBranch { content: bc, named: bn, count_flags: bf } = b;
            let ghost before = content@;
            let mut bc = bc;
            content.append(&mut bc);
            proof {
                lemma_items_concat(before, b.content@);
            }
            (bf, bn)
        } else {
            let bn: Vec<(String, RuntimeContainer<T>)> = Vec::new();
            proof {
                assert(runtime_items_model(content@) =~= c0 + Seq::<SpecRuntimeItem<T>>::empty());
                assert(runtime_named_model(bn@) =~= Seq::<(Seq<char>, SpecRuntimeContainer<T>)>::empty());
            }
            (0i32, bn)
        };
        proof {
            let has = j < n;
            assert(runtime_items_model(content@) == c0 + (if has { bs[j as int].content } else { Seq::<SpecRuntimeItem<T>>::empty() }));
            assert(flags as int == (if has { bs[j as int].count_flags } else { 0 }));
            assert(runtime_named_model(inner@) == (if has { bs[j as int].named } else { Seq::<(Seq<char>, SpecRuntimeContainer<T>)>::empty() }));
        }
        let ghost mid = runtime_items_model(content@);
        push(&mut content, RuntimeItem::DivertToMark { is_function: true, is_conditional: false, mark: JoinMark::PostSequence });
        assert(c0 =~= seq![cmd::<T>(ControlCommand::PopEvaluatedValue)]);
        assert(runtime_items_model(content@) =~= seq![cmd::<T>(ControlCommand::PopEvaluatedValue)]
            + (if j < n { bs[j as int].content } else { Seq::<SpecRuntimeItem<T>>::empty() })
            + seq![SpecRuntimeItem::<T>::DivertToMark { is_function: true, is_conditional: false, mark: JoinMark::PostSequence }]);
        let container = RuntimeContainer { path: None, name: Some(branch_name(j)), count_flags: flags, content, named: inner };
        assert(runtime_container_model(container) == spec_branch_container(bs, j as nat));
        let ghost nb = named@;
        let entry = (branch_name(j), container);
        named.push(entry);
        proof {
            lemma_named_push(nb, entry);
        }
        j = j + 1;
    }
    RuntimeContainer { path: None, name: None, count_flags: 5, content: items, named }
}

/// The path the content of branch `index` is exported under, when the
/// sequence's container has a path: that path, `.`, the branch's name.
pub fn sequence_branch_path(container_path: Option<&str>, index: usize) -> (r: Option<String>)
    ensures
        match container_path {
            Some(p) => r matches Some(s) && s@ == p@ + seq!['.'] + spec_branch_name(index as nat),
            None => r is None,
        },
{
    match container_path {
        Some(p) => {
            let mut v = crate::text::chars_of(p);
            v.push('.');
            let name = crate::text::chars_of(branch_name(index).as_str());
            Some(string_of(&concat(&v, &name)))
        },
        None => None,
    }
}

/// The path prefix a branch holding a weave is exported under: the
/// branch's path, or `.^` when the sequence's container has none.
pub fn sequence_weave_prefix(container_path: Option<&str>, index: usize) -> (r: String)
    ensures
        r@ == match container_path {
            Some(p) => p@ + seq!['.'] + spec_branch_name(index as nat),
            None => seq!['.', '^'],
        },
{
    match sequence_branch_path(container_path, index) {
        Some(s) => s,
        None => {
            let mut v: Vec<char> = Vec::new();
            v.push('.');
            v.push('^');
            assert(v@ =~= seq!['.', '^']);
            string_of(&v)
        },
    }
}

} // verus!
