//! The runtime form of a conditional: the evaluation of its initial
//! condition (a switch's value), then for each branch a container that
//! tests the branch and diverts into the branch's content `b`, which
//! returns to the point where all branches rejoin.
use vstd::prelude::*;
use crate::choice_export::{decimal_text, spec_decimal_text};
use crate::runtime_tree::{
    lemma_items_concat, lemma_items_empty, lemma_items_push, lemma_named_push, runtime_container_model,
    runtime_item_model, runtime_items_model, runtime_named_model, ControlCommand, JoinMark, NativeOp,
    RuntimeContainer, RuntimeItem, SpecRuntimeContainer, SpecRuntimeItem,
};
use crate::text::{chars_of, concat, string_of};

verus! {

/// A branch of a conditional, with its condition and content as exported
/// elsewhere. `content` is the export of the branch's nodes, led by a
/// line break when the branch is not inline.
#[derive(Debug)]
pub struct ConditionalBranchExport<T> {
    pub is_else: bool,
    pub is_true_branch: bool,
    pub matching_equality: bool,
    pub condition_items: Option<Vec<RuntimeItem<T>>>,
    pub content: Vec<RuntimeItem<T>>,
    pub named: Vec<(String, RuntimeContainer<T>)>,
    pub count_flags: i32,
}

pub struct SpecConditionalBranch<T> {
    pub is_else: bool,
    pub is_true_branch: bool,
    pub matching_equality: bool,
    pub condition: Option<Seq<SpecRuntimeItem<T>>>,
    pub content: Seq<SpecRuntimeItem<T>>,
    pub named: Seq<(Seq<char>, SpecRuntimeContainer<T>)>,
    pub count_flags: int,
}

pub open spec fn opt_items_model<T>(o: Option<Vec<RuntimeItem<T>>>) -> Option<Seq<SpecRuntimeItem<T>>> {
    match o {
        Some(v) => Some(runtime_items_model(v@)),
        None => None,
    }
}

pub open spec fn cond_branch_model<T>(b: ConditionalBranchExport<T>) -> SpecConditionalBranch<T> {
    SpecConditionalBranch {
        is_else: b.is_else,
        is_true_branch: b.is_true_branch,
        matching_equality: b.matching_equality,
        condition: opt_items_model(b.condition_items),
        content: runtime_items_model(b.content@),
        named: runtime_named_model(b.named@),
        count_flags: b.count_flags as int,
    }
}

pub open spec fn cond_branches_model<T>(s: Seq<ConditionalBranchExport<T>>) -> Seq<SpecConditionalBranch<T>> {
    s.map_values(|b: ConditionalBranchExport<T>| cond_branch_model(b))
}

pub open spec fn cmd<T>(c: ControlCommand) -> SpecRuntimeItem<T> {
    SpecRuntimeItem::Command(c)
}

/// Whether the branch compares the value on the stack with its own (a
/// switch case) and so works on a copy of it.
pub open spec fn duplicates_value<T>(b: SpecConditionalBranch<T>) -> bool {
    b.matching_equality && !b.is_else
}

/// The test of a branch, ending in the divert into its content (taken
/// only when the test holds, unless it is the else branch).
pub open spec fn spec_branch_control<T>(b: SpecConditionalBranch<T>) -> Seq<SpecRuntimeItem<T>> {
    (if duplicates_value(b) { seq![cmd(ControlCommand::Duplicate)] } else { Seq::empty() })
        + (if !b.is_true_branch && !b.is_else {
            (if b.condition is Some { seq![cmd(ControlCommand::EvalStart)] } else { Seq::empty() })
                + (match b.condition {
                    Some(c) => c,
                    None => Seq::empty(),
                })
                + (if b.matching_equality { seq![SpecRuntimeItem::Native(NativeOp::Equal)] } else { Seq::empty() })
                + (if b.condition is Some { seq![cmd(ControlCommand::EvalEnd)] } else { Seq::empty() })
        } else {
            Seq::empty()
        })
        + seq![SpecRuntimeItem::DivertToNamed { is_conditional: !b.is_else, name: seq!['b'] }]
}

/// The content `b` of a branch: the compared value dropped first where
/// the branch compares, then the content, then the return to the rejoin
/// point.
pub open spec fn spec_branch_body<T>(b: SpecConditionalBranch<T>) -> SpecRuntimeContainer<T> {
    SpecRuntimeContainer {
        path: None,
        name: Some(seq!['b']),
        count_flags: b.count_flags,
        content: (if duplicates_value(b) || (b.is_else && b.matching_equality) {
            seq![cmd(ControlCommand::PopEvaluatedValue)]
        } else {
            Seq::empty()
        }) + b.content + seq![SpecRuntimeItem::DivertToMark { is_function: false, is_conditional: false, mark: JoinMark::Rejoin }],
        named: b.named,
    }
}

pub open spec fn spec_branch_container<T>(b: SpecConditionalBranch<T>) -> SpecRuntimeContainer<T> {
    SpecRuntimeContainer {
        path: None,
        name: None,
        count_flags: 0,
        content: spec_branch_control(b),
        named: seq![(seq!['b'], spec_branch_body(b))],
    }
}

pub open spec fn spec_branch_containers<T>(bs: Seq<SpecConditionalBranch<T>>, k: nat) -> Seq<SpecRuntimeItem<T>>
    decreases k,
{
    if k == 0 {
        Seq::empty()
    } else {
        spec_branch_containers(bs, (k - 1) as nat).push(SpecRuntimeItem::Container(spec_branch_container(bs[k - 1])))
    }
}

/// A switch whose first case has a value and which has no else branch
/// leaves the value on the stack when no case matches: it is dropped
/// before the rejoin point.
pub open spec fn spec_needs_final_pop<T>(is_switch: bool, bs: Seq<SpecConditionalBranch<T>>) -> bool {
    is_switch && bs.len() > 0 && bs[0].condition is Some && !bs.last().is_else
}

/// The runtime container of a conditional with the given initial
/// condition (a switch's value) and branches.
pub open spec fn spec_export_conditional<T>(
    initial: Option<Seq<SpecRuntimeItem<T>>>,
    is_switch: bool,
    bs: Seq<SpecConditionalBranch<T>>,
) -> SpecRuntimeContainer<T> {
    SpecRuntimeContainer {
        path: None,
        name: None,
        count_flags: 0,
        content: (match initial {
            Some(c) => seq![cmd(ControlCommand::EvalStart)] + c + seq![cmd(ControlCommand::EvalEnd)],
            None => Seq::empty(),
        }) + spec_branch_containers(bs, bs.len())
            + (if spec_needs_final_pop(is_switch, bs) { seq![cmd(ControlCommand::PopEvaluatedValue)] } else { Seq::empty() })
            + seq![SpecRuntimeItem::NoOp(JoinMark::Rejoin)],
        named: Seq::empty(),
    }
}

fn push<T>(v: &mut Vec<RuntimeItem<T>>, x: RuntimeItem<T>)
    ensures
        runtime_items_model(final(v)@) == runtime_items_model(old(v)@).push(runtime_item_model(x)),
{
    let ghost before = v@;
    v.push(x);
    proof {
        lemma_items_push(before, x);
    }
}

fn append<T>(v: &mut Vec<RuntimeItem<T>>, other: Vec<RuntimeItem<T>>)
    ensures
        runtime_items_model(final(v)@) == runtime_items_model(old(v)@) + runtime_items_model(other@),
{
    let ghost before = v@;
    let mut o = other;
    v.append(&mut o);
    proof {
        lemma_items_concat(before, other@);
    }
}

fn b_name() -> (s: String)
    ensures
        s@ == seq!['b'],
{
    let mut v: Vec<char> = Vec::new();
    v.push('b');
    assert(v@ =~= seq!['b']);
    string_of(&v)
}

fn branch_container<T>(b: ConditionalBranchExport<T>) -> (c: RuntimeContainer<T>)
    ensures
        runtime_container_model(c) == spec_branch_container(cond_branch_model(b)),
{
    let ghost sb = cond_branch_model(b);
    let ConditionalBranchExport { is_else, is_true_branch, matching_equality, condition_items, content, named, count_flags } = b;
    let dup = matching_equality && !is_else;
    let has_condition = condition_items.is_some();
    let mut control: Vec<RuntimeItem<T>> = Vec::new();
    proof {
        lemma_items_empty::<T>();
    }
    if dup {
        push(&mut control, RuntimeItem::Command(ControlCommand::Duplicate));
    }
    let ghost c1 = runtime_items_model(control@);
    if !is_true_branch && !is_else {
        if has_condition {
            push(&mut control, RuntimeItem::Command(ControlCommand::EvalStart));
        }
        let ghost c2 = runtime_items_model(control@);
        match condition_items {
            Some(ci) => append(&mut control, ci),
            None => {
                assert(runtime_items_model(control@) =~= c2 + Seq::<SpecRuntimeItem<T>>::empty());
            },
        }
        if matching_equality {
            push(&mut control, RuntimeItem::Native(NativeOp::Equal));
        }
        if has_condition {
            push(&mut control, RuntimeItem::Command(ControlCommand::EvalEnd));
        }
    }
    proof {
        let test_part = if !sb.is_true_branch && !sb.is_else {
            (if sb.condition is Some { seq![cmd::<T>(ControlCommand::EvalStart)] } else { Seq::empty() })
                + (match sb.condition {
                    Some(c) => c,
                    None => Seq::empty(),
                })
                + (if sb.matching_equality { seq![SpecRuntimeItem::<T>::Native(NativeOp::Equal)] } else { Seq::empty() })
                + (if sb.condition is Some { seq![cmd::<T>(ControlCommand::EvalEnd)] } else { Seq::empty() })
        } else {
            Seq::empty()
        };
        assert(runtime_items_model(control@) =~= c1 + test_part);
    }
    let ghost c3 = runtime_items_model(control@);
    push(&mut control, RuntimeItem::DivertToNamed { is_conditional: !is_else, name: b_name() });
    assert(runtime_items_model(control@) =~= spec_branch_control(sb));

    let mut body: Vec<RuntimeItem<T>> = Vec::new();
    if dup || (is_else && matching_equality) {
        push(&mut body, RuntimeItem::Command(ControlCommand::PopEvaluatedValue));
    }
    let ghost b1 = runtime_items_model(body@);
    append(&mut body, content);
    push(&mut body, RuntimeItem::DivertToMark { is_function: false, is_conditional: false, mark: JoinMark::Rejoin });
    assert(runtime_items_model(body@) =~= spec_branch_body(sb).content);
    let body_container = RuntimeContainer { path: None, name: Some(b_name()), count_flags, content: body, named };
    let mut outer_named: Vec<(String, RuntimeContainer<T>)> = Vec::new();
    assert(runtime_named_model(outer_named@) =~= Seq::<(Seq<char>, SpecRuntimeContainer<T>)>::empty());
    let entry = (b_name(), body_container);
    let ghost n0 = outer_named@;
    outer_named.push(entry);
    proof {
        lemma_named_push(n0, entry);
        assert(runtime_named_model(outer_named@) =~= seq![(seq!['b'], spec_branch_body(sb))]);
    }
    RuntimeContainer { path: None, name: None, count_flags: 0, content: control, named: outer_named }
}

/// Exports a conditional; see `spec_export_conditional`.
pub fn export_conditional<T>(
    initial_condition_items: Option<Vec<RuntimeItem<T>>>,
    is_switch: bool,
    branches: Vec<ConditionalBranchExport<T>>,
) -> (c: RuntimeContainer<T>)
    ensures
        runtime_container_model(c) == spec_export_conditional(
            opt_items_model(initial_condition_items),
            is_switch,
            cond_branches_model(branches@),
        ),
{
    let ghost bs = cond_branches_model(branches@);
    let ghost init = opt_items_model(initial_condition_items);
    let mut content: Vec<RuntimeItem<T>> = Vec::new();
    proof {
        lemma_items_empty::<T>();
    }
    match initial_condition_items {
        Some(ci) => {
            push(&mut content, RuntimeItem::Command(ControlCommand::EvalStart));
            append(&mut content, ci);
            push(&mut content, RuntimeItem::Command(ControlCommand::EvalEnd));
        },
        None => {},
    }
    let ghost head = runtime_items_model(content@);
    assert(head =~= match init {
        Some(c) => seq![cmd::<T>(ControlCommand::EvalStart)] + c + seq![cmd::<T>(ControlCommand::EvalEnd)],
        None => Seq::<SpecRuntimeItem<T>>::empty(),
    });
    let n = branches.len();
    let first_has_condition = n > 0 && branches[0].condition_items.is_some();
    let last_is_else = n > 0 && branches[n - 1].is_else;
    let needs_final_pop = is_switch && first_has_condition && !last_is_else;
    assert(needs_final_pop == spec_needs_final_pop(is_switch, bs));
    let mut rest = branches;
    let ghost orig = rest@;
    let mut i: usize = 0;
    assert(head + spec_branch_containers(bs, 0) =~= head);
    while i < n
        invariant
            i <= n,
            n == orig.len(),
            bs == cond_branches_model(orig),
            rest@ == orig.skip(i as int),
            runtime_items_model(content@) == head + spec_branch_containers(bs, i as nat),
        decreases n - i,
    {
        let b = rest.remove(0);
        proof {
            assert(orig.skip(i as int)[0] == orig[i as int]);
            assert(rest@ =~= orig.skip(i + 1));
        }
        let ghost before = runtime_items_model(content@);
        push(&mut content, RuntimeItem::Container(branch_container(b)));
        proof {
            assert(bs[i as int] == cond_branch_model(b));
            assert(runtime_items_model(content@) =~= head + spec_branch_containers(bs, (i + 1) as nat));
        }
        i = i + 1;
    }
    let ghost mid = runtime_items_model(content@);
    if needs_final_pop {
        push(&mut content, RuntimeItem::Command(ControlCommand::PopEvaluatedValue));
    }
    push(&mut content, RuntimeItem::NoOp(JoinMark::Rejoin));
    assert(runtime_items_model(content@) =~= spec_export_conditional(init, is_switch, bs).content);
    let named: Vec<(String, RuntimeContainer<T>)> = Vec::new();
    assert(runtime_named_model(named@) =~= Seq::<(Seq<char>, SpecRuntimeContainer<T>)>::empty());
    RuntimeContainer { path: None, name: None, count_flags: 0, content, named }
}

/// Where the content of a conditional's branch is exported, when the
/// conditional's container has a path: that path, the branch's position
/// `index` in the container (after the items evaluating the initial
/// condition), `b`.
pub fn conditional_branch_path(container_path: Option<&str>, index: usize) -> (r: Option<String>)
    ensures
        match container_path {
            Some(p) => r matches Some(s) && s@ == p@ + seq!['.'] + spec_decimal_text(index as nat) + seq!['.', 'b'],
            None => r is None,
        },
{
    match container_path {
        Some(p) => {
            let mut v = chars_of(p);
            v.push('.');
            let mut tail: Vec<char> = Vec::new();
            tail.push('.');
            tail.push('b');
            assert(tail@ =~= seq!['.', 'b']);
            Some(string_of(&concat(&concat(&v, &decimal_text(index)), &tail)))
        },
        None => None,
    }
}

/// The path prefix a branch holding a weave is exported under: the
/// branch's path, else `.^.^` when the branch holds a choice with start
/// content and `.^` otherwise.
pub fn conditional_weave_prefix(branch_path: Option<String>, has_choice_with_start: bool) -> (r: String)
    ensures
        r@ == match branch_path {
            Some(p) => p@,
            None => if has_choice_with_start { seq!['.', '^', '.', '^'] } else { seq!['.', '^'] },
        },
{
    match branch_path {
        Some(p) => p,
        None => {
            let mut v: Vec<char> = Vec::new();
            v.push('.');
            v.push('^');
            if has_choice_with_start {
                v.push('.');
                v.push('^');
            }
            assert(v@ =~= if has_choice_with_start { seq!['.', '^', '.', '^'] } else { seq!['.', '^'] });
            string_of(&v)
        },
    }
}

} // verus!
