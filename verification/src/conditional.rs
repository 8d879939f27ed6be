//! Conditional blocks: recognising them, and folding `- cond:` branches into
//! nested conditionals.
use vstd::prelude::*;
use crate::ast::{condition_model, nodes_model, Condition, Node, SpecCondition, SpecNode};
use crate::text::{chars_of, contains_char, spec_contains, starts_with_char};

verus! {

/// Whether a line opens a conditional: it starts with `{` and holds a `:`.
pub open spec fn spec_looks_like_conditional(content: Seq<char>) -> bool {
    content.len() > 0 && content[0] == '{' && spec_contains(content, seq![':'])
}

pub fn looks_like_conditional_chars(content: &[char]) -> (r: bool)
    ensures
        r == spec_looks_like_conditional(content@),
{
    starts_with_char(content, '{') && contains_char(content, ':')
}

/// Whether a line opens a conditional.
pub fn looks_like_conditional(content: &str) -> (r: bool)
    ensures
        r == spec_looks_like_conditional(content@),
{
    let chars = chars_of(content);
    looks_like_conditional_chars(&chars)
}

pub open spec fn opt_condition_model(c: Option<Condition>) -> Option<SpecCondition> {
    match c {
        Some(c) => Some(condition_model(c)),
        None => None,
    }
}

pub open spec fn opt_nodes_model(n: Option<Vec<Node>>) -> Option<Seq<SpecNode>> {
    match n {
        Some(v) => Some(nodes_model(v@)),
        None => None,
    }
}

/// The branches of a conditional block as the contracts see them.
pub open spec fn cond_branches_model(b: Seq<(Option<Condition>, Vec<Node>)>) -> Seq<(Option<SpecCondition>, Seq<SpecNode>)> {
    b.map_values(|x: (Option<Condition>, Vec<Node>)| (opt_condition_model(x.0), nodes_model(x.1@)))
}

/// Folds branches from the last one back: a branch with a condition
/// becomes a conditional whose `else` is what was folded so far; one
/// without (an `else`) replaces it.
pub open spec fn spec_fold_branches(b: Seq<(Option<SpecCondition>, Seq<SpecNode>)>, acc: Option<Seq<SpecNode>>) -> Option<Seq<SpecNode>>
    decreases b.len(),
{
    if b.len() == 0 {
        acc
    } else {
        let (c, n) = b.last();
        let next = match c {
            Some(c) => Some(seq![SpecNode::Conditional { condition: c, when_true: n, when_false: acc }]),
            None => Some(n),
        };
        spec_fold_branches(b.drop_last(), next)
    }
}

/// The nodes a chain of `- cond:` / `- else:` branches stands for.
pub open spec fn spec_fold_conditional_branches(b: Seq<(Option<SpecCondition>, Seq<SpecNode>)>) -> Seq<SpecNode> {
    match spec_fold_branches(b, None) {
        Some(v) => v,
        None => Seq::empty(),
    }
}

/// Folds the branches of a multi-branch conditional into nested
/// conditionals; see `spec_fold_conditional_branches`.
pub fn fold_conditional_branches(branches: Vec<(Option<Condition>, Vec<Node>)>) -> (r: Result<Vec<Node>, crate::error::CompilerError>)
    ensures
        r matches Ok(v) && nodes_model(v@) == spec_fold_conditional_branches(cond_branches_model(branches@)),
{
    let ghost all = cond_branches_model(branches@);
    if branches.len() == 0 {
        let v: Vec<Node> = Vec::new();
        assert(nodes_model(v@) =~= Seq::<SpecNode>::empty());
        return Ok(v);
    }
    let mut branches = branches;
    let mut accumulated_else: Option<Vec<Node>> = None;
    while branches.len() > 0
        invariant
            spec_fold_branches(all, None) == spec_fold_branches(cond_branches_model(branches@), opt_nodes_model(accumulated_else)),
        decreases branches.len(),
    {
        let ghost before = branches@;
        let (condition, nodes) = branches.pop().unwrap();
        proof {
            assert(before =~= branches@.push((condition, nodes)));
            assert(cond_branches_model(before).drop_last() =~= cond_branches_model(branches@));
            assert(cond_branches_model(before).last() == (opt_condition_model(condition), nodes_model(nodes@)));
        }
        match condition {
            Some(c) => {
                let ghost prev = opt_nodes_model(accumulated_else);
                let node = Node::Conditional { condition: c, when_true: nodes, when_false: accumulated_else };
                let v = vec![node];
                proof {
                    crate::ast::lemma_nodes_model_push(Seq::empty(), node);
                    assert(v@ =~= Seq::<Node>::empty().push(node));
                    assert(nodes_model(Seq::<Node>::empty()) =~= Seq::<SpecNode>::empty());
                    assert(nodes_model(v@) =~= seq![SpecNode::Conditional { condition: condition_model(c), when_true: nodes_model(nodes@), when_false: prev }]);
                }
                accumulated_else = Some(v);
            },
            None => {
                accumulated_else = Some(nodes);
            },
        }
    }
    assert(cond_branches_model(branches@) =~= Seq::<(Option<SpecCondition>, Seq<SpecNode>)>::empty());
    match accumulated_else {
        Some(v) => Ok(v),
        None => {
            let v: Vec<Node> = Vec::new();
            assert(nodes_model(v@) =~= Seq::<SpecNode>::empty());
            Ok(v)
        },
    }
}

proof fn lemma_fold_concat(a: Seq<(Option<SpecCondition>, Seq<SpecNode>)>, c: Seq<(Option<SpecCondition>, Seq<SpecNode>)>, acc: Option<Seq<SpecNode>>)
    ensures
        spec_fold_branches(a + c, acc) == spec_fold_branches(a, spec_fold_branches(c, acc)),
    decreases c.len(),
{
    if c.len() == 0 {
        assert(a + c =~= a);
    } else {
        let (cond, n) = c.last();
        let next = match cond {
            Some(x) => Some(seq![SpecNode::Conditional { condition: x, when_true: n, when_false: acc }]),
            None => Some(n),
        };
        assert((a + c).drop_last() =~= a + c.drop_last());
        assert((a + c).last() == c.last());
        lemma_fold_concat(a, c.drop_last(), next);
    }
}

/// A chain of branches whose first has a condition folds into one
/// conditional: that condition, that branch's nodes when it holds, and the
/// rest of the chain, folded, when it does not.
pub proof fn law_fold_first_branch(b: Seq<(Option<SpecCondition>, Seq<SpecNode>)>, c: SpecCondition)
    requires
        b.len() >= 1,
        b[0].0 == Some(c),
    ensures
        spec_fold_conditional_branches(b) == seq![SpecNode::Conditional {
            condition: c,
            when_true: b[0].1,
            when_false: spec_fold_branches(b.drop_first(), None),
        }],
{
    assert(seq![b[0]] + b.drop_first() =~= b);
    lemma_fold_concat(seq![b[0]], b.drop_first(), None);
    let rest = spec_fold_branches(b.drop_first(), None);
    let one = seq![b[0]];
    let node = seq![SpecNode::Conditional { condition: c, when_true: b[0].1, when_false: rest }];
    assert(one.drop_last() =~= Seq::<(Option<SpecCondition>, Seq<SpecNode>)>::empty());
    assert(one.last() == b[0]);
    assert(spec_fold_branches(Seq::<(Option<SpecCondition>, Seq<SpecNode>)>::empty(), Some(node)) == Some(node));
    assert(spec_fold_branches(one, rest) == Some(node));
}

/// `- cond: a` then `- else: b` is the conditional `cond ? a : b`.
pub proof fn law_fold_if_else(c: SpecCondition, a: Seq<SpecNode>, b: Seq<SpecNode>)
    ensures
        spec_fold_conditional_branches(seq![(Some(c), a), (None::<SpecCondition>, b)])
            == seq![SpecNode::Conditional { condition: c, when_true: a, when_false: Some(b) }],
{
    let bs = seq![(Some(c), a), (None::<SpecCondition>, b)];
    law_fold_first_branch(bs, c);
    let tail = seq![(None::<SpecCondition>, b)];
    assert(bs.drop_first() =~= tail);
    assert(tail.drop_last() =~= Seq::<(Option<SpecCondition>, Seq<SpecNode>)>::empty());
    assert(tail.last() == (None::<SpecCondition>, b));
    assert(spec_fold_branches(Seq::<(Option<SpecCondition>, Seq<SpecNode>)>::empty(), Some(b)) == Some(b));
    assert(spec_fold_branches(tail, None) == Some(b));
}

} // verus!
