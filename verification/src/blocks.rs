//! What a statement means when it may span several lines: the statement
//! starting at line `i` of a list of lines, and the index of the first line
//! after it.  Blocks read their lines one by one; a line that is no part of
//! a block's own syntax is a statement of its own, read in turn.
use vstd::prelude::*;
use crate::ast::{Model, SequenceMode, SpecChoice, SpecCondition, SpecExpression, SpecNode, SpecSequence};
use crate::choice::{spec_gather_nesting_level, spec_parse_choice_prefixes, spec_parse_choice_text, SpecChoiceText};
use crate::conditional::{spec_fold_conditional_branches, spec_looks_like_conditional};
use crate::content::spec_tokenize_inline_content;
use crate::declarations::{spec_brace_open_scan, spec_parse_content_line, spec_parse_list_declaration};
use crate::error::{CompilerError, ErrorKind};
use crate::expression::spec_parse_expression;
use crate::header::{spec_parse_header, spec_trim_start_char};
use crate::inline::{arrow, spec_parse_condition, spec_parse_divert, spec_parse_inline_conditional, spec_split_top_level_pipe};
use crate::lines::{spec_strip_block_comments, SpecLine};
use crate::sequence::{spec_is_sequence_branch_header, spec_looks_like_sequence, spec_sequence_mode};
use crate::statement::{spec_line_statement, unicode_alphanumeric, SpecStatement};
use crate::text::{spec_contains, spec_find, spec_split_once, spec_strip_prefix, spec_trim, spec_trim_end, spec_trim_start};

verus! {

/// The amount of source from line `i` on: each line's characters, and one
/// for the line itself.
pub open spec fn source_weight(ls: Seq<SpecLine>, i: int) -> nat
    decreases ls.len() - i,
{
    if i < 0 || i >= ls.len() {
        0
    } else {
        ls[i].content.len() + 1 + source_weight(ls, i + 1)
    }
}

pub proof fn lemma_weight_le(ls: Seq<SpecLine>, i: int, j: int)
    requires
        0 <= i <= j,
    ensures
        source_weight(ls, j) <= source_weight(ls, i),
    decreases j - i,
{
    if i < j {
        lemma_weight_le(ls, i + 1, j);
    }
}

pub proof fn lemma_weight_at(ls: Seq<SpecLine>, i: int, j: int)
    requires
        0 <= i <= j < ls.len(),
    ensures
        ls[j].content.len() + 1 <= source_weight(ls, i),
        source_weight(ls, j + 1) < source_weight(ls, i),
{
    lemma_weight_le(ls, i, j);
}

pub proof fn lemma_weight_less(ls: Seq<SpecLine>, i: int, j: int)
    requires
        0 <= i < j,
        i < ls.len(),
    ensures
        source_weight(ls, j) + ls[i].content.len() + 1 <= source_weight(ls, i),
{
    lemma_weight_le(ls, i + 1, j);
}

pub proof fn lemma_weight_tail(head: SpecLine, ls: Seq<SpecLine>, i: int, k: int)
    requires
        0 <= i < ls.len(),
        1 <= k <= ls.len() - i,
    ensures
        source_weight(with_tail(head, ls, i), k) == source_weight(ls, i + k),
    decreases ls.len() - i - k,
{
    if k < ls.len() - i {
        lemma_weight_tail(head, ls, i, k + 1);
    }
}

/// A line standing for `ls[i]`, followed by the lines after it, weighs
/// what that line does and the lines after `i`.
pub proof fn lemma_with_tail_lighter(head: SpecLine, ls: Seq<SpecLine>, i: int)
    requires
        0 <= i < ls.len(),
    ensures
        source_weight(with_tail(head, ls, i), 0) == head.content.len() + 1 + source_weight(ls, i + 1),
        source_weight(ls, i) == ls[i].content.len() + 1 + source_weight(ls, i + 1),
        with_tail(head, ls, i).len() == ls.len() - i,
{
    let c = with_tail(head, ls, i);
    if i + 1 < ls.len() {
        lemma_weight_tail(head, ls, i, 1);
    } else {
        assert(source_weight(c, 1) == 0);
    }
}

pub proof fn lemma_weight_single(l: SpecLine)
    ensures
        source_weight(seq![l], 0) == l.content.len() + 1,
{
    assert(source_weight(seq![l], 1) == 0);
}

/// `head` in place of line `i`, followed by the lines after `i`.
pub open spec fn with_tail(head: SpecLine, ls: Seq<SpecLine>, i: int) -> Seq<SpecLine> {
    seq![head] + ls.skip(i + 1)
}

/// An executable result, and the index of the line after what it read,
/// agree with a modelled one: both succeed with equal models at the same
/// line, or both fail with the same class of error.
pub open spec fn agrees_at<T: Model>(r: Result<T, CompilerError>, j: int, s: Result<(T::M, int), ErrorKind>) -> bool {
    match (r, s) {
        (Ok(x), Ok((m, k))) => x.model() == m && j == k,
        (Err(e), Err(k)) => e.kind == k,
        _ => false,
    }
}

pub open spec fn newline_if(b: bool) -> Seq<SpecNode> {
    if b { seq![SpecNode::Newline] } else { Seq::empty() }
}

/// The nodes of a statement; none for a declaration.
pub open spec fn nodes_of(st: SpecStatement) -> Seq<SpecNode> {
    match st {
        SpecStatement::Nodes(ns) => ns,
        _ => Seq::empty(),
    }
}

pub open spec fn label_nodes(label: Option<Seq<char>>) -> Seq<SpecNode> {
    match label {
        Some(l) => seq![SpecNode::GatherLabel(l)],
        None => Seq::empty(),
    }
}

pub open spec fn as_statement(r: Result<(Seq<SpecNode>, int), ErrorKind>) -> Result<(SpecStatement, int), ErrorKind> {
    match r {
        Ok((ns, j)) => Ok((SpecStatement::Nodes(ns), j)),
        Err(k) => Err(k),
    }
}

/// The rest of a `LIST` declaration: the indented lines after it, joined
/// with spaces; blank lines are skipped while the text ends with `,`.
pub open spec fn spec_list_more(ls: Seq<SpecLine>, j: int, full: Seq<char>) -> (Seq<char>, int)
    decreases ls.len() - j,
{
    if !(0 <= j < ls.len()) {
        (full, j)
    } else {
        let l = ls[j];
        let next = spec_trim(l.content);
        let indented = l.content.len() > 0 && (l.content[0] == ' ' || l.content[0] == '\t');
        if !indented && next.len() > 0 {
            (full, j)
        } else if next.len() == 0 {
            let te = spec_trim_end(full);
            if te.len() > 0 && te.last() == ',' {
                spec_list_more(ls, j + 1, full)
            } else {
                (full, j)
            }
        } else if seq!['/', '/'].is_prefix_of(next) {
            (full, j)
        } else {
            spec_list_more(ls, j + 1, full.push(' ') + next)
        }
    }
}

/// A `LIST` declaration at line `i`, its text after `LIST ` being `rest`.
pub open spec fn spec_list_statement(ls: Seq<SpecLine>, i: int, rest: Seq<char>) -> Result<(SpecStatement, int), ErrorKind> {
    let (full, next) = spec_list_more(ls, i + 1, rest);
    match spec_parse_list_declaration(spec_strip_block_comments(full)) {
        Ok(d) => Ok((SpecStatement::List(d), next)),
        Err(k) => Err(k),
    }
}

/// A gather's text after its dashes.
pub open spec fn spec_strip_dashes(gc: Seq<char>) -> Seq<char>
    decreases gc.len(),
{
    if gc.len() > 0 && gc[0] == '-' && !arrow().is_prefix_of(gc) {
        let n = spec_trim_start(gc.skip(1));
        if n.len() < gc.len() {
            spec_strip_dashes(n)
        } else {
            n
        }
    } else {
        gc
    }
}

/// A gather's `(label)`, and the text after it.
pub open spec fn spec_gather_label(gc: Seq<char>) -> (Option<Seq<char>>, Seq<char>) {
    if gc.len() > 0 && gc[0] == '(' {
        match spec_find(gc, seq![')']) {
            Some(end) => (
                Some(spec_trim(if end >= 1 { gc.subrange(1, end) } else { Seq::empty() })),
                spec_trim_start(gc.skip(end + 1)),
            ),
            None => (None, gc),
        }
    } else {
        (None, gc)
    }
}

/// The markers after a choice's first: their number added to `level`, and
/// the text after them.
pub open spec fn spec_choice_markers(rem: Seq<char>, level: nat) -> (nat, Seq<char>)
    decreases rem.len(),
{
    if rem.len() > 0 && (rem[0] == '*' || rem[0] == '+') {
        let n = spec_trim_start(rem.skip(1));
        if n.len() < rem.len() {
            spec_choice_markers(n, level + 1)
        } else {
            (level + 1, n)
        }
    } else {
        (level, rem)
    }
}

/// A switch starts when the colon ends the line and the next line is a
/// `- value:` branch.
pub open spec fn spec_is_switch(ls: Seq<SpecLine>, i: int, rest: Seq<char>) -> bool {
    &&& spec_trim(rest).len() == 0
    &&& i + 1 < ls.len()
    &&& ({
        let fb = spec_trim(ls[i + 1].content);
        if fb.len() > 0 && fb[0] == '-' && !arrow().is_prefix_of(fb) && !"- else:"@.is_prefix_of(fb) {
            let bc = spec_trim_start(spec_trim_start_char(fb, '-'));
            spec_contains(bc, seq![':']) && !arrow().is_prefix_of(bc)
        } else {
            false
        }
    })
}

/// Choice lines after the header, while the choice has no text: further
/// `{conditions}` (once it has one), and a line of text that becomes its
/// text.
pub open spec fn spec_choice_lookahead(ls: Seq<SpecLine>, j: int, indent: nat, header_conditions: bool, absorbed: bool, ct: SpecChoiceText, conds: Seq<SpecCondition>, invisible: bool) -> Result<(SpecChoiceText, Seq<SpecCondition>, bool, int), ErrorKind>
    decreases ls.len() - j,
{
    if !(0 <= j < ls.len()) {
        Ok((ct, conds, invisible, j))
    } else {
        let peek = ls[j];
        let pt = spec_trim(peek.content);
        if peek.indent <= indent {
            Ok((ct, conds, invisible, j))
        } else if pt.len() > 0 && pt[0] == '{' && (header_conditions || absorbed) {
            match spec_find(pt, seq!['}']) {
                None => Ok((ct, conds, invisible, j)),
                Some(close) => {
                    let cond_str = if close >= 1 { pt.subrange(1, close) } else { Seq::empty() };
                    let after = spec_trim(pt.skip(close + 1));
                    match spec_parse_condition(spec_trim(cond_str)) {
                        Err(k) => Err(k),
                        Ok(c) => if after.len() > 0 {
                            Ok((SpecChoiceText { display_text: after, start_text: after, selected_text: Some(after), has_start_content: true, ..ct }, conds.push(c), false, j + 1))
                        } else {
                            spec_choice_lookahead(ls, j + 1, indent, header_conditions, true, ct, conds.push(c), invisible)
                        },
                    }
                },
            }
        } else if absorbed || header_conditions {
            if pt.len() > 0 && (pt[0] == '-' || pt[0] == '*' || pt[0] == '+') {
                Ok((ct, conds, invisible, j))
            } else {
                Ok((SpecChoiceText { display_text: pt, start_text: pt, selected_text: Some(pt), has_start_content: true, ..ct }, conds, false, j + 1))
            }
        } else {
            Ok((ct, conds, invisible, j))
        }
    }
}

/// The statement at line `i`.
pub open spec fn spec_statement(ls: Seq<SpecLine>, i: int, strip: bool) -> Result<(SpecStatement, int), ErrorKind>
    decreases source_weight(ls, i), 6nat,
{
    if !(0 <= i < ls.len()) {
        Err(ErrorKind::InvalidSource)
    } else {
        let l = ls[i];
        match spec_line_statement(l.content, l.indent, l.had_newline, strip) {
            Some(Ok(st)) => Ok((st, i + 1)),
            Some(Err(k)) => Err(k),
            None => {
                let t = spec_trim(l.content);
                if t == seq!['{'] || (!spec_looks_like_sequence(t) && spec_looks_like_conditional(t) && spec_brace_open_scan(t, 0, 0)) {
                    as_statement(spec_conditional(ls, i, strip))
                } else if spec_looks_like_sequence(t) {
                    as_statement(spec_sequence(ls, i, strip))
                } else if "LIST "@.is_prefix_of(t) {
                    spec_list_statement(ls, i, t.skip("LIST "@.len() as int))
                } else if t.len() > 0 && (t[0] == '*' || t[0] == '+') {
                    spec_choice(ls, i)
                } else if t.len() > 0 && t[0] == '-' && !arrow().is_prefix_of(t) {
                    spec_gather(ls, i, t)
                } else {
                    let thread = match spec_strip_prefix(t, seq!['<', '-']) {
                        Some(r) => r.len() > 0 && (unicode_alphanumeric(r[0]) || r[0] == '_'),
                        None => false,
                    };
                    if thread {
                        match spec_parse_divert(t.skip(2)) {
                            Ok(d) => Ok((SpecStatement::Nodes(seq![SpecNode::ThreadDivert(d)]), i + 1)),
                            Err(k) => Err(k),
                        }
                    } else {
                        match spec_parse_content_line(l.content, l.indent, l.had_newline, strip) {
                            Ok(ns) => Ok((SpecStatement::Nodes(ns), i + 1)),
                            Err(k) => Err(k),
                        }
                    }
                }
            },
        }
    }
}

/// The one-line statement `content`.
pub open spec fn spec_single(content: Seq<char>, had_newline: bool) -> Result<Seq<SpecNode>, ErrorKind>
    decreases content.len() + 1, 7nat,
{
    proof {
        lemma_weight_single(SpecLine { content, indent: 0, had_newline });
    }
    match spec_statement(seq![SpecLine { content, indent: 0, had_newline }], 0, true) {
        Err(k) => Err(k),
        Ok((st, _)) => Ok(nodes_of(st)),
    }
}

/// A gather line `- ...` at line `i` (trimmed to `t`).
pub open spec fn spec_gather(ls: Seq<SpecLine>, i: int, t: Seq<char>) -> Result<(SpecStatement, int), ErrorKind>
    decreases source_weight(ls, i), 5nat,
{
    if !(0 <= i < ls.len()) {
        Err(ErrorKind::InvalidSource)
    } else {
        let line = ls[i];
        let gc = spec_strip_dashes(spec_trim_start(t.skip(1)));
        if gc.len() == 0 {
            Ok((SpecStatement::Nodes(seq![SpecNode::GatherPoint]), i + 1))
        } else {
            let (label, gc2) = spec_gather_label(gc);
            if !(gc2.len() < line.content.len()) {
                Err(ErrorKind::InvalidSource)
            } else if gc2.len() > 0 && (gc2[0] == '*' || gc2[0] == '+') {
                let combined = with_tail(SpecLine { content: gc2, indent: line.indent, had_newline: line.had_newline }, ls, i);
                proof {
                    lemma_with_tail_lighter(SpecLine { content: gc2, indent: line.indent, had_newline: line.had_newline }, ls, i);
                    lemma_weight_less(ls, i, i + 1);
                }
                match spec_choice(combined, 0) {
                    Err(k) => Err(k),
                    Ok((st, local)) => match st {
                        SpecStatement::Nodes(ns) => Ok((SpecStatement::Nodes(seq![SpecNode::GatherPoint] + label_nodes(label) + ns), i + local)),
                        other => Ok((other, i + local)),
                    },
                }
            } else if spec_looks_like_conditional(gc2) || spec_looks_like_sequence(gc2) {
                let combined = with_tail(SpecLine { content: gc2, indent: line.indent, had_newline: line.had_newline }, ls, i);
                proof {
                    lemma_with_tail_lighter(SpecLine { content: gc2, indent: line.indent, had_newline: line.had_newline }, ls, i);
                }
                let parsed = if spec_looks_like_sequence(gc2) { spec_sequence(combined, 0, true) } else { spec_conditional(combined, 0, true) };
                match parsed {
                    Err(k) => Err(k),
                    Ok((ns, local)) => Ok((SpecStatement::Nodes(label_nodes(label) + ns), i + local)),
                }
            } else {
                match spec_parse_content_line(gc2, line.indent, line.had_newline && gc2.len() > 0, true) {
                    Err(k) => Err(k),
                    Ok(ns) => Ok((SpecStatement::Nodes(label_nodes(label) + ns), i + 1)),
                }
            }
        }
    }
}

/// A conditional block at line `i`.
pub open spec fn spec_conditional(ls: Seq<SpecLine>, i: int, strip: bool) -> Result<(Seq<SpecNode>, int), ErrorKind>
    decreases source_weight(ls, i), 5nat,
{
    if !(0 <= i < ls.len()) {
        Err(ErrorKind::InvalidSource)
    } else {
        let line = ls[i];
        let content = if strip { spec_trim_start(line.content) } else { spec_trim(line.content) };
        match spec_parse_inline_conditional(content) {
            Err(k) => Err(k),
            Ok(Some((cond, branch))) => {
                let parts = spec_split_top_level_pipe(branch);
                match spec_tokenize_inline_content(spec_trim(parts[0])) {
                    Err(k) => Err(k),
                    Ok(wt) => {
                        let wf: Result<Option<Seq<SpecNode>>, ErrorKind> = if parts.len() > 1 {
                            match spec_tokenize_inline_content(spec_trim(parts[1])) {
                                Err(k) => Err(k),
                                Ok(v) => Ok(Some(v)),
                            }
                        } else {
                            Ok(None)
                        };
                        match wf {
                            Err(k) => Err(k),
                            Ok(wf) => Ok((seq![SpecNode::Conditional { condition: cond, when_true: wt, when_false: wf }] + newline_if(line.had_newline), i + 1)),
                        }
                    },
                }
            },
            Ok(None) => {
                let tc = spec_trim(content);
                if tc == seq!['{'] {
                    spec_multi_conditional(ls, i)
                } else {
                    match spec_strip_prefix(tc, seq!['{']) {
                        None => Err(ErrorKind::InvalidSource),
                        Some(header) => match spec_split_once(header, seq![':']) {
                            None => Err(ErrorKind::InvalidSource),
                            Some((ct, rest)) => if spec_is_switch(ls, i, rest) {
                                match spec_parse_expression(spec_trim(ct)) {
                                    Err(k) => Err(k),
                                    Ok(v) => {
                                        proof {
                                            lemma_weight_less(ls, i, i + 1);
                                        }
                                        spec_switch_loop(ls, i + 1, v, Seq::empty(), None, Seq::empty())
                                    },
                                }
                            } else {
                                match spec_parse_condition(spec_trim(ct)) {
                                    Err(k) => Err(k),
                                    Ok(c) => {
                                        proof {
                                            lemma_weight_less(ls, i, i + 1);
                                        }
                                        spec_cond_loop(ls, i + 1, c, newline_if(line.had_newline), Seq::empty(), false, false)
                                    },
                                }
                            },
                        },
                    }
                }
            },
        }
    }
}

/// The lines of a `{cond:` block from line `j` on, with what its branches
/// hold so far.
pub open spec fn spec_cond_loop(ls: Seq<SpecLine>, j: int, c: SpecCondition, wt: Seq<SpecNode>, wf: Seq<SpecNode>, in_else: bool, seen: bool) -> Result<(Seq<SpecNode>, int), ErrorKind>
    decreases source_weight(ls, j), 8nat,
{
    if !(0 <= j < ls.len()) {
        Err(ErrorKind::InvalidSource)
    } else {
        let line = ls[j];
        let t = spec_trim(line.content);
        proof {
            lemma_weight_less(ls, j, j + 1);
        }
        if t == seq!['}'] {
            Ok((seq![SpecNode::Conditional { condition: c, when_true: wt, when_false: if wf.len() == 0 { None } else { Some(wf) } }]
                + newline_if(line.had_newline && j + 1 < ls.len()), j + 1))
        } else if t == "- else:"@ {
            spec_cond_loop(ls, j + 1, c, wt, wf + newline_if(line.had_newline), true, seen)
        } else if "- else:"@.is_prefix_of(t) {
            let rest = spec_trim(t.skip("- else:"@.len() as int));
            let added = if rest.len() > 0 { spec_tokenize_inline_content(rest) } else { Ok(Seq::empty()) };
            match added {
                Err(k) => Err(k),
                Ok(a) => spec_cond_loop(ls, j + 1, c, wt, wf + a + newline_if(line.had_newline), true, seen),
            }
        } else if t.len() > 0 && t[0] == '-' && !(t.len() > 1 && t[1] == '>') {
            let rest = spec_trim(t.drop_first());
            let in_else2 = in_else || seen;
            let added: Result<Seq<SpecNode>, ErrorKind> = if rest.len() > 0 {
                if rest[0] == '~' {
                    if rest.len() < line.content.len() {
                        spec_single(rest, false)
                    } else {
                        Err(ErrorKind::InvalidSource)
                    }
                } else {
                    spec_tokenize_inline_content(rest)
                }
            } else {
                Ok(Seq::empty())
            };
            match added {
                Err(k) => Err(k),
                Ok(a) => {
                    let a2 = a + newline_if(line.had_newline);
                    if in_else2 {
                        spec_cond_loop(ls, j + 1, c, wt, wf + a2, in_else2, true)
                    } else {
                        spec_cond_loop(ls, j + 1, c, wt + a2, wf, in_else2, true)
                    }
                },
            }
        } else {
            match spec_statement(ls, j, true) {
                Err(k) => Err(k),
                Ok((st, j2)) => if j < j2 {
                    proof {
                        lemma_weight_less(ls, j, j2);
                    }
                    match st {
                        SpecStatement::Nodes(ns) => if in_else {
                            spec_cond_loop(ls, j2, c, wt, wf + ns, in_else, seen)
                        } else {
                            spec_cond_loop(ls, j2, c, wt + ns, wf, in_else, seen)
                        },
                        _ => Err(ErrorKind::UnsupportedFeature),
                    }
                } else {
                    Err(ErrorKind::InvalidSource)
                },
            }
        }
    }
}

/// A multi-branch `{` block at line `i`.
pub open spec fn spec_multi_conditional(ls: Seq<SpecLine>, i: int) -> Result<(Seq<SpecNode>, int), ErrorKind>
    decreases source_weight(ls, i), 4nat,
{
    if !(0 <= i < ls.len()) {
        Err(ErrorKind::InvalidSource)
    } else {
        proof {
            lemma_weight_less(ls, i, i + 1);
        }
        spec_multi_loop(ls, i + 1, Seq::empty(), None, Seq::empty())
    }
}

/// The branch being read is kept when it has a condition or nodes.
pub open spec fn keep_branch<C>(bs: Seq<(Option<C>, Seq<SpecNode>)>, c: Option<C>, n: Seq<SpecNode>) -> Seq<(Option<C>, Seq<SpecNode>)> {
    if c is Some || n.len() > 0 { bs.push((c, n)) } else { bs }
}

/// The lines of a multi-branch block from line `j` on.
pub open spec fn spec_multi_loop(ls: Seq<SpecLine>, j: int, branches: Seq<(Option<SpecCondition>, Seq<SpecNode>)>, cur_c: Option<SpecCondition>, cur_n: Seq<SpecNode>) -> Result<(Seq<SpecNode>, int), ErrorKind>
    decreases source_weight(ls, j), 8nat,
{
    if !(0 <= j < ls.len()) {
        Err(ErrorKind::InvalidSource)
    } else {
        let line = ls[j];
        let t = spec_trim(line.content);
        proof {
            lemma_weight_less(ls, j, j + 1);
        }
        if t == seq!['}'] {
            Ok((spec_fold_conditional_branches(keep_branch(branches, cur_c, cur_n)) + newline_if(line.had_newline && j + 1 < ls.len()), j + 1))
        } else if t.len() > 0 && t[0] == '-' {
            let header0 = t.drop_first();
            if header0.len() > 0 && header0[0] == '>' {
                match spec_statement(ls, j, true) {
                    Err(k) => Err(k),
                    Ok((st, j2)) => if j < j2 {
                        proof {
                            lemma_weight_less(ls, j, j2);
                        }
                        match st {
                            SpecStatement::Nodes(ns) => spec_multi_loop(ls, j2, branches, cur_c, cur_n + ns),
                            _ => Err(ErrorKind::UnsupportedFeature),
                        }
                    } else {
                        Err(ErrorKind::InvalidSource)
                    },
                }
            } else {
                let bs = keep_branch(branches, cur_c, cur_n);
                let header = spec_trim_start(header0);
                if "else:"@.is_prefix_of(header) {
                    let rt = spec_trim(header.skip("else:"@.len() as int));
                    if rt.len() > 0 {
                        match spec_tokenize_inline_content(rt) {
                            Err(k) => Err(k),
                            Ok(ns) => spec_multi_loop(ls, j + 1, bs, None, ns + newline_if(line.had_newline)),
                        }
                    } else {
                        spec_multi_loop(ls, j + 1, bs, None, Seq::empty())
                    }
                } else if header.len() > 0 && header[0] == '{' {
                    if !(header.len() < line.content.len()) {
                        Err(ErrorKind::InvalidSource)
                    } else {
                        let nested = SpecLine { content: header, indent: line.indent, had_newline: line.had_newline };
                        proof {
                            lemma_with_tail_lighter(nested, ls, j);
                        }
                        match spec_conditional(with_tail(nested, ls, j), 0, true) {
                            Err(k) => Err(k),
                            Ok((ns, local)) => if local >= 1 {
                                proof {
                                    lemma_weight_less(ls, j, j + local);
                                }
                                spec_multi_loop(ls, j + local, bs, None, ns)
                            } else {
                                Err(ErrorKind::InvalidSource)
                            },
                        }
                    }
                } else {
                    match spec_split_once(header, seq![':']) {
                        None => {
                            let ht = spec_trim(header);
                            if ht.len() > 0 {
                                match spec_tokenize_inline_content(ht) {
                                    Err(k) => Err(k),
                                    Ok(ns) => spec_multi_loop(ls, j + 1, bs, None, ns + newline_if(line.had_newline)),
                                }
                            } else {
                                spec_multi_loop(ls, j + 1, bs, None, Seq::empty())
                            }
                        },
                        Some((cond, rest)) => match spec_parse_condition(spec_trim(cond)) {
                            Err(k) => Err(k),
                            Ok(c) => {
                                let rt = spec_trim(rest);
                                if rt.len() > 0 {
                                    if rt[0] == '*' || rt[0] == '+' {
                                        if !(rt.len() < line.content.len()) {
                                            Err(ErrorKind::InvalidSource)
                                        } else {
                                            let indent: nat = if line.indent < usize::MAX { line.indent + 1 } else { line.indent };
                                            let choice_line = SpecLine { content: rt, indent, had_newline: false };
                                            proof {
                                                lemma_with_tail_lighter(choice_line, ls, j);
                                            }
                                            match spec_statement(with_tail(choice_line, ls, j), 0, true) {
                                                Err(k) => Err(k),
                                                Ok((st, tmp)) => if tmp >= 1 {
                                                    proof {
                                                        lemma_weight_less(ls, j, j + tmp);
                                                    }
                                                    spec_multi_loop(ls, j + tmp, bs, Some(c), nodes_of(st))
                                                } else {
                                                    Err(ErrorKind::InvalidSource)
                                                },
                                            }
                                        }
                                    } else {
                                        match spec_tokenize_inline_content(rt) {
                                            Err(k) => Err(k),
                                            Ok(ns) => spec_multi_loop(ls, j + 1, bs, Some(c), ns + newline_if(line.had_newline)),
                                        }
                                    }
                                } else {
                                    spec_multi_loop(ls, j + 1, bs, Some(c), Seq::empty())
                                }
                            },
                        },
                    }
                }
            }
        } else {
            match spec_statement(ls, j, true) {
                Err(k) => Err(k),
                Ok((st, j2)) => if j < j2 {
                    proof {
                        lemma_weight_less(ls, j, j2);
                    }
                    match st {
                        SpecStatement::Nodes(ns) => spec_multi_loop(ls, j2, branches, cur_c, cur_n + ns),
                        _ => Err(ErrorKind::UnsupportedFeature),
                    }
                } else {
                    Err(ErrorKind::InvalidSource)
                },
            }
        }
    }
}

/// A one-line statement inside a switch branch, by itself.
pub open spec fn spec_switch_single(rt: Seq<char>, line: SpecLine) -> Result<Seq<SpecNode>, ErrorKind>
    decreases line.content.len() + 1, 9nat,
{
    if rt.len() < line.content.len() {
        spec_single(rt, line.had_newline)
    } else {
        Err(ErrorKind::InvalidSource)
    }
}

/// The lines of a switch from line `j` on.
pub open spec fn spec_switch_loop(ls: Seq<SpecLine>, j: int, value: SpecExpression, branches: Seq<(Option<SpecExpression>, Seq<SpecNode>)>, cur_case: Option<SpecExpression>, cur_nodes: Seq<SpecNode>) -> Result<(Seq<SpecNode>, int), ErrorKind>
    decreases source_weight(ls, j), 10nat,
{
    if !(0 <= j < ls.len()) {
        Ok((seq![SpecNode::SwitchConditional { value, branches }], j))
    } else {
        let line = ls[j];
        let t = spec_trim(line.content);
        proof {
            lemma_weight_less(ls, j, j + 1);
            lemma_weight_le(ls, j, j);
        }
        if t == seq!['}'] {
            Ok((seq![SpecNode::SwitchConditional { value, branches: keep_branch(branches, cur_case, cur_nodes) }]
                + newline_if(line.had_newline && j + 1 < ls.len()), j + 1))
        } else if t.len() > 0 && t[0] == '-' {
            let header0 = t.drop_first();
            if header0.len() > 0 && header0[0] == '>' {
                match spec_statement(ls, j, true) {
                    Err(k) => Err(k),
                    Ok((st, j2)) => if j < j2 {
                        proof {
                            lemma_weight_less(ls, j, j2);
                        }
                        spec_switch_loop(ls, j2, value, branches, cur_case, cur_nodes + nodes_of(st))
                    } else {
                        Err(ErrorKind::InvalidSource)
                    },
                }
            } else {
                let bs = keep_branch(branches, cur_case, cur_nodes);
                let header = spec_trim_start(header0);
                if "else:"@.is_prefix_of(header) {
                    let rt = spec_trim(header.skip("else:"@.len() as int));
                    if rt.len() > 0 {
                        match spec_switch_single(rt, line) {
                            Err(k) => Err(k),
                            Ok(ns) => spec_switch_loop(ls, j + 1, value, bs, None, ns),
                        }
                    } else {
                        spec_switch_loop(ls, j + 1, value, bs, None, Seq::empty())
                    }
                } else {
                    match spec_split_once(header, seq![':']) {
                        None => {
                            let ht = spec_trim(header);
                            if ht.len() > 0 {
                                match spec_switch_single(ht, line) {
                                    Err(k) => Err(k),
                                    Ok(ns) => spec_switch_loop(ls, j + 1, value, bs, None, ns),
                                }
                            } else {
                                spec_switch_loop(ls, j + 1, value, bs, None, Seq::empty())
                            }
                        },
                        Some((ct, rest)) => match spec_parse_expression(spec_trim(ct)) {
                            Err(k) => Err(k),
                            Ok(e) => {
                                let rt = spec_trim(rest);
                                if rt.len() > 0 {
                                    match spec_switch_single(rt, line) {
                                        Err(k) => Err(k),
                                        Ok(ns) => spec_switch_loop(ls, j + 1, value, bs, Some(e), ns),
                                    }
                                } else {
                                    spec_switch_loop(ls, j + 1, value, bs, Some(e), Seq::empty())
                                }
                            },
                        },
                    }
                }
            }
        } else {
            match spec_statement(ls, j, true) {
                Err(k) => Err(k),
                Ok((st, j2)) => if j < j2 {
                    proof {
                        lemma_weight_less(ls, j, j2);
                    }
                    match st {
                        SpecStatement::Nodes(ns) => spec_switch_loop(ls, j2, value, branches, cur_case, cur_nodes + ns),
                        _ => Err(ErrorKind::UnsupportedFeature),
                    }
                } else {
                    Err(ErrorKind::InvalidSource)
                },
            }
        }
    }
}

/// The lines of a sequence branch after its first, from line `k` on: up
/// to the next branch, the closing `}` or a header.
pub open spec fn spec_branch_body(ls: Seq<SpecLine>, k: int, acc: Seq<SpecNode>) -> Result<(Seq<SpecNode>, int), ErrorKind>
    decreases source_weight(ls, k), 8nat,
{
    if !(0 <= k < ls.len()) {
        Ok((acc, k))
    } else {
        let line = ls[k];
        let t = spec_trim(line.content);
        if t == seq!['}'] || spec_is_sequence_branch_header(t) || spec_parse_header(line.content) is Some {
            Ok((acc, k))
        } else {
            match spec_statement(ls, k, true) {
                Err(kd) => Err(kd),
                Ok((st, k2)) => if k < k2 {
                    proof {
                        lemma_weight_less(ls, k, k2);
                    }
                    match st {
                        SpecStatement::Nodes(ns) => spec_branch_body(ls, k2, acc + ns),
                        _ => Err(ErrorKind::UnsupportedFeature),
                    }
                } else {
                    Err(ErrorKind::InvalidSource)
                },
            }
        }
    }
}

/// A branch's first nodes surrounded by line breaks when its line ended
/// with one.
pub open spec fn framed(n: Seq<SpecNode>, had_newline: bool) -> Seq<SpecNode> {
    if had_newline { seq![SpecNode::Newline] + n + seq![SpecNode::Newline] } else { n }
}

/// A sequence block at line `i`.
pub open spec fn spec_sequence(ls: Seq<SpecLine>, i: int, strip: bool) -> Result<(Seq<SpecNode>, int), ErrorKind>
    decreases source_weight(ls, i), 5nat,
{
    if !(0 <= i < ls.len()) {
        Err(ErrorKind::InvalidSource)
    } else {
        let line = ls[i];
        let content = if strip { spec_trim_start(line.content) } else { spec_trim(line.content) };
        proof {
            lemma_weight_less(ls, i, i + 1);
        }
        if content == seq!['{'] {
            spec_multi_sequence(ls, i)
        } else {
            match spec_strip_prefix(content, seq!['{']) {
                None => Err(ErrorKind::InvalidSource),
                Some(header) => match spec_split_once(header, seq![':']) {
                    None => Err(ErrorKind::InvalidSource),
                    Some((mt, _)) => match spec_sequence_mode(spec_trim(mt)) {
                        None => Err(ErrorKind::UnsupportedFeature),
                        Some(m) => spec_seq_loop(ls, i + 1, m, Seq::empty()),
                    },
                },
            }
        }
    }
}

/// The lines of a `{mode:` sequence from line `j` on.
pub open spec fn spec_seq_loop(ls: Seq<SpecLine>, j: int, mode: SequenceMode, branches: Seq<Seq<SpecNode>>) -> Result<(Seq<SpecNode>, int), ErrorKind>
    decreases source_weight(ls, j), 4nat,
{
    if !(0 <= j < ls.len()) {
        Err(ErrorKind::InvalidSource)
    } else {
        let line = ls[j];
        let t = spec_trim(line.content);
        proof {
            lemma_weight_less(ls, j, j + 1);
        }
        if t == seq!['}'] {
            Ok((seq![SpecNode::Sequence(SpecSequence { mode, branches })], j + 1))
        } else if t.len() == 0 || seq!['/', '/'].is_prefix_of(t) {
            spec_seq_loop(ls, j + 1, mode, branches)
        } else {
            match spec_strip_prefix(t, seq!['-']) {
                None => Err(ErrorKind::InvalidSource),
                Some(bt) => {
                    let n0 = if spec_trim(bt).len() == 0 { Ok(Seq::empty()) } else { spec_tokenize_inline_content(spec_trim_start(bt)) };
                    match n0 {
                        Err(k) => Err(k),
                        Ok(n0) => match spec_branch_body(ls, j + 1, framed(n0, line.had_newline)) {
                            Err(k) => Err(k),
                            Ok((n2, k)) => if j < k {
                                proof {
                                    lemma_weight_less(ls, j, k);
                                }
                                spec_seq_loop(ls, k, mode, branches.push(n2))
                            } else {
                                Err(ErrorKind::InvalidSource)
                            },
                        },
                    }
                },
            }
        }
    }
}

/// A `{` sequence block at line `i`.
pub open spec fn spec_multi_sequence(ls: Seq<SpecLine>, i: int) -> Result<(Seq<SpecNode>, int), ErrorKind>
    decreases source_weight(ls, i), 4nat,
{
    if !(0 <= i < ls.len()) {
        Err(ErrorKind::InvalidSource)
    } else {
        proof {
            lemma_weight_less(ls, i, i + 1);
        }
        spec_mseq_loop(ls, i + 1, None, Seq::empty())
    }
}

/// The lines of a `{` sequence from line `j` on.
pub open spec fn spec_mseq_loop(ls: Seq<SpecLine>, j: int, mode: Option<SequenceMode>, branches: Seq<Seq<SpecNode>>) -> Result<(Seq<SpecNode>, int), ErrorKind>
    decreases source_weight(ls, j), 4nat,
{
    if !(0 <= j < ls.len()) {
        Err(ErrorKind::InvalidSource)
    } else {
        let line = ls[j];
        let t = spec_trim(line.content);
        proof {
            lemma_weight_less(ls, j, j + 1);
        }
        if t == seq!['}'] {
            let m = match mode {
                Some(m) => m,
                None => SequenceMode::Stopping,
            };
            Ok((seq![SpecNode::Sequence(SpecSequence { mode: m, branches })], j + 1))
        } else if t.len() == 0 || seq!['/', '/'].is_prefix_of(t) {
            spec_mseq_loop(ls, j + 1, mode, branches)
        } else {
            match spec_strip_prefix(t, seq!['-']) {
                None => Err(ErrorKind::InvalidSource),
                Some(h0) => {
                    let header = spec_trim_start(h0);
                    let (bm, inline) = match spec_split_once(header, seq![':']) {
                        Some((cand, rest)) => match spec_sequence_mode(spec_trim(cand)) {
                            Some(m) => (Some(m), spec_trim_start(rest)),
                            None => (None, header),
                        },
                        None => (None, header),
                    };
                    let mode2 = if bm is Some { bm } else { mode };
                    let n0 = if inline.len() == 0 { Ok(Seq::empty()) } else { spec_tokenize_inline_content(inline) };
                    match n0 {
                        Err(k) => Err(k),
                        Ok(n0) => match spec_branch_body(ls, j + 1, framed(n0, line.had_newline)) {
                            Err(k) => Err(k),
                            Ok((n2, k)) => if j < k {
                                proof {
                                    lemma_weight_less(ls, j, k);
                                }
                                spec_mseq_loop(ls, k, mode2, branches.push(n2))
                            } else {
                                Err(ErrorKind::InvalidSource)
                            },
                        },
                    }
                },
            }
        }
    }
}

/// The body of a choice from line `j` on: deeper lines, a gather of the
/// choice's own level and, after such a gather, what follows it.
pub open spec fn spec_choice_body(ls: Seq<SpecLine>, j: int, indent: nat, level: nat, absorbed: bool, body: Seq<SpecNode>) -> Result<(Seq<SpecNode>, int), ErrorKind>
    decreases source_weight(ls, j), 8nat,
{
    if !(0 <= j < ls.len()) {
        Ok((body, j))
    } else {
        let bl = ls[j];
        let bt = spec_trim(bl.content);
        if spec_parse_header(bl.content) is Some {
            Ok((body, j))
        } else {
            let gl = spec_gather_nesting_level(bt);
            if gl == level && bl.indent > indent {
                match spec_statement(ls, j, true) {
                    Err(k) => Err(k),
                    Ok((st, j2)) => if j < j2 {
                        proof {
                            lemma_weight_less(ls, j, j2);
                        }
                        spec_choice_body(ls, j2, indent, level, true, body + nodes_of(st))
                    } else {
                        Err(ErrorKind::InvalidSource)
                    },
                }
            } else if gl > 0 && bl.indent <= indent {
                Ok((body, j))
            } else if gl == 0 && bl.indent <= indent && !absorbed {
                Ok((body, j))
            } else {
                match spec_statement(ls, j, true) {
                    Err(k) => Err(k),
                    Ok((st, j2)) => if j < j2 {
                        proof {
                            lemma_weight_less(ls, j, j2);
                        }
                        match st {
                            SpecStatement::Nodes(ns) => spec_choice_body(ls, j2, indent, level, absorbed, body + ns),
                            _ => Err(ErrorKind::UnsupportedFeature),
                        }
                    } else {
                        Err(ErrorKind::InvalidSource)
                    },
                }
            }
        }
    }
}

pub open spec fn target_nodes(t: Option<crate::ast::SpecDivert>) -> Seq<SpecNode> {
    match t {
        Some(d) => seq![SpecNode::Divert(d)],
        None => Seq::empty(),
    }
}

/// The choice node built from its parsed parts.
pub open spec fn spec_choice_node(ct: SpecChoiceText, conds: Seq<SpecCondition>, inv: bool, label: Option<Seq<char>>, once: bool, level: nat, body: Seq<SpecNode>) -> SpecNode {
    SpecNode::Choice(SpecChoice {
        display_text: ct.display_text,
        selected_text: ct.selected_text,
        body,
        start_text: ct.start_text,
        choice_only_text: ct.choice_only_text,
        conditions: conds,
        label,
        once_only: once,
        is_invisible_default: inv,
        has_start_content: ct.has_start_content,
        has_choice_only_content: ct.has_choice_only_content,
        start_tags: ct.start_tags,
        choice_only_tags: ct.choice_only_tags,
        selected_tags: ct.selected_tags,
        nesting_level: level,
    })
}

/// A choice at line `i` once its text and any text on the lines after it
/// are known (`look`): its body follows.
pub open spec fn spec_choice_finish(ls: Seq<SpecLine>, i: int, indent: nat, once: bool, level: nat, label: Option<Seq<char>>, look: Result<(SpecChoiceText, Seq<SpecCondition>, bool, int), ErrorKind>) -> Result<(SpecStatement, int), ErrorKind>
    decreases source_weight(ls, i), 4nat,
{
    match look {
        Err(k) => Err(k),
        Ok((ct2, conds2, inv2, j)) => if 0 <= i < ls.len() && i < j {
            proof {
                lemma_weight_less(ls, i, j);
            }
            match spec_choice_body(ls, j, indent, level, false, target_nodes(ct2.inline_target)) {
                Err(k) => Err(k),
                Ok((body, k)) => Ok((SpecStatement::Nodes(seq![spec_choice_node(ct2, conds2, inv2, label, once, level, body)]), k)),
            }
        } else {
            Err(ErrorKind::InvalidSource)
        },
    }
}

/// A choice at line `i`.
pub open spec fn spec_choice(ls: Seq<SpecLine>, i: int) -> Result<(SpecStatement, int), ErrorKind>
    decreases source_weight(ls, i), 5nat,
{
    if !(0 <= i < ls.len()) {
        Err(ErrorKind::InvalidSource)
    } else {
        let line = ls[i];
        let ts = spec_trim_start(line.content);
        if ts.len() == 0 {
            Err(ErrorKind::InvalidSource)
        } else {
            let once = ts[0] == '*';
            let (level, rem) = spec_choice_markers(spec_trim_start(ts.skip(1)), 1);
            match spec_parse_choice_prefixes(rem) {
                Err(k) => Err(k),
                Ok((label, conds, rem2)) => match spec_parse_choice_text(rem2) {
                    Err(k) => Err(k),
                    Ok(ct) => {
                        let inv = ct.display_text.len() == 0 && ct.selected_text is None;
                        let look = if ct.start_text.len() == 0 && ct.choice_only_text.len() == 0 {
                            spec_choice_lookahead(ls, i + 1, line.indent, conds.len() > 0, false, ct, conds, inv)
                        } else {
                            Ok((ct, conds, inv, i + 1))
                        };
                        spec_choice_finish(ls, i, line.indent, once, level, label, look)
                    },
                },
            }
        }
    }
}

/// A choice line yields one choice node, once-only exactly when the line
/// starts with `*` (and sticky when it starts with `+`).
pub proof fn law_choice_once_only(ls: Seq<SpecLine>, i: int)
    requires
        spec_choice(ls, i) is Ok,
    ensures
        spec_choice(ls, i) matches Ok((SpecStatement::Nodes(ns), _)) && ns.len() == 1 && ns[0] is Choice
            && ns[0]->Choice_0.once_only == (spec_trim_start(ls[i].content)[0] == '*'),
{
    reveal_with_fuel(spec_choice, 2);
}

proof fn lemma_seq_loop_one(ls: Seq<SpecLine>, j: int, mode: SequenceMode, branches: Seq<Seq<SpecNode>>)
    requires
        spec_seq_loop(ls, j, mode, branches) is Ok,
    ensures
        spec_seq_loop(ls, j, mode, branches) matches Ok((ns, _)) && ns.len() == 1 && ns[0] is Sequence,
    decreases source_weight(ls, j),
{
    if 0 <= j < ls.len() {
        let line = ls[j];
        let t = spec_trim(line.content);
        lemma_weight_less(ls, j, j + 1);
        if t == seq!['}'] {
        } else if t.len() == 0 || seq!['/', '/'].is_prefix_of(t) {
            lemma_seq_loop_one(ls, j + 1, mode, branches);
        } else if let Some(bt) = spec_strip_prefix(t, seq!['-']) {
            let n0 = if spec_trim(bt).len() == 0 { Ok(Seq::empty()) } else { spec_tokenize_inline_content(spec_trim_start(bt)) };
            if let Ok(n0) = n0 {
                if let Ok((n2, k)) = spec_branch_body(ls, j + 1, framed(n0, line.had_newline)) {
                    if j < k {
                        lemma_weight_less(ls, j, k);
                        lemma_seq_loop_one(ls, k, mode, branches.push(n2));
                    }
                }
            }
        }
    }
}

proof fn lemma_mseq_loop_one(ls: Seq<SpecLine>, j: int, mode: Option<SequenceMode>, branches: Seq<Seq<SpecNode>>)
    requires
        spec_mseq_loop(ls, j, mode, branches) is Ok,
    ensures
        spec_mseq_loop(ls, j, mode, branches) matches Ok((ns, _)) && ns.len() == 1 && ns[0] is Sequence,
    decreases source_weight(ls, j),
{
    if 0 <= j < ls.len() {
        let line = ls[j];
        let t = spec_trim(line.content);
        lemma_weight_less(ls, j, j + 1);
        if t == seq!['}'] {
        } else if t.len() == 0 || seq!['/', '/'].is_prefix_of(t) {
            lemma_mseq_loop_one(ls, j + 1, mode, branches);
        } else if let Some(h0) = spec_strip_prefix(t, seq!['-']) {
            let header = spec_trim_start(h0);
            let (bm, inline) = match spec_split_once(header, seq![':']) {
                Some((cand, rest)) => match spec_sequence_mode(spec_trim(cand)) {
                    Some(m) => (Some(m), spec_trim_start(rest)),
                    None => (None, header),
                },
                None => (None, header),
            };
            let mode2 = if bm is Some { bm } else { mode };
            let n0 = if inline.len() == 0 { Ok(Seq::empty()) } else { spec_tokenize_inline_content(inline) };
            if let Ok(n0) = n0 {
                if let Ok((n2, k)) = spec_branch_body(ls, j + 1, framed(n0, line.had_newline)) {
                    if j < k {
                        lemma_weight_less(ls, j, k);
                        lemma_mseq_loop_one(ls, k, mode2, branches.push(n2));
                    }
                }
            }
        }
    }
}

/// A sequence block yields exactly one sequence node.
pub proof fn law_sequence_is_one_node(ls: Seq<SpecLine>, i: int, strip: bool)
    requires
        spec_sequence(ls, i, strip) is Ok,
    ensures
        spec_sequence(ls, i, strip) matches Ok((ns, _)) && ns.len() == 1 && ns[0] is Sequence,
{
    if 0 <= i < ls.len() {
        let content = if strip { spec_trim_start(ls[i].content) } else { spec_trim(ls[i].content) };
        if content == seq!['{'] {
            lemma_mseq_loop_one(ls, i + 1, None, Seq::empty());
            assert(spec_multi_sequence(ls, i) == spec_mseq_loop(ls, i + 1, None, Seq::empty()));
        } else if let Some(header) = spec_strip_prefix(content, seq!['{']) {
            if let Some((mt, _)) = spec_split_once(header, seq![':']) {
                if let Some(m) = spec_sequence_mode(spec_trim(mt)) {
                    lemma_seq_loop_one(ls, i + 1, m, Seq::empty());
                }
            }
        }
    }
}

/// A line that is a statement by itself is read alone: the statement it
/// is, and the next statement starts on the next line.
pub proof fn law_single_line_reads_one_line(ls: Seq<SpecLine>, i: int, strip: bool)
    requires
        0 <= i < ls.len(),
        spec_line_statement(ls[i].content, ls[i].indent, ls[i].had_newline, strip) is Some,
    ensures
        match spec_line_statement(ls[i].content, ls[i].indent, ls[i].had_newline, strip) {
            Some(Ok(st)) => spec_statement(ls, i, strip) == Ok::<(SpecStatement, int), ErrorKind>((st, i + 1)),
            Some(Err(k)) => spec_statement(ls, i, strip) == Err::<(SpecStatement, int), ErrorKind>(k),
            None => false,
        },
{
}

/// The number of choice markers (`*` or `+`, spaces allowed between them)
/// at the start of `s`.
pub open spec fn spec_leading_markers(s: Seq<char>) -> nat
    decreases s.len(),
{
    if s.len() > 0 && (s[0] == '*' || s[0] == '+') {
        let n = spec_trim_start(s.skip(1));
        if n.len() < s.len() {
            1 + spec_leading_markers(n)
        } else {
            1
        }
    } else {
        0
    }
}

proof fn lemma_choice_markers_count(rem: Seq<char>, level: nat)
    ensures
        spec_choice_markers(rem, level).0 == level + spec_leading_markers(rem),
    decreases rem.len(),
{
    if rem.len() > 0 && (rem[0] == '*' || rem[0] == '+') {
        let n = spec_trim_start(rem.skip(1));
        if n.len() < rem.len() {
            lemma_choice_markers_count(n, level + 1);
        }
    }
}

proof fn lemma_lookahead_invisible(ls: Seq<SpecLine>, j: int, indent: nat, hc: bool, absorbed: bool, ct: SpecChoiceText, conds: Seq<SpecCondition>, inv: bool)
    requires
        inv == (ct.display_text.len() == 0 && ct.selected_text is None),
    ensures
        spec_choice_lookahead(ls, j, indent, hc, absorbed, ct, conds, inv) matches Ok((ct2, _, inv2, _))
            ==> inv2 == (ct2.display_text.len() == 0 && ct2.selected_text is None),
    decreases ls.len() - j,
{
    if 0 <= j < ls.len() {
        let pt = spec_trim(ls[j].content);
        if ls[j].indent > indent && pt.len() > 0 && pt[0] == '{' && (hc || absorbed) {
            if let Some(close) = spec_find(pt, seq!['}']) {
                let cond_str = if close >= 1 { pt.subrange(1, close) } else { Seq::empty() };
                if let Ok(c) = spec_parse_condition(spec_trim(cond_str)) {
                    lemma_lookahead_invisible(ls, j + 1, indent, hc, true, ct, conds.push(c), inv);
                }
            }
        }
    }
}

/// A choice line yields one choice whose nesting level is the number of
/// markers it starts with, and which is an invisible default exactly when
/// it has no display text and no selected text.
pub proof fn law_choice_level_and_invisible_default(ls: Seq<SpecLine>, i: int)
    requires
        spec_choice(ls, i) is Ok,
        0 <= i < ls.len(),
        spec_trim_start(ls[i].content).len() > 0,
        spec_trim_start(ls[i].content)[0] == '*' || spec_trim_start(ls[i].content)[0] == '+',
    ensures
        spec_choice(ls, i) matches Ok((SpecStatement::Nodes(ns), _)) && ns.len() == 1 && ns[0] is Choice
            && ns[0]->Choice_0.nesting_level == spec_leading_markers(spec_trim_start(ls[i].content))
            && ns[0]->Choice_0.is_invisible_default == (ns[0]->Choice_0.display_text.len() == 0 && ns[0]->Choice_0.selected_text is None),
{
    reveal_with_fuel(spec_choice, 2);
    let ts = spec_trim_start(ls[i].content);
    let rem = spec_trim_start(ts.skip(1));
    lemma_choice_markers_count(rem, 1);
    crate::inline::lemma_trim_start_len(ts.skip(1));
    assert(rem.len() < ts.len());
    let (level, rem1) = spec_choice_markers(rem, 1);
    if let Ok((label, conds, rem2)) = spec_parse_choice_prefixes(rem1) {
        if let Ok(ct) = spec_parse_choice_text(rem2) {
            let inv = ct.display_text.len() == 0 && ct.selected_text is None;
            lemma_lookahead_invisible(ls, i + 1, ls[i].indent, conds.len() > 0, false, ct, conds, inv);
        }
    }
}

} // verus!
