//! Statements that may span several lines: conditionals, switches,
//! sequences, choices and gathers, and the single-line statements between
//! them.  Each parser starts at `*line_index` and leaves it past the lines it
//! used.
use vstd::prelude::*;
use crate::ast::{
    agrees, branches_model, conditions_model, lemma_branches_push, lemma_nodes_model_concat,
    lemma_nodes_model_len, lemma_nodes_model_push, nodes_model, opt_expr_model, opt_string_model,
    switch_branches_model, Condition, Expression, GlobalVariable, ListDeclaration, Model, Node,
    Sequence, SequenceMode, SpecExpression, SpecGlobal, SpecListDeclaration, SpecNode,
};
use crate::conditional::spec_looks_like_conditional;
use crate::content::spec_parse_dynamic_string;
use crate::declarations::{spec_brace_open_scan, spec_parse_assignment, spec_parse_content_line, spec_parse_global_assignment};
use crate::error::ErrorKind;
use crate::expression::{spec_parse_bool, spec_parse_expression};
use crate::inline::{arrow, spec_parse_divert, spec_parse_divert_line};
use crate::sequence::spec_looks_like_sequence;
use crate::text::{spec_find, spec_strip_prefix};
use crate::choice::{
    gather_nesting_level, parse_choice_prefixes_chars, parse_choice_text_chars, ParsedChoiceText,
};
use crate::conditional::{fold_conditional_branches, looks_like_conditional_chars};
use crate::content::{dynamic_string, tokenize_inline};
use crate::declarations::{
    brace_spans_multiple_lines, parse_assignment, parse_content_line, parse_global_assignment,
    parse_list_declaration,
};
use crate::error::CompilerError;
use crate::expression::{parse_bool_chars, parse_expression_chars};
use crate::header::{parse_header_chars, trim_char};
use crate::inline::{
    parse_condition_chars, parse_divert_chars, parse_divert_line_chars, parse_inline_conditional_chars,
    split_top_level_pipe_chars,
};
use crate::lines::{lines_model, strip_block_comments, Line, SpecLine};
use crate::blocks::{
    agrees_at, framed, keep_branch, label_nodes, lemma_weight_at, lemma_weight_le, lemma_weight_less,
    lemma_weight_single, lemma_with_tail_lighter, newline_if, nodes_of, spec_branch_body, spec_choice,
    spec_choice_body, spec_choice_finish, spec_choice_lookahead, spec_choice_markers, spec_choice_node,
    spec_conditional, spec_cond_loop, spec_gather, spec_gather_label, spec_is_switch, spec_list_more,
    spec_mseq_loop, spec_multi_conditional, spec_multi_loop, spec_multi_sequence, spec_seq_loop, spec_sequence, spec_single,
    spec_statement, spec_strip_dashes, spec_switch_loop, spec_switch_single, source_weight, target_nodes, with_tail,
};
use crate::conditional::{cond_branches_model, opt_condition_model};
use crate::sequence::{
    is_sequence_branch_header_chars, looks_like_sequence_chars, parse_sequence_mode_chars,
};
use crate::text::{
    chars_eq, concat, contains_char, copy, ends_with_char, find_char, skip, slice_of, spec_trim,
    spec_trim_start, split_once_char, starts_with, starts_with_char, string_of, strip_prefix,
    strip_prefix_char, take, trim, trim_end, trim_start,
};

verus! {

/// What one statement of the source is.
#[derive(Debug, PartialEq)]
pub enum ParsedStatement {
    Global(GlobalVariable),
    Const(GlobalVariable),
    List(ListDeclaration),
    ExternalFunction(String),
    Nodes(Vec<Node>),
}

/// A statement as the contracts see it.
pub enum SpecStatement {
    Global(SpecGlobal),
    Const(SpecGlobal),
    List(SpecListDeclaration),
    ExternalFunction(Seq<char>),
    Nodes(Seq<SpecNode>),
}

impl Model for ParsedStatement {
    type M = SpecStatement;

    open spec fn model(&self) -> SpecStatement {
        match self {
            ParsedStatement::Global(g) => SpecStatement::Global(g.model()),
            ParsedStatement::Const(g) => SpecStatement::Const(g.model()),
            ParsedStatement::List(d) => SpecStatement::List(d.model()),
            ParsedStatement::ExternalFunction(n) => SpecStatement::ExternalFunction(n@),
            ParsedStatement::Nodes(ns) => SpecStatement::Nodes(nodes_model(ns@)),
        }
    }
}

pub open spec fn as_nodes(r: Result<Seq<SpecNode>, ErrorKind>) -> Result<SpecStatement, ErrorKind> {
    match r {
        Ok(ns) => Ok(SpecStatement::Nodes(ns)),
        Err(k) => Err(k),
    }
}

pub open spec fn as_one_node(r: Result<SpecNode, ErrorKind>) -> Result<SpecStatement, ErrorKind> {
    match r {
        Ok(n) => Ok(SpecStatement::Nodes(seq![n])),
        Err(k) => Err(k),
    }
}

/// The value after `~ return`: a boolean literal, else an expression.
pub open spec fn spec_return_value(v: Seq<char>) -> Result<SpecExpression, ErrorKind> {
    match spec_parse_bool(v) {
        Ok(b) => Ok(SpecExpression::Bool(b)),
        Err(_) => spec_parse_expression(v),
    }
}

/// The statement a line of source is by itself; `None` for a line that
/// opens a block, a choice or a gather, for a `LIST` (which may continue on
/// later lines), and for `<-` followed by anything but a space, whose
/// meaning depends on what Unicode calls alphanumeric.
#[verifier::opaque]
pub open spec fn spec_line_statement(content: Seq<char>, indent: nat, had_newline: bool, strip: bool) -> Option<Result<SpecStatement, ErrorKind>> {
    let t = spec_trim(content);
    if t.len() == 0 || seq!['/', '/'].is_prefix_of(t) {
        Some(Ok(SpecStatement::Nodes(Seq::empty())))
    } else if t == seq!['{'] || spec_looks_like_sequence(t) || (spec_looks_like_conditional(t) && spec_brace_open_scan(t, 0, 0)) {
        None
    } else if let Some(rest) = spec_strip_prefix(t, "EXTERNAL "@) {
        let head = match spec_find(rest, seq!['(']) {
            Some(k) => rest.take(k),
            None => rest,
        };
        Some(Ok(SpecStatement::ExternalFunction(spec_trim(head))))
    } else if let Some(rest) = spec_strip_prefix(t, "VAR "@) {
        Some(match spec_parse_global_assignment(rest) {
            Ok(g) => Ok(SpecStatement::Global(g)),
            Err(k) => Err(k),
        })
    } else if let Some(rest) = spec_strip_prefix(t, "CONST "@) {
        Some(match spec_parse_global_assignment(rest) {
            Ok(g) => Ok(SpecStatement::Const(g)),
            Err(k) => Err(k),
        })
    } else if "LIST "@.is_prefix_of(t) {
        None
    } else if t == "~ return"@ || t == "~return"@ {
        Some(Ok(SpecStatement::Nodes(seq![SpecNode::ReturnVoid])))
    } else if "~ return "@.is_prefix_of(t) || "~return "@.is_prefix_of(t) {
        let rest = if "~ return "@.is_prefix_of(t) { t.skip(9) } else { t.skip(8) };
        Some(match spec_return_value(spec_trim(rest)) {
            Ok(e) => Ok(SpecStatement::Nodes(seq![SpecNode::ReturnExpr(e)])),
            Err(k) => Err(k),
        })
    } else if t[0] == '~' {
        let rest = if "~ "@.is_prefix_of(t) { t.skip(2) } else { t.skip(1) };
        Some(as_one_node(spec_parse_assignment(rest)))
    } else if t[0] == '#' {
        Some(match spec_parse_dynamic_string(spec_trim_start(t.skip(1))) {
            Ok(d) => Ok(SpecStatement::Nodes(seq![SpecNode::Tag(d)])),
            Err(k) => Err(k),
        })
    } else if t[0] == '*' || t[0] == '+' || (t[0] == '-' && !arrow().is_prefix_of(t)) {
        None
    } else if t == "->->"@ {
        Some(Ok(SpecStatement::Nodes(seq![SpecNode::TunnelReturn])))
    } else if let Some(rest) = spec_strip_prefix(t, "<- "@) {
        Some(match spec_parse_divert(spec_trim(rest)) {
            Ok(d) => Ok(SpecStatement::Nodes(seq![SpecNode::ThreadDivert(d)])),
            Err(k) => Err(k),
        })
    } else if seq!['<', '-'].is_prefix_of(t) {
        None
    } else if arrow().is_prefix_of(t) {
        Some(as_nodes(spec_parse_divert_line(t)))
    } else {
        Some(as_nodes(spec_parse_content_line(content, indent, had_newline, strip)))
    }
}

/// A line standing for `lines[from - 1]`, followed by copies of the lines
/// from `from` on.
fn line_with_tail(head: Line, lines: &[Line], from: usize) -> (r: Vec<Line>)
    requires
        1 <= from <= lines.len(),
    ensures
        lines_model(r@) == with_tail(head.model(), lines_model(lines@), from - 1),
{
    let ghost hm = head.model();
    let ghost ls = lines_model(lines@);
    let mut r: Vec<Line> = Vec::new();
    r.push(head);
    proof {
        assert(lines_model(r@) =~= seq![hm] + ls.subrange(from as int, from as int));
    }
    let mut j: usize = from;
    while j < lines.len()
        invariant
            from <= j <= lines.len(),
            ls == lines_model(lines@),
            lines_model(r@) == seq![hm] + ls.subrange(from as int, j as int),
        decreases lines.len() - j,
    {
        let l = &lines[j];
        let ghost before = r@;
        r.push(Line { content: copy(&l.content), indent: l.indent, had_newline: l.had_newline });
        proof {
            assert(lines_model(r@) =~= lines_model(before).push(ls[j as int]));
            assert(ls.subrange(from as int, j + 1) =~= ls.subrange(from as int, j as int).push(ls[j as int]));
        }
        j = j + 1;
    }
    proof {
        assert(ls.subrange(from as int, lines.len() as int) =~= ls.skip(from as int));
    }
    r
}

/// Whether `c` is alphabetic or numeric in Unicode: what std's
/// `char::is_alphanumeric` returns.
pub uninterp spec fn unicode_alphanumeric(c: char) -> bool;

/// `char::is_alphanumeric` of std.  Its result is named, not stated: it
/// depends on `c` alone, through the Unicode tables std was built with.
#[verifier::external_body]
fn char_is_alphanumeric(c: char) -> (r: bool)
    ensures
        r == unicode_alphanumeric(c),
{
    c.is_alphanumeric()
}

fn chars_of_str(s: &str) -> (r: Vec<char>)
    ensures
        r@ == s@,
{
    crate::text::chars_of(s)
}

fn located<T>(r: Result<T, CompilerError>, ln: usize) -> (out: Result<T, CompilerError>)
    ensures
        r is Ok <==> out is Ok,
        r matches Ok(x) ==> out == Ok::<T, CompilerError>(x),
        r matches Err(e) ==> (out matches Err(e2) && e2.kind == e.kind && e2.message@ == e.message@
            && e2.line == (match e.line {
                Some(l) => Some(l),
                None => Some(ln),
            })),
{
    match r {
        Ok(x) => Ok(x),
        Err(e) => Err(e.with_line(ln)),
    }
}

/// A list of one node.
fn single(n: Node) -> (v: Vec<Node>)
    ensures
        nodes_model(v@) == seq![crate::ast::node_model(n)],
{
    let mut v: Vec<Node> = Vec::new();
    v.push(n);
    proof {
        crate::ast::lemma_nodes_model_push(Seq::empty(), n);
        assert(v@ =~= Seq::<Node>::empty().push(n));
        assert(nodes_model(Seq::<Node>::empty()) =~= Seq::<SpecNode>::empty());
    }
    v
}

fn append_nodes(target: &mut Vec<Node>, nodes: Vec<Node>)
    ensures
        final(target)@ == old(target)@ + nodes@,
        nodes_model(final(target)@) == nodes_model(old(target)@) + nodes_model(nodes@),
{
    let ghost a = target@;
    let ghost b = nodes@;
    let mut nodes = nodes;
    target.append(&mut nodes);
    proof {
        lemma_nodes_model_concat(a, b);
    }
}

/// Adds a line break when `b` holds.
fn push_newline_if(target: &mut Vec<Node>, b: bool)
    ensures
        nodes_model(final(target)@) == nodes_model(old(target)@) + newline_if(b),
{
    let ghost a = target@;
    if b {
        target.push(Node::Newline);
        proof {
            lemma_nodes_model_push(a, Node::Newline);
            assert(nodes_model(a).push(SpecNode::Newline) =~= nodes_model(a) + seq![SpecNode::Newline]);
        }
    } else {
        assert(nodes_model(a) + Seq::<SpecNode>::empty() =~= nodes_model(a));
    }
}

/// Adds a gather's label, when it has one.
fn push_label(target: &mut Vec<Node>, label: Option<String>)
    ensures
        nodes_model(final(target)@) == nodes_model(old(target)@) + label_nodes(opt_string_model(label)),
{
    let ghost a = target@;
    match label {
        Some(l) => {
            let ghost lm = l@;
            target.push(Node::GatherLabel(l));
            proof {
                lemma_nodes_model_push(a, Node::GatherLabel(l));
                assert(nodes_model(a).push(SpecNode::GatherLabel(lm)) =~= nodes_model(a) + seq![SpecNode::GatherLabel(lm)]);
            }
        },
        None => {
            assert(nodes_model(a) + Seq::<SpecNode>::empty() =~= nodes_model(a));
        },
    }
}

/// The nodes of a statement; none for a declaration.
fn statement_nodes(statement: ParsedStatement) -> (v: Vec<Node>)
    ensures
        nodes_model(v@) == nodes_of(statement.model()),
{
    match statement {
        ParsedStatement::Nodes(ns) => ns,
        _ => {
            let v: Vec<Node> = Vec::new();
            assert(nodes_model(v@) =~= Seq::<SpecNode>::empty());
            v
        },
    }
}

proof fn lemma_trim_le(s: Seq<char>)
    ensures
        spec_trim(s).len() <= s.len(),
        spec_trim_start(s).len() <= s.len(),
{
    crate::inline::lemma_trim_len(s);
    crate::inline::lemma_trim_start_len(s);
}

/// The rest of a `LIST` declaration from `lines[from]` on: indented lines
/// are appended after a space, and blank lines are skipped while the text
/// ends with `,`.
fn list_more(lines: &[Line], from: usize, rest: Vec<char>) -> (r: (Vec<char>, usize))
    requires
        from <= lines.len(),
    ensures
        from <= r.1 <= lines.len(),
        spec_list_more(lines_model(lines@), from as int, rest@) == (r.0@, r.1 as int),
{
    let ghost ls = lines_model(lines@);
    let ghost goal = spec_list_more(ls, from as int, rest@);
    let comment = vec!['/', '/'];
    assert(comment@ =~= seq!['/', '/']);
    let mut full = rest;
    let mut j = from;
    loop
        invariant
            from <= j <= lines.len(),
            ls == lines_model(lines@),
            comment@ == seq!['/', '/'],
            spec_list_more(ls, j as int, full@) == goal,
        ensures
            from <= j <= lines.len(),
            goal == (full@, j as int),
        decreases lines.len() - j,
    {
        if j >= lines.len() {
            break;
        }
        let l = &lines[j];
        proof {
            assert(ls[j as int] == l.model());
        }
        let next = trim(&l.content);
        let indented = l.content.len() > 0 && (l.content[0] == ' ' || l.content[0] == '\t');
        if !indented && next.len() > 0 {
            break;
        }
        if next.len() == 0 {
            if ends_with_char(&trim_end(&full), ',') {
                j = j + 1;
                continue;
            } else {
                break;
            }
        }
        if starts_with(&next, &comment) {
            break;
        }
        full.push(' ');
        full = concat(&full, &next);
        j = j + 1;
    }
    (full, j)
}

/// The statement a line is by itself; `None` for a line that opens a
/// block, a choice or a gather, for a `LIST`, and for `<-` followed by
/// anything but a space (see `spec_line_statement`).  An error carries the
/// line number `ln`.
#[verifier::rlimit(100)]
fn parse_simple_line(line: &Line, strip_leading_whitespace: bool, ln: usize) -> (r: Option<Result<ParsedStatement, CompilerError>>)
    ensures
        match (r, spec_line_statement(line.content@, line.indent as nat, line.had_newline, strip_leading_whitespace)) {
            (None, None) => true,
            (Some(x), Some(y)) => agrees(x, y),
            _ => false,
        },
        r matches Some(Err(e)) ==> e.line is Some,
{
    let trimmed = trim(&line.content);
    proof {
        reveal(spec_line_statement);
        lemma_trim_le(line.content@);
        reveal_strlit("EXTERNAL ");
        reveal_strlit("VAR ");
        reveal_strlit("CONST ");
        reveal_strlit("LIST ");
        reveal_strlit("~ return");
        reveal_strlit("~return");
        reveal_strlit("~ return ");
        reveal_strlit("~return ");
        reveal_strlit("~ ");
        reveal_strlit("->->");
        reveal_strlit("<- ");
    }
    let comment = vec!['/', '/'];
    assert(comment@ =~= seq!['/', '/']);
    if trimmed.len() == 0 || starts_with(&trimmed, &comment) {
        let none: Vec<Node> = Vec::new();
        assert(nodes_model(none@) =~= Seq::<SpecNode>::empty());
        return Some(Ok(ParsedStatement::Nodes(none)));
    }
    let open_brace = vec!['{'];
    assert(open_brace@ =~= seq!['{']);
    if chars_eq(&trimmed, &open_brace) || looks_like_sequence_chars(&trimmed)
        || (looks_like_conditional_chars(&trimmed) && brace_spans_multiple_lines(&trimmed)) {
        return None;
    }
    let external = chars_of_str("EXTERNAL ");
    if let Some(rest) = strip_prefix(&trimmed, &external) {
        let head = match find_char(&rest, '(') {
            Some(k) => {
                proof {
                    crate::text::lemma_find_from_bounds(rest@, seq!['('], 0);
                }
                take(&rest, k)
            },
            None => copy(&rest),
        };
        return Some(Ok(ParsedStatement::ExternalFunction(string_of(&trim(&head)))));
    }
    let var = chars_of_str("VAR ");
    if let Some(rest) = strip_prefix(&trimmed, &var) {
        return Some(match located(parse_global_assignment(&rest), ln) {
            Ok(g) => Ok(ParsedStatement::Global(g)),
            Err(e) => Err(e),
        });
    }
    let constant = chars_of_str("CONST ");
    if let Some(rest) = strip_prefix(&trimmed, &constant) {
        return Some(match located(parse_global_assignment(&rest), ln) {
            Ok(g) => Ok(ParsedStatement::Const(g)),
            Err(e) => Err(e),
        });
    }
    let list = chars_of_str("LIST ");
    if starts_with(&trimmed, &list) {
        return None;
    }
    let ret1 = chars_of_str("~ return");
    let ret2 = chars_of_str("~return");
    if chars_eq(&trimmed, &ret1) || chars_eq(&trimmed, &ret2) {
        return Some(Ok(ParsedStatement::Nodes(single(Node::ReturnVoid))));
    }
    let ret3 = chars_of_str("~ return ");
    let ret4 = chars_of_str("~return ");
    let ret_rest = match strip_prefix(&trimmed, &ret3) {
        Some(r) => Some(r),
        None => strip_prefix(&trimmed, &ret4),
    };
    if let Some(rest) = ret_rest {
        let value = trim(&rest);
        let expr = match parse_bool_chars(&value) {
            Ok(b) => Expression::Bool(b),
            Err(_) => match located(parse_expression_chars(&value), ln) {
                Ok(e) => e,
                Err(e) => return Some(Err(e)),
            },
        };
        return Some(Ok(ParsedStatement::Nodes(single(Node::ReturnExpr(expr)))));
    }
    let tilde = chars_of_str("~ ");
    if trimmed[0] == '~' {
        let rest = if starts_with(&trimmed, &tilde) { skip(&trimmed, 2) } else { skip(&trimmed, 1) };
        return Some(match located(parse_assignment(&rest), ln) {
            Ok(n) => Ok(ParsedStatement::Nodes(single(n))),
            Err(e) => Err(e),
        });
    }
    if let Some(rest) = strip_prefix_char(&trimmed, '#') {
        return Some(match located(dynamic_string(&trim_start(&rest)), ln) {
            Ok(d) => Ok(ParsedStatement::Nodes(single(Node::Tag(d)))),
            Err(e) => Err(e),
        });
    }
    let arrow_v = vec!['-', '>'];
    assert(arrow_v@ =~= arrow());
    if starts_with_char(&trimmed, '*') || starts_with_char(&trimmed, '+')
        || (!starts_with(&trimmed, &arrow_v) && starts_with_char(&trimmed, '-')) {
        return None;
    }
    let tunnel_return = chars_of_str("->->");
    if chars_eq(&trimmed, &tunnel_return) {
        return Some(Ok(ParsedStatement::Nodes(single(Node::TunnelReturn))));
    }
    let thread_space = chars_of_str("<- ");
    if let Some(r) = strip_prefix(&trimmed, &thread_space) {
        return Some(match located(parse_divert_chars(&trim(&r)), ln) {
            Ok(d) => Ok(ParsedStatement::Nodes(single(Node::ThreadDivert(d)))),
            Err(e) => Err(e),
        });
    }
    let thread = vec!['<', '-'];
    assert(thread@ =~= seq!['<', '-']);
    if starts_with(&trimmed, &thread) {
        return None;
    }
    if starts_with(&trimmed, &arrow_v) {
        return Some(match located(parse_divert_line_chars(&trimmed), ln) {
            Ok(ns) => Ok(ParsedStatement::Nodes(ns)),
            Err(e) => Err(e),
        });
    }
    Some(match located(parse_content_line(line, strip_leading_whitespace), ln) {
        Ok(ns) => Ok(ParsedStatement::Nodes(ns)),
        Err(e) => Err(e),
    })
}

/// The statement starting at `lines[*line_index]`.  Blank and comment lines
/// give no nodes; `{` blocks, sequences, choices and gathers read as many
/// lines as they span; `EXTERNAL`, `VAR`, `CONST` and `LIST` declare; `~`
/// lines return, assign or call; `#` tags; `->->`, `<-` and `->` divert;
/// anything else is a line of content.  An error carries the line it was
/// found on.
#[verifier::rlimit(100)]
pub fn parse_statement(lines: &[Line], line_index: &mut usize, strip_leading_whitespace: bool) -> (r: Result<ParsedStatement, CompilerError>)
    requires
        *old(line_index) < lines.len(),
    ensures
        r is Ok ==> *old(line_index) < *final(line_index) <= lines.len(),
        agrees_at(r, *final(line_index) as int, spec_statement(lines_model(lines@), *old(line_index) as int, strip_leading_whitespace)),
        r matches Err(e) ==> e.line is Some,
    decreases source_weight(lines_model(lines@), *old(line_index) as int), 6nat,
{
    let ghost ls = lines_model(lines@);
    let idx = *line_index;
    let line = &lines[idx];
    proof {
        assert(ls[idx as int] == line.model());
    }
    let ln = idx + 1;
    if let Some(r) = parse_simple_line(line, strip_leading_whitespace, ln) {
        *line_index = idx + 1;
        return r;
    }
    let trimmed = trim(&line.content);
    proof {
        lemma_trim_le(line.content@);
        reveal_strlit("LIST ");
    }
    let open_brace = vec!['{'];
    assert(open_brace@ =~= seq!['{']);
    let is_sequence = looks_like_sequence_chars(&trimmed);
    if chars_eq(&trimmed, &open_brace)
        || (!is_sequence && looks_like_conditional_chars(&trimmed) && brace_spans_multiple_lines(&trimmed)) {
        return match located(parse_conditional(lines, line_index, strip_leading_whitespace), ln) {
            Ok(ns) => Ok(ParsedStatement::Nodes(ns)),
            Err(e) => Err(e),
        };
    }
    if is_sequence {
        return match located(parse_sequence(lines, line_index, strip_leading_whitespace), ln) {
            Ok(ns) => Ok(ParsedStatement::Nodes(ns)),
            Err(e) => Err(e),
        };
    }
    let list = chars_of_str("LIST ");
    if let Some(rest) = strip_prefix(&trimmed, &list) {
        let (full, next) = list_more(lines, idx + 1, rest);
        *line_index = next;
        let full = strip_block_comments(&full);
        return match located(parse_list_declaration(&full), ln) {
            Ok(d) => Ok(ParsedStatement::List(d)),
            Err(e) => Err(e),
        };
    }
    if starts_with_char(&trimmed, '*') || starts_with_char(&trimmed, '+') {
        return located(parse_choice(lines, line_index), ln);
    }
    let arrow_v = vec!['-', '>'];
    assert(arrow_v@ =~= arrow());
    if !starts_with(&trimmed, &arrow_v) && starts_with_char(&trimmed, '-') {
        *line_index = idx + 1;
        return parse_gather(lines, line_index, idx, &trimmed, ln);
    }
    *line_index = idx + 1;
    let thread = vec!['<', '-'];
    assert(thread@ =~= seq!['<', '-']);
    if let Some(r) = strip_prefix(&trimmed, &thread) {
        if r.len() > 0 && (char_is_alphanumeric(r[0]) || r[0] == '_') {
            return match located(parse_divert_chars(&r), ln) {
                Ok(d) => Ok(ParsedStatement::Nodes(single(Node::ThreadDivert(d)))),
                Err(e) => Err(e),
            };
        }
    }
    match located(parse_content_line(line, strip_leading_whitespace), ln) {
        Ok(ns) => Ok(ParsedStatement::Nodes(ns)),
        Err(e) => Err(e),
    }
}

/// A gather's text after its first dash, with any further dashes taken off.
fn gather_dashes(trimmed: &Vec<char>) -> (gc: Vec<char>)
    requires
        trimmed@.len() > 0,
    ensures
        gc@ == spec_strip_dashes(spec_trim_start(trimmed@.skip(1))),
        gc@.len() < trimmed@.len(),
{
    let arrow_v = vec!['-', '>'];
    assert(arrow_v@ =~= arrow());
    let mut gc = trim_start(&skip(trimmed, 1));
    proof {
        lemma_trim_le(trimmed@.skip(1));
    }
    let ghost gc_start = gc@;
    while gc.len() > 0 && gc[0] == '-' && !starts_with(&gc, &arrow_v)
        invariant
            gc@.len() < trimmed@.len(),
            arrow_v@ == arrow(),
            spec_strip_dashes(gc@) == spec_strip_dashes(gc_start),
        decreases gc@.len(),
    {
        let next = trim_start(&skip(&gc, 1));
        proof {
            lemma_trim_le(gc@.skip(1));
        }
        gc = next;
    }
    gc
}

/// A gather's `(label)`, when its text starts with one, and the text after.
fn gather_label(gc: Vec<char>) -> (r: (Option<String>, Vec<char>))
    ensures
        spec_gather_label(gc@) == (opt_string_model(r.0), r.1@),
        r.1@.len() <= gc@.len(),
{
    if gc.len() > 0 && gc[0] == '(' {
        if let Some(end) = find_char(&gc, ')') {
            proof {
                crate::text::lemma_find_from_bounds(gc@, seq![')'], 0);
            }
            let n = gc.len();
            assert(end + 1 <= n);
            let inner = if end >= 1 { slice_of(&gc, 1, end) } else { Vec::new() };
            let label = Some(string_of(&trim(&inner)));
            let rest = trim_start(&skip(&gc, end + 1));
            proof {
                lemma_trim_le(gc@.skip(end + 1));
            }
            return (label, rest);
        }
    }
    (None, gc)
}

/// A gather line `- ...` (already consumed, at `idx`): its dashes, an
/// optional `(label)`, then a choice, a block, or content.
#[verifier::rlimit(100)]
fn parse_gather(lines: &[Line], line_index: &mut usize, idx: usize, trimmed: &Vec<char>, ln: usize) -> (r: Result<ParsedStatement, CompilerError>)
    requires
        idx < lines.len(),
        *old(line_index) == idx + 1,
        trimmed@ == spec_trim(lines@[idx as int].content@),
        trimmed@.len() > 0,
    ensures
        r is Ok ==> idx < *final(line_index) <= lines.len(),
        agrees_at(r, *final(line_index) as int, spec_gather(lines_model(lines@), idx as int, trimmed@)),
        r matches Err(e) ==> e.line is Some,
    decreases source_weight(lines_model(lines@), idx as int), 5nat,
{
    let ghost ls = lines_model(lines@);
    let line = &lines[idx];
    proof {
        lemma_trim_le(line.content@);
        assert(ls[idx as int] == line.model());
    }
    let gc = gather_dashes(trimmed);
    if gc.len() == 0 {
        return Ok(ParsedStatement::Nodes(single(Node::GatherPoint)));
    }
    let (label, gc) = gather_label(gc);
    if starts_with_char(&gc, '*') || starts_with_char(&gc, '+') {
        let synthetic = Line { content: copy(&gc), indent: line.indent, had_newline: line.had_newline };
        let ghost sm = synthetic.model();
        let combined = line_with_tail(synthetic, lines, idx + 1);
        proof {
            lemma_with_tail_lighter(sm, ls, idx as int);
            lemma_weight_less(ls, idx as int, idx + 1);
        }
        let mut local: usize = 0;
        let stmt = match located(parse_choice(&combined, &mut local), ln) {
            Ok(s) => s,
            Err(e) => return Err(e),
        };
        *line_index = idx + local;
        let choice_nodes = match stmt {
            ParsedStatement::Nodes(ns) => ns,
            other => return Ok(other),
        };
        let mut result = single(Node::GatherPoint);
        push_label(&mut result, label);
        append_nodes(&mut result, choice_nodes);
        return Ok(ParsedStatement::Nodes(result));
    }
    let is_sequence = looks_like_sequence_chars(&gc);
    if looks_like_conditional_chars(&gc) || is_sequence {
        let synthetic = Line { content: copy(&gc), indent: line.indent, had_newline: line.had_newline };
        let ghost sm = synthetic.model();
        let combined = line_with_tail(synthetic, lines, idx + 1);
        proof {
            lemma_with_tail_lighter(sm, ls, idx as int);
        }
        let mut local: usize = 0;
        let parsed = if is_sequence {
            parse_sequence(&combined, &mut local, true)
        } else {
            parse_conditional(&combined, &mut local, true)
        };
        let nodes = match located(parsed, ln) {
            Ok(ns) => ns,
            Err(e) => return Err(e),
        };
        *line_index = idx + local;
        let mut result: Vec<Node> = Vec::new();
        assert(nodes_model(result@) =~= Seq::<SpecNode>::empty());
        push_label(&mut result, label);
        append_nodes(&mut result, nodes);
        assert(label_nodes(opt_string_model(label)) =~= Seq::<SpecNode>::empty() + label_nodes(opt_string_model(label)));
        return Ok(ParsedStatement::Nodes(result));
    }
    let had_newline = line.had_newline && gc.len() > 0;
    let gather_line = Line { content: gc, indent: line.indent, had_newline };
    let nodes = match located(parse_content_line(&gather_line, true), ln) {
        Ok(ns) => ns,
        Err(e) => return Err(e),
    };
    let mut result: Vec<Node> = Vec::new();
    assert(nodes_model(result@) =~= Seq::<SpecNode>::empty());
    push_label(&mut result, label);
    append_nodes(&mut result, nodes);
    assert(label_nodes(opt_string_model(label)) =~= Seq::<SpecNode>::empty() + label_nodes(opt_string_model(label)));
    Ok(ParsedStatement::Nodes(result))
}

/// Adds a statement's nodes to `target`; declarations are not allowed
/// inside a block.
fn absorb(target: &mut Vec<Node>, statement: ParsedStatement, what: &str) -> (r: Result<(), CompilerError>)
    ensures
        r is Ok <==> statement is Nodes,
        r is Ok ==> nodes_model(final(target)@) == nodes_model(old(target)@) + nodes_of(statement.model()),
        r matches Err(e) ==> e.kind == ErrorKind::UnsupportedFeature,
{
    match statement {
        ParsedStatement::Nodes(ns) => {
            append_nodes(target, ns);
            Ok(())
        },
        _ => {
            let message = concat(&chars_of_str("global declarations are not supported inside "), &chars_of_str(what));
            Err(CompilerError::unsupported_feature(string_of(&message)))
        },
    }
}

/// Adds a statement's nodes to `target`, ignoring anything else.
fn absorb_nodes(target: &mut Vec<Node>, statement: ParsedStatement)
    ensures
        nodes_model(final(target)@) == nodes_model(old(target)@) + nodes_of(statement.model()),
{
    let ns = statement_nodes(statement);
    append_nodes(target, ns);
}

/// Parses one line of text as a statement of its own, and gives its nodes.
fn parse_single_line(content: Vec<char>, had_newline: bool, bound: Ghost<nat>) -> (r: Result<Vec<Node>, CompilerError>)
    requires
        content@.len() < bound@,
    ensures
        agrees(r, spec_single(content@, had_newline)),
    decreases bound@, 8nat,
{
    let ghost c = content@;
    let single = vec![Line { content, indent: 0, had_newline }];
    let mut idx: usize = 0;
    proof {
        assert(lines_model(single@) =~= seq![SpecLine { content: c, indent: 0, had_newline }]);
        lemma_weight_single(SpecLine { content: c, indent: 0, had_newline });
    }
    match parse_statement(&single, &mut idx, true) {
        Err(e) => Err(e),
        Ok(s) => Ok(statement_nodes(s)),
    }
}

/// Whether the `{value:` block at line `i`, whose header's text after the
/// colon is `rest`, is a switch: its next line is a `- case:` branch.
fn switch_follows(lines: &[Line], i: usize, rest: &[char]) -> (b: bool)
    requires
        i < lines.len(),
    ensures
        b == spec_is_switch(lines_model(lines@), i as int, rest@),
{
    if trim(rest).len() != 0 || i + 1 >= lines.len() {
        return false;
    }
    let fb = trim(&lines[i + 1].content);
    assert(lines_model(lines@)[i + 1] == lines@[i + 1].model());
    let arrow_v = vec!['-', '>'];
    assert(arrow_v@ =~= arrow());
    let else_dash = chars_of_str("- else:");
    if starts_with_char(&fb, '-') && !starts_with(&fb, &arrow_v) && !starts_with(&fb, &else_dash) {
        let bc = trim_start(&trim_char(&fb, '-', false));
        contains_char(&bc, ':') && !starts_with(&bc, &arrow_v)
    } else {
        false
    }
}

/// Keeps the branch being read when it has a condition or nodes.
fn keep_cond_branch(branches: &mut Vec<(Option<Condition>, Vec<Node>)>, c: Option<Condition>, n: Vec<Node>)
    ensures
        cond_branches_model(final(branches)@) == keep_branch(cond_branches_model(old(branches)@), opt_condition_model(c), nodes_model(n@)),
{
    let ghost cm = opt_condition_model(c);
    let ghost nm = nodes_model(n@);
    let ghost b0 = branches@;
    proof {
        lemma_nodes_model_len(n@);
    }
    if c.is_some() || n.len() > 0 {
        branches.push((c, n));
        assert(cond_branches_model(branches@) =~= cond_branches_model(b0).push((cm, nm)));
    }
}

/// Keeps the switch branch being read when it has a case or nodes.
fn keep_switch_branch(branches: &mut Vec<(Option<Expression>, Vec<Node>)>, c: Option<Expression>, n: Vec<Node>)
    ensures
        switch_branches_model(final(branches)@) == keep_branch(switch_branches_model(old(branches)@), opt_expr_model(c), nodes_model(n@)),
{
    let ghost cm = opt_expr_model(c);
    let ghost nm = nodes_model(n@);
    let ghost b0 = branches@;
    proof {
        lemma_nodes_model_len(n@);
    }
    if c.is_some() || n.len() > 0 {
        branches.push((c, n));
        assert(branches@.drop_last() =~= b0);
    }
}

/// A conditional block starting at `lines[*line_index]`: an inline
/// `{cond: a|b}`, a multi-branch `{` block, a switch `{value:` or a
/// `{cond:` block with `- else:`.
pub fn parse_conditional(lines: &[Line], line_index: &mut usize, strip_leading_whitespace: bool) -> (r: Result<Vec<Node>, CompilerError>)
    requires
        *old(line_index) < lines.len(),
    ensures
        r is Ok ==> *old(line_index) < *final(line_index) <= lines.len(),
        agrees_at(r, *final(line_index) as int, spec_conditional(lines_model(lines@), *old(line_index) as int, strip_leading_whitespace)),
    decreases source_weight(lines_model(lines@), *old(line_index) as int), 5nat,
{
    let ghost ls = lines_model(lines@);
    let idx = *line_index;
    let ghost goal = spec_conditional(ls, idx as int, strip_leading_whitespace);
    let line = &lines[idx];
    proof {
        assert(ls[idx as int] == line.model());
    }
    let content = if strip_leading_whitespace { trim_start(&line.content) } else { trim(&line.content) };
    proof {
        lemma_trim_le(line.content@);
    }
    match parse_inline_conditional_chars(&content) {
        Err(e) => return Err(e),
        Ok(Some((condition, branch_text))) => {
            *line_index = idx + 1;
            let branches = split_top_level_pipe_chars(&branch_text);
            assert(crate::expression::char_vecs_model(branches@)[0] == branches@[0]@);
            let when_true = match tokenize_inline(&trim(&branches[0])) {
                Err(e) => return Err(e),
                Ok(v) => v,
            };
            let when_false = if branches.len() > 1 {
                assert(crate::expression::char_vecs_model(branches@)[1] == branches@[1]@);
                match tokenize_inline(&trim(&branches[1])) {
                    Err(e) => return Err(e),
                    Ok(v) => Some(v),
                }
            } else {
                None
            };
            let mut nodes = single(Node::Conditional { condition, when_true, when_false });
            push_newline_if(&mut nodes, line.had_newline);
            return Ok(nodes);
        },
        Ok(None) => {},
    }
    let tc = trim(&content);
    let open_brace = vec!['{'];
    assert(open_brace@ =~= seq!['{']);
    if chars_eq(&tc, &open_brace) {
        return parse_multi_branch_conditional(lines, line_index);
    }
    let header = match strip_prefix_char(&tc, '{') {
        None => return Err(CompilerError::invalid_source("expected conditional block".to_owned())),
        Some(h) => h,
    };
    let (condition_text, rest_after_colon) = match split_once_char(&header, ':') {
        None => return Err(CompilerError::invalid_source("conditional block is missing ':'".to_owned())),
        Some(p) => p,
    };
    if switch_follows(lines, idx, &rest_after_colon) {
        let value = match parse_expression_chars(&trim(&condition_text)) {
            Err(e) => return Err(e),
            Ok(v) => v,
        };
        *line_index = idx + 1;
        proof {
            lemma_weight_less(ls, idx as int, idx + 1);
        }
        return parse_switch_conditional(lines, line_index, value);
    }
    let condition = match parse_condition_chars(&trim(&condition_text)) {
        Err(e) => return Err(e),
        Ok(c) => c,
    };
    *line_index = idx + 1;
    let mut when_true: Vec<Node> = Vec::new();
    let mut when_false: Vec<Node> = Vec::new();
    let mut in_else = false;
    let mut seen_branch_dash = false;
    assert(nodes_model(when_true@) =~= Seq::<SpecNode>::empty());
    push_newline_if(&mut when_true, line.had_newline);
    assert(nodes_model(when_true@) =~= newline_if(line.had_newline));
    let close = vec!['}'];
    assert(close@ =~= seq!['}']);
    let else_dash = chars_of_str("- else:");
    while *line_index < lines.len()
        invariant
            idx < *line_index <= lines.len(),
            idx < lines.len(),
            idx == *old(line_index),
            ls == lines_model(lines@),
            goal == spec_conditional(ls, idx as int, strip_leading_whitespace),
            close@ == seq!['}'],
            else_dash@ == "- else:"@,
            spec_cond_loop(ls, *line_index as int, condition.model(), nodes_model(when_true@), nodes_model(when_false@), in_else, seen_branch_dash) == goal,
        decreases lines.len() - *line_index,
    {
        let li = *line_index;
        let body_line = &lines[li];
        let trimmed = trim(&body_line.content);
        proof {
            assert(ls[li as int] == body_line.model());
            lemma_trim_le(body_line.content@);
            lemma_weight_less(ls, idx as int, li as int);
            lemma_weight_at(ls, li as int, li as int);
        }
        if chars_eq(&trimmed, &close) {
            let closing_had_newline = body_line.had_newline && li + 1 < lines.len();
            *line_index = li + 1;
            proof {
                lemma_nodes_model_len(when_false@);
            }
            let mut nodes = single(Node::Conditional {
                condition,
                when_true,
                when_false: if when_false.len() == 0 { None } else { Some(when_false) },
            });
            push_newline_if(&mut nodes, closing_had_newline);
            return Ok(nodes);
        }
        if chars_eq(&trimmed, &else_dash) {
            in_else = true;
            *line_index = li + 1;
            push_newline_if(&mut when_false, body_line.had_newline);
            continue;
        }
        if let Some(else_content) = strip_prefix(&trimmed, &else_dash) {
            in_else = true;
            *line_index = li + 1;
            let rest = trim(&else_content);
            let added = if rest.len() > 0 {
                match tokenize_inline(&rest) {
                    Err(e) => return Err(e),
                    Ok(ns) => ns,
                }
            } else {
                let v: Vec<Node> = Vec::new();
                assert(nodes_model(v@) =~= Seq::<SpecNode>::empty());
                v
            };
            append_nodes(&mut when_false, added);
            push_newline_if(&mut when_false, body_line.had_newline);
            continue;
        }
        let branch = match strip_prefix_char(&trimmed, '-') {
            Some(b) => if b.len() > 0 && b[0] == '>' { None } else { Some(b) },
            None => None,
        };
        if let Some(branch_content) = branch {
            *line_index = li + 1;
            let rest = trim(&branch_content);
            proof {
                lemma_trim_le(branch_content@);
            }
            if seen_branch_dash {
                in_else = true;
            }
            seen_branch_dash = true;
            let mut added: Vec<Node> = if rest.len() > 0 {
                if rest[0] == '~' {
                    match parse_single_line(rest, false, Ghost(source_weight(ls, li as int))) {
                        Err(e) => return Err(e),
                        Ok(ns) => ns,
                    }
                } else {
                    match tokenize_inline(&rest) {
                        Err(e) => return Err(e),
                        Ok(ns) => ns,
                    }
                }
            } else {
                let v: Vec<Node> = Vec::new();
                assert(nodes_model(v@) =~= Seq::<SpecNode>::empty());
                v
            };
            push_newline_if(&mut added, body_line.had_newline);
            if in_else {
                append_nodes(&mut when_false, added);
            } else {
                append_nodes(&mut when_true, added);
            }
            continue;
        }
        let statement = match parse_statement(lines, line_index, true) {
            Err(e) => return Err(e),
            Ok(s) => s,
        };
        let absorbed = if in_else {
            absorb(&mut when_false, statement, "conditionals")
        } else {
            absorb(&mut when_true, statement, "conditionals")
        };
        if let Err(e) = absorbed {
            return Err(e);
        }
    }
    Err(CompilerError::invalid_source("unterminated conditional block".to_owned()))
}

/// A multi-branch conditional `{` with `- cond:` and `- else:` branches;
/// the branches fold into nested conditionals.
#[verifier::rlimit(100)]
pub fn parse_multi_branch_conditional(lines: &[Line], line_index: &mut usize) -> (r: Result<Vec<Node>, CompilerError>)
    requires
        *old(line_index) < lines.len(),
    ensures
        r is Ok ==> *old(line_index) < *final(line_index) <= lines.len(),
        agrees_at(r, *final(line_index) as int, spec_multi_conditional(lines_model(lines@), *old(line_index) as int)),
    decreases source_weight(lines_model(lines@), *old(line_index) as int), 4nat,
{
    let ghost ls = lines_model(lines@);
    let idx = *line_index;
    let ghost goal = spec_multi_conditional(ls, idx as int);
    *line_index = idx + 1;
    let mut branches: Vec<(Option<Condition>, Vec<Node>)> = Vec::new();
    let mut current_condition: Option<Condition> = None;
    let mut current_nodes: Vec<Node> = Vec::new();
    proof {
        assert(cond_branches_model(branches@) =~= Seq::empty());
        assert(nodes_model(current_nodes@) =~= Seq::<SpecNode>::empty());
        lemma_weight_less(ls, idx as int, idx + 1);
    }
    let close = vec!['}'];
    assert(close@ =~= seq!['}']);
    let else_word = chars_of_str("else:");
    while *line_index < lines.len()
        invariant
            idx < *line_index <= lines.len(),
            idx < lines.len(),
            idx == *old(line_index),
            ls == lines_model(lines@),
            goal == spec_multi_conditional(ls, idx as int),
            close@ == seq!['}'],
            else_word@ == "else:"@,
            spec_multi_loop(ls, *line_index as int, cond_branches_model(branches@), opt_condition_model(current_condition), nodes_model(current_nodes@)) == goal,
        decreases lines.len() - *line_index,
    {
        let li = *line_index;
        let line = &lines[li];
        let trimmed = trim(&line.content);
        proof {
            assert(ls[li as int] == line.model());
            lemma_trim_le(line.content@);
            lemma_weight_less(ls, idx as int, li as int);
            lemma_weight_less(ls, li as int, li + 1);
            lemma_weight_at(ls, li as int, li as int);
        }
        if chars_eq(&trimmed, &close) {
            let closing_had_newline = line.had_newline && li + 1 < lines.len();
            *line_index = li + 1;
            keep_cond_branch(&mut branches, current_condition, current_nodes);
            let mut nodes = match fold_conditional_branches(branches) {
                Err(e) => return Err(e),
                Ok(ns) => ns,
            };
            push_newline_if(&mut nodes, closing_had_newline);
            return Ok(nodes);
        }
        if let Some(header0) = strip_prefix_char(&trimmed, '-') {
            proof {
                lemma_trim_le(header0@);
            }
            if header0.len() > 0 && header0[0] == '>' {
                let statement = match parse_statement(lines, line_index, true) {
                    Err(e) => return Err(e),
                    Ok(s) => s,
                };
                if let Err(e) = absorb(&mut current_nodes, statement, "conditionals") {
                    return Err(e);
                }
                continue;
            }
            keep_cond_branch(&mut branches, current_condition, current_nodes);
            current_condition = None;
            current_nodes = Vec::new();
            assert(nodes_model(current_nodes@) =~= Seq::<SpecNode>::empty());
            let header = trim_start(&header0);
            proof {
                lemma_trim_le(header0@);
            }
            if let Some(rest) = strip_prefix(&header, &else_word) {
                let rt = trim(&rest);
                if rt.len() > 0 {
                    let mut ns = match tokenize_inline(&rt) {
                        Err(e) => return Err(e),
                        Ok(ns) => ns,
                    };
                    push_newline_if(&mut ns, line.had_newline);
                    current_nodes = ns;
                }
                *line_index = li + 1;
                continue;
            }
            if starts_with_char(&header, '{') {
                let nested_line = Line { content: copy(&header), indent: line.indent, had_newline: line.had_newline };
                let ghost nm = nested_line.model();
                let tmp_lines = line_with_tail(nested_line, lines, li + 1);
                proof {
                    lemma_with_tail_lighter(nm, ls, li as int);
                }
                let mut tmp_index: usize = 0;
                let nested = match parse_conditional(&tmp_lines, &mut tmp_index, true) {
                    Err(e) => return Err(e),
                    Ok(ns) => ns,
                };
                *line_index = li + tmp_index;
                current_nodes = nested;
                continue;
            }
            let (condition, rest) = match split_once_char(&header, ':') {
                Some(p) => {
                    proof {
                        crate::text::lemma_find_from_bounds(header@, seq![':'], 0);
                    }
                    p
                },
                None => {
                    let ht = trim(&header);
                    if ht.len() > 0 {
                        let mut ns = match tokenize_inline(&ht) {
                            Err(e) => return Err(e),
                            Ok(ns) => ns,
                        };
                        push_newline_if(&mut ns, line.had_newline);
                        current_nodes = ns;
                    }
                    *line_index = li + 1;
                    continue;
                },
            };
            let c = match parse_condition_chars(&trim(&condition)) {
                Err(e) => return Err(e),
                Ok(c) => c,
            };
            current_condition = Some(c);
            let rest_trimmed = trim(&rest);
            proof {
                lemma_trim_le(rest@);
            }
            if rest_trimmed.len() > 0 {
                if rest_trimmed[0] == '*' || rest_trimmed[0] == '+' {
                    let indent = if line.indent < usize::MAX { line.indent + 1 } else { line.indent };
                    let choice_line = Line { content: rest_trimmed, indent, had_newline: false };
                    let ghost cm = choice_line.model();
                    let remaining = line_with_tail(choice_line, lines, li + 1);
                    proof {
                        lemma_with_tail_lighter(cm, ls, li as int);
                    }
                    let mut tmp_idx: usize = 0;
                    let stmt = match parse_statement(&remaining, &mut tmp_idx, true) {
                        Err(e) => return Err(e),
                        Ok(s) => s,
                    };
                    *line_index = li + tmp_idx;
                    current_nodes = statement_nodes(stmt);
                } else {
                    let mut ns = match tokenize_inline(&rest_trimmed) {
                        Err(e) => return Err(e),
                        Ok(ns) => ns,
                    };
                    push_newline_if(&mut ns, line.had_newline);
                    current_nodes = ns;
                    *line_index = li + 1;
                }
            } else {
                *line_index = li + 1;
            }
            continue;
        }
        let statement = match parse_statement(lines, line_index, true) {
            Err(e) => return Err(e),
            Ok(s) => s,
        };
        if let Err(e) = absorb(&mut current_nodes, statement, "conditionals") {
            return Err(e);
        }
    }
    Err(CompilerError::invalid_source("unterminated conditional block".to_owned()))
}

/// A switch `{ value:` with `- case: body` and `- else: body` branches,
/// from the first branch line on.
#[verifier::rlimit(100)]
fn parse_switch_conditional(lines: &[Line], line_index: &mut usize, value: Expression) -> (r: Result<Vec<Node>, CompilerError>)
    requires
        *old(line_index) < lines.len(),
    ensures
        r is Ok ==> *old(line_index) < *final(line_index) <= lines.len(),
        agrees_at(r, *final(line_index) as int, spec_switch_loop(lines_model(lines@), *old(line_index) as int, value.model(), Seq::empty(), None, Seq::empty())),
    decreases source_weight(lines_model(lines@), *old(line_index) as int), 9nat,
{
    let ghost ls = lines_model(lines@);
    let start = *line_index;
    let ghost vm = value.model();
    let ghost goal = spec_switch_loop(ls, start as int, vm, Seq::empty(), None, Seq::empty());
    let mut branches: Vec<(Option<Expression>, Vec<Node>)> = Vec::new();
    let mut current_case: Option<Expression> = None;
    let mut current_nodes: Vec<Node> = Vec::new();
    let mut closing_had_newline = false;
    proof {
        assert(switch_branches_model(branches@) =~= Seq::empty());
        assert(nodes_model(current_nodes@) =~= Seq::<SpecNode>::empty());
    }
    let close = vec!['}'];
    assert(close@ =~= seq!['}']);
    let else_word = chars_of_str("else:");
    loop
        invariant_except_break
            !closing_had_newline,
            spec_switch_loop(ls, *line_index as int, vm, switch_branches_model(branches@), opt_expr_model(current_case), nodes_model(current_nodes@)) == goal,
        invariant
            start <= *line_index <= lines.len(),
            start < lines.len(),
            start == *old(line_index),
            ls == lines_model(lines@),
            vm == value.model(),
            goal == spec_switch_loop(ls, start as int, vm, Seq::empty(), None, Seq::empty()),
            close@ == seq!['}'],
            else_word@ == "else:"@,
        ensures
            start < *line_index <= lines.len(),
            closing_had_newline ==> goal == Ok::<(Seq<SpecNode>, int), ErrorKind>((seq![SpecNode::SwitchConditional { value: vm, branches: switch_branches_model(branches@) }] + seq![SpecNode::Newline], *line_index as int)),
            !closing_had_newline ==> goal == Ok::<(Seq<SpecNode>, int), ErrorKind>((seq![SpecNode::SwitchConditional { value: vm, branches: switch_branches_model(branches@) }], *line_index as int)),
        decreases lines.len() - *line_index,
    {
        if *line_index >= lines.len() {
            break;
        }
        let li = *line_index;
        let line = &lines[li];
        let trimmed = trim(&line.content);
        proof {
            assert(ls[li as int] == line.model());
            lemma_trim_le(line.content@);
            lemma_weight_le(ls, start as int, li as int);
            lemma_weight_at(ls, start as int, li as int);
            lemma_weight_less(ls, li as int, li + 1);
        }
        if chars_eq(&trimmed, &close) {
            closing_had_newline = line.had_newline && li + 1 < lines.len();
            *line_index = li + 1;
            keep_switch_branch(&mut branches, current_case, current_nodes);
            current_case = None;
            current_nodes = Vec::new();
            proof {
                let s = seq![SpecNode::SwitchConditional { value: vm, branches: switch_branches_model(branches@) }];
                assert(s + Seq::<SpecNode>::empty() =~= s);
            }
            break;
        }
        if let Some(header0) = strip_prefix_char(&trimmed, '-') {
            proof {
                lemma_trim_le(header0@);
            }
            if header0.len() > 0 && header0[0] == '>' {
                let statement = match parse_statement(lines, line_index, true) {
                    Err(e) => return Err(e),
                    Ok(s) => s,
                };
                absorb_nodes(&mut current_nodes, statement);
                continue;
            }
            keep_switch_branch(&mut branches, current_case, current_nodes);
            current_case = None;
            current_nodes = Vec::new();
            assert(nodes_model(current_nodes@) =~= Seq::<SpecNode>::empty());
            let header = trim_start(&header0);
            proof {
                lemma_trim_le(header0@);
            }
            if let Some(rest) = strip_prefix(&header, &else_word) {
                let rt = trim(&rest);
                proof {
                    lemma_trim_le(rest@);
                }
                assert(rt@.len() < ls[li as int].content.len());
            assert(spec_switch_single(rt@, ls[li as int]) == spec_single(rt@, line.had_newline));
                if rt.len() > 0 {
                    current_nodes = match parse_single_line(rt, line.had_newline, Ghost(source_weight(ls, li as int))) {
                        Err(e) => return Err(e),
                        Ok(ns) => ns,
                    };
                }
                *line_index = li + 1;
                continue;
            }
            let (case_text, rest) = match split_once_char(&header, ':') {
                Some(p) => {
                    proof {
                        crate::text::lemma_find_from_bounds(header@, seq![':'], 0);
                    }
                    p
                },
                None => {
                    let ht = trim(&header);
                    proof {
                        lemma_trim_le(header@);
                    }
                    assert(ht@.len() < ls[li as int].content.len());
            assert(spec_switch_single(ht@, ls[li as int]) == spec_single(ht@, line.had_newline));
                    if ht.len() > 0 {
                        current_nodes = match parse_single_line(ht, line.had_newline, Ghost(source_weight(ls, li as int))) {
                            Err(e) => return Err(e),
                            Ok(ns) => ns,
                        };
                    }
                    *line_index = li + 1;
                    continue;
                },
            };
            let case_value = match parse_expression_chars(&trim(&case_text)) {
                Err(e) => return Err(e),
                Ok(e) => e,
            };
            current_case = Some(case_value);
            let rt = trim(&rest);
            proof {
                lemma_trim_le(rest@);
            }
            assert(rt@.len() < ls[li as int].content.len());
            assert(spec_switch_single(rt@, ls[li as int]) == spec_single(rt@, line.had_newline));
            if rt.len() > 0 {
                current_nodes = match parse_single_line(rt, line.had_newline, Ghost(source_weight(ls, li as int))) {
                    Err(e) => return Err(e),
                    Ok(ns) => ns,
                };
            }
            *line_index = li + 1;
            continue;
        }
        let statement = match parse_statement(lines, line_index, true) {
            Err(e) => return Err(e),
            Ok(s) => s,
        };
        if let Err(e) = absorb(&mut current_nodes, statement, "switch conditionals") {
            return Err(e);
        }
    }
    let ghost sn = SpecNode::SwitchConditional { value: vm, branches: switch_branches_model(branches@) };
    let mut result = single(Node::SwitchConditional { value, branches });
    push_newline_if(&mut result, closing_had_newline);
    proof {
        if !closing_had_newline {
            assert(seq![sn] + Seq::<SpecNode>::empty() =~= seq![sn]);
        }
    }
    Ok(result)
}

/// The lines of a sequence branch after its first: up to the next branch,
/// the closing `}` or a header.
fn parse_branch_body(lines: &[Line], line_index: &mut usize, branch_nodes: &mut Vec<Node>, bound: Ghost<nat>) -> (r: Result<(), CompilerError>)
    requires
        *old(line_index) <= lines.len(),
        source_weight(lines_model(lines@), *old(line_index) as int) < bound@,
    ensures
        r is Ok ==> *old(line_index) <= *final(line_index) <= lines.len(),
        match (r, spec_branch_body(lines_model(lines@), *old(line_index) as int, nodes_model(old(branch_nodes)@))) {
            (Ok(_), Ok((acc, k))) => nodes_model(final(branch_nodes)@) == acc && *final(line_index) == k,
            (Err(e), Err(kd)) => e.kind == kd,
            _ => false,
        },
    decreases bound@, 0nat,
{
    let ghost ls = lines_model(lines@);
    let start = *line_index;
    let ghost goal = spec_branch_body(ls, start as int, nodes_model(branch_nodes@));
    let close = vec!['}'];
    assert(close@ =~= seq!['}']);
    loop
        invariant
            start <= *line_index <= lines.len(),
            start == *old(line_index),
            ls == lines_model(lines@),
            source_weight(ls, start as int) < bound@,
            close@ == seq!['}'],
            goal == spec_branch_body(ls, start as int, nodes_model(old(branch_nodes)@)),
            spec_branch_body(ls, *line_index as int, nodes_model(branch_nodes@)) == goal,
        ensures
            start <= *line_index <= lines.len(),
            goal == Ok::<(Seq<SpecNode>, int), ErrorKind>((nodes_model(branch_nodes@), *line_index as int)),
        decreases lines.len() - *line_index,
    {
        if *line_index >= lines.len() {
            break;
        }
        let li = *line_index;
        let next_line = &lines[li];
        proof {
            assert(ls[li as int] == next_line.model());
        }
        let next_trimmed = trim(&next_line.content);
        if chars_eq(&next_trimmed, &close) || is_sequence_branch_header_chars(&next_trimmed)
            || parse_header_chars(&next_line.content).is_some() {
            break;
        }
        proof {
            lemma_weight_le(ls, start as int, li as int);
        }
        let statement = match parse_statement(lines, line_index, true) {
            Err(e) => return Err(e),
            Ok(s) => s,
        };
        if let Err(e) = absorb(branch_nodes, statement, "sequences") {
            return Err(e);
        }
    }
    Ok(())
}

/// Surrounds a branch's nodes with line breaks.
fn with_newlines(nodes: Vec<Node>) -> (r: Vec<Node>)
    ensures
        nodes_model(r@) == framed(nodes_model(nodes@), true),
{
    let mut r = single(Node::Newline);
    append_nodes(&mut r, nodes);
    push_newline_if(&mut r, true);
    r
}

/// A sequence block `{mode:` with `- branch` lines, or a `{` block whose
/// branches may name the mode.
pub fn parse_sequence(lines: &[Line], line_index: &mut usize, strip_leading_whitespace: bool) -> (r: Result<Vec<Node>, CompilerError>)
    requires
        *old(line_index) < lines.len(),
    ensures
        r is Ok ==> *old(line_index) < *final(line_index) <= lines.len(),
        agrees_at(r, *final(line_index) as int, spec_sequence(lines_model(lines@), *old(line_index) as int, strip_leading_whitespace)),
    decreases source_weight(lines_model(lines@), *old(line_index) as int), 5nat,
{
    let ghost ls = lines_model(lines@);
    let idx = *line_index;
    let ghost goal = spec_sequence(ls, idx as int, strip_leading_whitespace);
    let line = &lines[idx];
    proof {
        assert(ls[idx as int] == line.model());
        lemma_weight_less(ls, idx as int, idx + 1);
    }
    let content = if strip_leading_whitespace { trim_start(&line.content) } else { trim(&line.content) };
    let open_brace = vec!['{'];
    assert(open_brace@ =~= seq!['{']);
    if chars_eq(&content, &open_brace) {
        return parse_multi_branch_sequence(lines, line_index);
    }
    let header = match strip_prefix_char(&content, '{') {
        None => return Err(CompilerError::invalid_source("expected sequence block".to_owned())),
        Some(h) => h,
    };
    let (mode_text, _) = match split_once_char(&header, ':') {
        None => return Err(CompilerError::invalid_source("sequence block is missing ':'".to_owned())),
        Some(p) => p,
    };
    let mode = match parse_sequence_mode_chars(&trim(&mode_text)) {
        Err(e) => return Err(e),
        Ok(m) => m,
    };
    *line_index = idx + 1;
    let mut branches: Vec<Vec<Node>> = Vec::new();
    assert(branches_model(branches@) =~= Seq::<Seq<SpecNode>>::empty());
    let close = vec!['}'];
    assert(close@ =~= seq!['}']);
    let comment = vec!['/', '/'];
    assert(comment@ =~= seq!['/', '/']);
    while *line_index < lines.len()
        invariant
            idx < *line_index <= lines.len(),
            idx < lines.len(),
            idx == *old(line_index),
            ls == lines_model(lines@),
            goal == spec_sequence(ls, idx as int, strip_leading_whitespace),
            close@ == seq!['}'],
            comment@ == seq!['/', '/'],
            spec_seq_loop(ls, *line_index as int, mode, branches_model(branches@)) == goal,
        decreases lines.len() - *line_index,
    {
        let li = *line_index;
        let body_line = &lines[li];
        proof {
            assert(ls[li as int] == body_line.model());
        }
        let trimmed = trim(&body_line.content);
        if chars_eq(&trimmed, &close) {
            *line_index = li + 1;
            return Ok(single(Node::Sequence(Sequence { mode, branches })));
        }
        if trimmed.len() == 0 || starts_with(&trimmed, &comment) {
            *line_index = li + 1;
            continue;
        }
        let branch_text = match strip_prefix_char(&trimmed, '-') {
            None => return Err(CompilerError::invalid_source("sequence branch must start with '-'".to_owned())),
            Some(b) => b,
        };
        *line_index = li + 1;
        let bt = trim(&branch_text);
        let mut branch_nodes = if bt.len() == 0 {
            let v: Vec<Node> = Vec::new();
            assert(nodes_model(v@) =~= Seq::<SpecNode>::empty());
            v
        } else {
            match tokenize_inline(&trim_start(&branch_text)) {
                Err(e) => return Err(e),
                Ok(ns) => ns,
            }
        };
        if body_line.had_newline {
            branch_nodes = with_newlines(branch_nodes);
        }
        proof {
            lemma_weight_less(ls, idx as int, li + 1);
        }
        if let Err(e) = parse_branch_body(lines, line_index, &mut branch_nodes, Ghost(source_weight(ls, idx as int))) {
            return Err(e);
        }
        let ghost b0 = branches@;
        let ghost bn = branch_nodes@;
        branches.push(branch_nodes);
        proof {
            lemma_branches_push(b0, branches@.last());
            assert(b0.push(branches@.last()) =~= branches@);
        }
    }
    Err(CompilerError::invalid_source("unterminated sequence block".to_owned()))
}

/// A `{` sequence block whose `- mode: text` branches may name the mode.
pub fn parse_multi_branch_sequence(lines: &[Line], line_index: &mut usize) -> (r: Result<Vec<Node>, CompilerError>)
    requires
        *old(line_index) < lines.len(),
    ensures
        r is Ok ==> *old(line_index) < *final(line_index) <= lines.len(),
        agrees_at(r, *final(line_index) as int, spec_multi_sequence(lines_model(lines@), *old(line_index) as int)),
    decreases source_weight(lines_model(lines@), *old(line_index) as int), 4nat,
{
    let ghost ls = lines_model(lines@);
    let idx = *line_index;
    let ghost goal = spec_multi_sequence(ls, idx as int);
    proof {
        lemma_weight_less(ls, idx as int, idx + 1);
    }
    *line_index = idx + 1;
    let mut mode: Option<SequenceMode> = None;
    let mut branches: Vec<Vec<Node>> = Vec::new();
    assert(branches_model(branches@) =~= Seq::<Seq<SpecNode>>::empty());
    let close = vec!['}'];
    assert(close@ =~= seq!['}']);
    let comment = vec!['/', '/'];
    assert(comment@ =~= seq!['/', '/']);
    while *line_index < lines.len()
        invariant
            idx < *line_index <= lines.len(),
            idx < lines.len(),
            idx == *old(line_index),
            ls == lines_model(lines@),
            goal == spec_multi_sequence(ls, idx as int),
            close@ == seq!['}'],
            comment@ == seq!['/', '/'],
            spec_mseq_loop(ls, *line_index as int, mode, branches_model(branches@)) == goal,
        decreases lines.len() - *line_index,
    {
        let li = *line_index;
        let line = &lines[li];
        proof {
            assert(ls[li as int] == line.model());
        }
        let trimmed = trim(&line.content);
        if chars_eq(&trimmed, &close) {
            *line_index = li + 1;
            let m = match mode {
                Some(m) => m,
                None => SequenceMode::Stopping,
            };
            return Ok(single(Node::Sequence(Sequence { mode: m, branches })));
        }
        if trimmed.len() == 0 || starts_with(&trimmed, &comment) {
            *line_index = li + 1;
            continue;
        }
        let header = match strip_prefix_char(&trimmed, '-') {
            None => return Err(CompilerError::invalid_source("sequence branch must start with '-'".to_owned())),
            Some(h) => h,
        };
        let header = trim_start(&header);
        let (branch_mode, inline_text) = match split_once_char(&header, ':') {
            Some((candidate, rest)) => match parse_sequence_mode_chars(&trim(&candidate)) {
                Ok(m) => (Some(m), trim_start(&rest)),
                Err(_) => (None, copy(&header)),
            },
            None => (None, copy(&header)),
        };
        if let Some(m) = branch_mode {
            mode = Some(m);
        }
        *line_index = li + 1;
        let mut branch_nodes = if inline_text.len() == 0 {
            let v: Vec<Node> = Vec::new();
            assert(nodes_model(v@) =~= Seq::<SpecNode>::empty());
            v
        } else {
            match tokenize_inline(&inline_text) {
                Err(e) => return Err(e),
                Ok(ns) => ns,
            }
        };
        if line.had_newline {
            branch_nodes = with_newlines(branch_nodes);
        }
        proof {
            lemma_weight_less(ls, idx as int, li + 1);
        }
        if let Err(e) = parse_branch_body(lines, line_index, &mut branch_nodes, Ghost(source_weight(ls, idx as int))) {
            return Err(e);
        }
        let ghost b0 = branches@;
        branches.push(branch_nodes);
        proof {
            lemma_branches_push(b0, branches@.last());
            assert(b0.push(branches@.last()) =~= branches@);
        }
    }
    Err(CompilerError::invalid_source("unterminated sequence block".to_owned()))
}

/// The lines after a choice's header while the choice has no text of its
/// own: further `{condition}` lines once it has a condition, and a line of
/// text that becomes its text.
fn choice_lookahead(lines: &[Line], line_index: &mut usize, choice_indent: usize, header_has_conditions: bool, choice_text: &mut ParsedChoiceText, conditions: &mut Vec<Condition>, is_invisible_default: &mut bool) -> (r: Result<(), CompilerError>)
    requires
        *old(line_index) <= lines.len(),
    ensures
        r is Ok ==> *old(line_index) <= *final(line_index) <= lines.len(),
        match (r, spec_choice_lookahead(lines_model(lines@), *old(line_index) as int, choice_indent as nat, header_has_conditions, false, old(choice_text).model(), conditions_model(old(conditions)@), *old(is_invisible_default))) {
            (Ok(_), Ok((ct, cs, inv, j))) => final(choice_text).model() == ct && conditions_model(final(conditions)@) == cs && *final(is_invisible_default) == inv && *final(line_index) == j,
            (Err(e), Err(k)) => e.kind == k,
            _ => false,
        },
{
    let ghost ls = lines_model(lines@);
    let start = *line_index;
    let ghost goal = spec_choice_lookahead(ls, start as int, choice_indent as nat, header_has_conditions, false, choice_text.model(), conditions_model(conditions@), *is_invisible_default);
    let mut absorbed_body_conditions = false;
    loop
        invariant_except_break
            spec_choice_lookahead(ls, *line_index as int, choice_indent as nat, header_has_conditions, absorbed_body_conditions, choice_text.model(), conditions_model(conditions@), *is_invisible_default) == goal,
        invariant
            start <= *line_index <= lines.len(),
            start == *old(line_index),
            ls == lines_model(lines@),
            goal == spec_choice_lookahead(ls, start as int, choice_indent as nat, header_has_conditions, false, old(choice_text).model(), conditions_model(old(conditions)@), *old(is_invisible_default)),
        ensures
            start <= *line_index <= lines.len(),
            goal == Ok::<(crate::choice::SpecChoiceText, Seq<crate::ast::SpecCondition>, bool, int), ErrorKind>((choice_text.model(), conditions_model(conditions@), *is_invisible_default, *line_index as int)),
        decreases lines.len() - *line_index,
    {
        if *line_index >= lines.len() {
            break;
        }
        let li = *line_index;
        let peek = &lines[li];
        proof {
            assert(ls[li as int] == peek.model());
        }
        let peek_trimmed = trim(&peek.content);
        if peek.indent <= choice_indent {
            break;
        }
        if starts_with_char(&peek_trimmed, '{') && (header_has_conditions || absorbed_body_conditions) {
            if let Some(close) = find_char(&peek_trimmed, '}') {
                proof {
                    crate::text::lemma_find_from_bounds(peek_trimmed@, seq!['}'], 0);
                }
                let n = peek_trimmed.len();
                assert(close + 1 <= n);
                let cond_str = if close >= 1 { slice_of(&peek_trimmed, 1, close) } else { Vec::new() };
                let after_close = trim(&skip(&peek_trimmed, close + 1));
                let c = match parse_condition_chars(&trim(&cond_str)) {
                    Err(e) => return Err(e),
                    Ok(c) => c,
                };
                let ghost cs0 = conditions@;
                conditions.push(c);
                proof {
                    crate::ast::lemma_conditions_model_push(cs0, c);
                }
                absorbed_body_conditions = true;
                *line_index = li + 1;
                if after_close.len() > 0 {
                    choice_text.display_text = string_of(&after_close);
                    choice_text.start_text = string_of(&after_close);
                    choice_text.selected_text = Some(string_of(&after_close));
                    choice_text.has_start_content = true;
                    *is_invisible_default = false;
                    break;
                }
            } else {
                break;
            }
        } else if absorbed_body_conditions || header_has_conditions {
            if starts_with_char(&peek_trimmed, '-') || starts_with_char(&peek_trimmed, '*') || starts_with_char(&peek_trimmed, '+') {
                break;
            }
            choice_text.display_text = string_of(&peek_trimmed);
            choice_text.start_text = string_of(&peek_trimmed);
            choice_text.selected_text = Some(string_of(&peek_trimmed));
            choice_text.has_start_content = true;
            *is_invisible_default = false;
            *line_index = li + 1;
            break;
        } else {
            break;
        }
    }
    Ok(())
}

/// The body of a choice from `lines[*line_index]` on: deeper lines, a
/// gather of the choice's own level and, after such a gather, what follows.
fn choice_body(lines: &[Line], line_index: &mut usize, choice_indent: usize, nesting_level: usize, body: &mut Vec<Node>, bound: Ghost<nat>) -> (r: Result<(), CompilerError>)
    requires
        *old(line_index) <= lines.len(),
        source_weight(lines_model(lines@), *old(line_index) as int) < bound@,
    ensures
        r is Ok ==> *old(line_index) <= *final(line_index) <= lines.len(),
        match (r, spec_choice_body(lines_model(lines@), *old(line_index) as int, choice_indent as nat, nesting_level as nat, false, nodes_model(old(body)@))) {
            (Ok(_), Ok((b, k))) => nodes_model(final(body)@) == b && *final(line_index) == k,
            (Err(e), Err(kd)) => e.kind == kd,
            _ => false,
        },
    decreases bound@, 0nat,
{
    let ghost ls = lines_model(lines@);
    let start = *line_index;
    let ghost goal = spec_choice_body(ls, start as int, choice_indent as nat, nesting_level as nat, false, nodes_model(body@));
    let mut absorbed_gather = false;
    loop
        invariant
            start <= *line_index <= lines.len(),
            start == *old(line_index),
            ls == lines_model(lines@),
            source_weight(ls, start as int) < bound@,
            goal == spec_choice_body(ls, start as int, choice_indent as nat, nesting_level as nat, false, nodes_model(old(body)@)),
            spec_choice_body(ls, *line_index as int, choice_indent as nat, nesting_level as nat, absorbed_gather, nodes_model(body@)) == goal,
        ensures
            start <= *line_index <= lines.len(),
            goal == Ok::<(Seq<SpecNode>, int), ErrorKind>((nodes_model(body@), *line_index as int)),
        decreases lines.len() - *line_index,
    {
        if *line_index >= lines.len() {
            break;
        }
        let li = *line_index;
        let body_line = &lines[li];
        proof {
            assert(ls[li as int] == body_line.model());
            lemma_weight_le(ls, start as int, li as int);
        }
        let body_trimmed = trim(&body_line.content);
        if parse_header_chars(&body_line.content).is_some() {
            break;
        }
        let gather_level = gather_nesting_level(&body_trimmed);
        if gather_level == nesting_level && body_line.indent > choice_indent {
            let statement = match parse_statement(lines, line_index, true) {
                Err(e) => return Err(e),
                Ok(s) => s,
            };
            absorb_nodes(body, statement);
            absorbed_gather = true;
            continue;
        }
        if gather_level > 0 && body_line.indent <= choice_indent {
            break;
        }
        if gather_level == 0 && body_line.indent <= choice_indent && !absorbed_gather {
            break;
        }
        let statement = match parse_statement(lines, line_index, true) {
            Err(e) => return Err(e),
            Ok(s) => s,
        };
        if let Err(e) = absorb(body, statement, "choice bodies") {
            return Err(e);
        }
    }
    Ok(())
}

/// A choice `* text` or `+ text` and the lines of its body: deeper lines,
/// a gather of its own level, and after that gather what follows it.
#[verifier::rlimit(100)]
pub fn parse_choice(lines: &[Line], line_index: &mut usize) -> (r: Result<ParsedStatement, CompilerError>)
    requires
        *old(line_index) < lines.len(),
    ensures
        r is Ok ==> *old(line_index) < *final(line_index) <= lines.len(),
        agrees_at(r, *final(line_index) as int, spec_choice(lines_model(lines@), *old(line_index) as int)),
    decreases source_weight(lines_model(lines@), *old(line_index) as int), 5nat,
{
    let ghost ls = lines_model(lines@);
    let idx = *line_index;
    let ghost goal = spec_choice(ls, idx as int);
    let line = &lines[idx];
    proof {
        assert(ls[idx as int] == line.model());
    }
    let trimmed_start = trim_start(&line.content);
    if trimmed_start.len() == 0 {
        return Err(CompilerError::invalid_source("expected choice marker".to_owned()));
    }
    let marker = trimmed_start[0];
    let once_only = marker == '*';
    let mut remainder = trim_start(&skip(&trimmed_start, 1));
    proof {
        lemma_trim_le(line.content@);
        lemma_trim_le(trimmed_start@.skip(1));
    }
    let ghost rem0 = remainder@;
    let mut nesting_level: usize = 1;
    let clen = line.content.len();
    while remainder.len() > 0 && (remainder[0] == '*' || remainder[0] == '+')
        invariant
            nesting_level + remainder@.len() <= clen,
            nesting_level >= 1,
            spec_choice_markers(remainder@, nesting_level as nat) == spec_choice_markers(rem0, 1),
        decreases remainder@.len(),
    {
        let rest = trim_start(&skip(&remainder, 1));
        proof {
            lemma_trim_le(remainder@.skip(1));
        }
        remainder = rest;
        nesting_level = nesting_level + 1;
    }
    let (label, mut conditions, remainder) = match parse_choice_prefixes_chars(&remainder) {
        Err(e) => return Err(e),
        Ok(p) => p,
    };
    let mut choice_text = match parse_choice_text_chars(&remainder) {
        Err(e) => return Err(e),
        Ok(t) => t,
    };
    let mut is_invisible_default = chars_of_str(&choice_text.display_text).len() == 0 && choice_text.selected_text.is_none();
    *line_index = idx + 1;
    let choice_indent = line.indent;
    let header_has_conditions = conditions.len() > 0;
    let ghost lm = opt_string_model(label);
    let ghost ct0 = choice_text.model();
    let ghost conds0 = conditions_model(conditions@);
    let ghost inv0 = is_invisible_default;
    let ghost look = if ct0.start_text.len() == 0 && ct0.choice_only_text.len() == 0 {
        spec_choice_lookahead(ls, idx + 1, choice_indent as nat, conds0.len() > 0, false, ct0, conds0, inv0)
    } else {
        Ok((ct0, conds0, inv0, idx + 1))
    };
    let ghost level = nesting_level as nat;
    assert(goal == spec_choice_finish(ls, idx as int, choice_indent as nat, once_only, level, lm, look));
    if chars_of_str(&choice_text.start_text).len() == 0 && chars_of_str(&choice_text.choice_only_text).len() == 0 {
        match choice_lookahead(lines, line_index, choice_indent, header_has_conditions, &mut choice_text, &mut conditions, &mut is_invisible_default) {
            Err(e) => return Err(e),
            Ok(()) => {},
        }
    }
    let ghost ct2 = choice_text.model();
    let ghost conds2 = conditions_model(conditions@);
    let ghost inv2 = is_invisible_default;
    let ghost j0 = *line_index as int;
    assert(look == Ok::<(crate::choice::SpecChoiceText, Seq<crate::ast::SpecCondition>, bool, int), ErrorKind>((ct2, conds2, inv2, j0)));
    let ParsedChoiceText {
        display_text,
        selected_text,
        start_text,
        choice_only_text,
        has_start_content,
        has_choice_only_content,
        inline_target,
        start_tags,
        choice_only_tags,
        selected_tags,
    } = choice_text;
    let mut body: Vec<Node> = Vec::new();
    assert(nodes_model(body@) =~= Seq::<SpecNode>::empty());
    if let Some(divert) = inline_target {
        body.push(Node::Divert(divert));
        proof {
            lemma_nodes_model_push(Seq::empty(), Node::Divert(divert));
            assert(body@ =~= Seq::<Node>::empty().push(Node::Divert(divert)));
            assert(nodes_model(Seq::<Node>::empty()) =~= Seq::<SpecNode>::empty());
        }
    }
    assert(nodes_model(body@) == target_nodes(ct2.inline_target));
    let ghost body_goal = spec_choice_body(ls, j0, choice_indent as nat, level, false, target_nodes(ct2.inline_target));
    proof {
        lemma_weight_less(ls, idx as int, j0);
    }
    assert(goal == match body_goal {
        Err(k) => Err(k),
        Ok((b, k)) => Ok((SpecStatement::Nodes(seq![spec_choice_node(ct2, conds2, inv2, lm, once_only, level, b)]), k)),
    });
    match choice_body(lines, line_index, choice_indent, nesting_level, &mut body, Ghost(source_weight(ls, idx as int))) {
        Err(e) => return Err(e),
        Ok(()) => {},
    }
    let choice = crate::ast::Choice {
        display_text,
        selected_text,
        body,
        start_text,
        choice_only_text,
        conditions,
        label,
        once_only,
        is_invisible_default,
        has_start_content,
        has_choice_only_content,
        start_tags,
        choice_only_tags,
        selected_tags,
        nesting_level,
    };
    Ok(ParsedStatement::Nodes(single(Node::Choice(choice))))
}

} // verus!
