//! Single-line statements: content lines, `VAR`/`CONST` and `LIST`
//! declarations, and `~` assignments.
use vstd::prelude::*;
use crate::ast::{
    agrees, list_items_model, nodes_model, AssignMode, Expression, GlobalVariable, ListDeclaration,
    Node, SpecExpression, SpecGlobal, SpecListDeclaration, SpecNode,
};
use crate::content::{spec_tokenize_inline_content, tokenize_inline};
use crate::error::{CompilerError, ErrorKind};
use crate::expression::{
    call_like, lemma_decimal_mono, parse_expression_chars, spec_decimal, spec_parse_call_like,
    spec_parse_expression,
};
use crate::inline::{
    parse_divert_chars, spec_brace_scan, spec_find_matching_brace, spec_parse_divert, spec_split_inline_divert,
    split_inline_divert_chars,
};
use crate::lines::Line;
use crate::text::{
    contains, contains_char, find_char, skip, spec_contains, spec_find, spec_is_ascii_digit,
    spec_split_once, spec_strip_prefix, spec_strip_suffix, spec_trim, spec_trim_end, spec_trim_start,
    split_once, string_of, strip_prefix, strip_suffix, take, trim, trim_end, trim_start,
};

verus! {

// ---------------------------------------------------------------------------
// Content lines.
// ---------------------------------------------------------------------------

/// The nodes with trailing whitespace dropped from a final text node (and
/// the node itself when nothing is left of it).
pub open spec fn trim_last_text(ns: Seq<SpecNode>) -> Seq<SpecNode> {
    if ns.len() > 0 && ns.last() is Text {
        let t = spec_trim_end(ns.last()->Text_0);
        if t.len() == 0 {
            ns.drop_last()
        } else {
            ns.drop_last().push(SpecNode::Text(t))
        }
    } else {
        ns
    }
}

/// The nodes of a line of content: its inline content, a final divert, and
/// a line break when the line ended with one.
#[verifier::opaque]
pub open spec fn spec_parse_content_line(content: Seq<char>, indent: nat, had_newline: bool, strip: bool) -> Result<Seq<SpecNode>, ErrorKind> {
    let c = if strip || indent > 0 { spec_trim_start(content) } else { content };
    let nodes = match spec_split_inline_divert(c) {
        Some((t, d)) => match spec_tokenize_inline_content(t) {
            Err(k) => Err(k),
            Ok(ns) => match spec_parse_divert(d) {
                Err(k) => Err(k),
                Ok(dv) => Ok(ns.push(SpecNode::Divert(dv))),
            },
        },
        None => spec_tokenize_inline_content(c),
    };
    match nodes {
        Err(k) => Err(k),
        Ok(ns) => Ok(if had_newline { trim_last_text(ns).push(SpecNode::Newline) } else { ns }),
    }
}

/// Parses a line of content; see `spec_parse_content_line`.
pub fn parse_content_line(line: &Line, strip_leading_whitespace: bool) -> (r: Result<Vec<Node>, CompilerError>)
    ensures
        agrees(r, spec_parse_content_line(line.content@, line.indent as nat, line.had_newline, strip_leading_whitespace)),
{
    proof {
        reveal(spec_parse_content_line);
    }
    let content = if strip_leading_whitespace || line.indent > 0 {
        trim_start(&line.content)
    } else {
        crate::text::copy(&line.content)
    };
    let mut nodes = match split_inline_divert_chars(&content) {
        Some((text_part, divert_part)) => {
            let mut ns = match tokenize_inline(&text_part) {
                Err(e) => return Err(e),
                Ok(ns) => ns,
            };
            let d = match parse_divert_chars(&divert_part) {
                Err(e) => return Err(e),
                Ok(d) => d,
            };
            let ghost before = ns@;
            ns.push(Node::Divert(d));
            proof {
                crate::ast::lemma_nodes_model_push(before, Node::Divert(d));
            }
            ns
        },
        None => match tokenize_inline(&content) {
            Err(e) => return Err(e),
            Ok(ns) => ns,
        },
    };
    if line.had_newline {
        let ghost bv = nodes@;
        let last = nodes.pop();
        match last {
            Some(Node::Text(t)) => {
                proof {
                    assert(bv =~= nodes@.push(Node::Text(t)));
                    crate::ast::lemma_nodes_model_push(nodes@, Node::Text(t));
                }
                let trimmed = trim_end(&crate::text::chars_of(&t));
                assert(nodes_model(bv).last() == SpecNode::Text(t@));
                assert(nodes_model(bv).drop_last() =~= nodes_model(nodes@));
                if trimmed.len() > 0 {
                    let ghost mid = nodes@;
                    nodes.push(Node::Text(string_of(&trimmed)));
                    proof {
                        crate::ast::lemma_nodes_model_push(mid, nodes@.last());
                        assert(nodes@ =~= mid.push(nodes@.last()));
                    }
                }
                assert(nodes_model(nodes@) == trim_last_text(nodes_model(bv)));
            },
            Some(other) => {
                proof {
                    assert(bv =~= nodes@.push(other));
                    crate::ast::lemma_nodes_model_push(nodes@, other);
                }
                nodes.push(other);
                proof {
                    assert(nodes@ =~= bv);
                }
                assert(nodes_model(nodes@) == trim_last_text(nodes_model(bv)));
            },
            None => {
                proof {
                    assert(bv.len() == 0);
                    assert(nodes_model(bv) =~= Seq::<SpecNode>::empty());
                }
            },
        }
        let ghost mid = nodes@;
        nodes.push(Node::Newline);
        proof {
            crate::ast::lemma_nodes_model_push(mid, Node::Newline);
        }
    }
    Ok(nodes)
}

// ---------------------------------------------------------------------------
// Assignments and declarations.
// ---------------------------------------------------------------------------

/// The trimmed text on either side of the first `sep`.
pub open spec fn spec_split_assignment(input: Seq<char>, sep: Seq<char>) -> Result<(Seq<char>, Seq<char>), ErrorKind> {
    match spec_split_once(input, sep) {
        None => Err(ErrorKind::InvalidSource),
        Some((n, e)) => Ok((spec_trim(n), spec_trim(e))),
    }
}

/// Splits `name <sep> expression`; see `spec_split_assignment`.
pub fn split_assignment(input: &[char], separator: &[char]) -> (r: Result<(Vec<char>, Vec<char>), CompilerError>)
    ensures
        match (r, spec_split_assignment(input@, separator@)) {
            (Ok((n, e)), Ok((sn, se))) => n@ == sn && e@ == se,
            (Err(e), Err(k)) => e.kind == k,
            _ => false,
        },
{
    match split_once(input, separator) {
        None => Err(CompilerError::invalid_source("expected assignment".to_owned())),
        Some((n, e)) => Ok((trim(&n), trim(&e))),
    }
}

pub open spec fn equals_sign() -> Seq<char> {
    seq!['=']
}

/// `name = expression`: a global variable.
pub open spec fn spec_parse_global_assignment(input: Seq<char>) -> Result<SpecGlobal, ErrorKind> {
    match spec_split_assignment(input, equals_sign()) {
        Err(k) => Err(k),
        Ok((n, e)) => match spec_parse_expression(e) {
            Err(k) => Err(k),
            Ok(x) => Ok(SpecGlobal { name: n, initial_value: x }),
        },
    }
}

/// Parses `name = expression`; see `spec_parse_global_assignment`.
pub fn parse_global_assignment(input: &[char]) -> (r: Result<GlobalVariable, CompilerError>)
    ensures
        agrees(r, spec_parse_global_assignment(input@)),
{
    let eq = vec!['='];
    assert(eq@ =~= equals_sign());
    let (name, expression) = match split_assignment(input, &eq) {
        Err(e) => return Err(e),
        Ok(p) => p,
    };
    match parse_expression_chars(&expression) {
        Err(e) => Err(e),
        Ok(x) => Ok(GlobalVariable { name: string_of(&name), initial_value: x }),
    }
}

pub open spec fn temp_word() -> Seq<char> {
    seq!['t', 'e', 'm', 'p', ' ']
}

/// What a `~` line assigns or calls: `x++`, `x--`, `f(a)`, `x += e`,
/// `x -= e`, `x = e` or `temp x = e`.
pub open spec fn spec_parse_assignment(input0: Seq<char>) -> Result<SpecNode, ErrorKind> {
    let (input, is_temp) = match spec_strip_prefix(input0, temp_word()) {
        Some(r) => (spec_trim_start(r), true),
        None => (input0, false),
    };
    match spec_strip_suffix(input, seq!['+', '+']) {
        Some(n) => Ok(SpecNode::Assignment { variable_name: spec_trim(n), expression: SpecExpression::Int(1), mode: AssignMode::AddAssign }),
        None => match spec_strip_suffix(input, seq!['-', '-']) {
            Some(n) => Ok(SpecNode::Assignment { variable_name: spec_trim(n), expression: SpecExpression::Int(1), mode: AssignMode::SubtractAssign }),
            None => {
                let call = spec_parse_call_like(input);
                if !spec_contains(input, equals_sign()) && call matches Ok(Some(_)) {
                    match call {
                        Ok(Some((name, args))) => Ok(SpecNode::VoidCall { name, args }),
                        _ => Err(ErrorKind::InvalidSource),
                    }
                } else {
                    let (sep, mode) = if spec_contains(input, seq!['+', '=']) {
                        (seq!['+', '='], AssignMode::AddAssign)
                    } else if spec_contains(input, seq!['-', '=']) {
                        (seq!['-', '='], AssignMode::SubtractAssign)
                    } else {
                        (equals_sign(), if is_temp { AssignMode::TempSet } else { AssignMode::Assign })
                    };
                    match spec_split_assignment(input, sep) {
                        Err(k) => Err(k),
                        Ok((n, e)) => match spec_parse_expression(e) {
                            Err(k) => Err(k),
                            Ok(x) => Ok(SpecNode::Assignment { variable_name: n, expression: x, mode }),
                        },
                    }
                }
            },
        },
    }
}

/// Parses the statement after `~`; see `spec_parse_assignment`.
pub fn parse_assignment(input0: &[char]) -> (r: Result<Node, CompilerError>)
    ensures
        agrees(r, spec_parse_assignment(input0@)),
{
    let tw = vec!['t', 'e', 'm', 'p', ' '];
    assert(tw@ =~= temp_word());
    let (input, is_temp) = match strip_prefix(input0, &tw) {
        Some(r) => (trim_start(&r), true),
        None => (crate::text::copy(input0), false),
    };
    let pp = vec!['+', '+'];
    let mm = vec!['-', '-'];
    assert(pp@ =~= seq!['+', '+']);
    assert(mm@ =~= seq!['-', '-']);
    if let Some(n) = strip_suffix(&input, &pp) {
        return Ok(Node::Assignment { variable_name: string_of(&trim(&n)), expression: Expression::Int(1), mode: AssignMode::AddAssign });
    }
    if let Some(n) = strip_suffix(&input, &mm) {
        return Ok(Node::Assignment { variable_name: string_of(&trim(&n)), expression: Expression::Int(1), mode: AssignMode::SubtractAssign });
    }
    if !contains_char(&input, '=') {
        if let Ok(Some((name, args))) = call_like(&input) {
            return Ok(Node::VoidCall { name: string_of(&name), args });
        }
    }
    let pe = vec!['+', '='];
    let me = vec!['-', '='];
    let eq = vec!['='];
    assert(pe@ =~= seq!['+', '=']);
    assert(me@ =~= seq!['-', '=']);
    assert(eq@ =~= equals_sign());
    let (split, mode) = if contains(&input, &pe) {
        (split_assignment(&input, &pe), AssignMode::AddAssign)
    } else if contains(&input, &me) {
        (split_assignment(&input, &me), AssignMode::SubtractAssign)
    } else {
        (split_assignment(&input, &eq), if is_temp { AssignMode::TempSet } else { AssignMode::Assign })
    };
    let (name, expression) = match split {
        Err(e) => return Err(e),
        Ok(p) => p,
    };
    match parse_expression_chars(&expression) {
        Err(e) => Err(e),
        Ok(x) => Ok(Node::Assignment { variable_name: string_of(&name), expression: x, mode }),
    }
}

// ---------------------------------------------------------------------------
// LIST declarations.
// ---------------------------------------------------------------------------

/// The pieces of `s` between the `c` characters.
pub open spec fn spec_split_char(s: Seq<char>, c: char) -> Seq<Seq<char>>
    decreases s.len(),
{
    match spec_find(s, seq![c]) {
        Some(k) => if 0 <= k < s.len() {
            seq![s.take(k)] + spec_split_char(s.skip(k + 1), c)
        } else {
            seq![s]
        },
        None => seq![s],
    }
}

/// Splits `s` at every `c`; see `spec_split_char`.
pub fn split_char(s: &[char], c: char) -> (parts: Vec<Vec<char>>)
    ensures
        crate::expression::char_vecs_model(parts@) == spec_split_char(s@, c),
{
    let mut parts: Vec<Vec<char>> = Vec::new();
    let mut rest = crate::text::copy(s);
    assert(crate::expression::char_vecs_model(parts@) =~= Seq::<Seq<char>>::empty());
    loop
        invariant
            spec_split_char(s@, c) == crate::expression::char_vecs_model(parts@) + spec_split_char(rest@, c),
        decreases rest@.len(),
    {
        let ghost pb = parts@;
        match find_char(&rest, c) {
            Some(k) => {
                proof {
                    crate::text::lemma_find_from_bounds(rest@, seq![c], 0);
                }
                let head = take(&rest, k);
                parts.push(head);
                proof {
                    assert(crate::expression::char_vecs_model(parts@) =~= crate::expression::char_vecs_model(pb).push(head@));
                    assert(crate::expression::char_vecs_model(pb) + (seq![head@] + spec_split_char(rest@.skip(k + 1), c))
                        =~= crate::expression::char_vecs_model(parts@) + spec_split_char(rest@.skip(k + 1), c));
                }
                let n = rest.len();
                assert(k + 1 <= n);
                rest = skip(&rest, k + 1);
            },
            None => {
                let ghost last = rest@;
                parts.push(rest);
                proof {
                    assert(crate::expression::char_vecs_model(parts@) =~= crate::expression::char_vecs_model(pb).push(last));
                    assert(crate::expression::char_vecs_model(pb) + seq![last] =~= crate::expression::char_vecs_model(parts@));
                }
                return parts;
            },
        }
    }
}

/// The digits of a number: the text after an optional `+`.
pub open spec fn u32_digits(s: Seq<char>) -> Seq<char> {
    if s.len() > 0 && s[0] == '+' { s.drop_first() } else { s }
}

pub open spec fn all_digits(d: Seq<char>) -> bool {
    forall|i: int| 0 <= i < d.len() ==> #[trigger] spec_is_ascii_digit(d[i])
}

/// The value of `s` as an unsigned 32-bit number: decimal digits after an
/// optional `+`.
pub open spec fn spec_parse_u32(s: Seq<char>) -> Option<u32> {
    let d = u32_digits(s);
    if d.len() > 0 && all_digits(d) && spec_decimal(d) <= u32::MAX {
        Some(spec_decimal(d) as u32)
    } else {
        None
    }
}

/// Parses an unsigned 32-bit number; see `spec_parse_u32`.
pub fn parse_u32(s: &[char]) -> (r: Option<u32>)
    ensures
        r == spec_parse_u32(s@),
{
    let d = if s.len() > 0 && s[0] == '+' { skip(s, 1) } else { crate::text::copy(s) };
    assert(s@.len() > 0 && s@[0] == '+' ==> d@ =~= s@.drop_first());
    if d.len() == 0 {
        return None;
    }
    let mut i: usize = 0;
    while i < d.len()
        invariant
            d@ == u32_digits(s@),
            i <= d.len(),
            forall|t: int| 0 <= t < i ==> #[trigger] spec_is_ascii_digit(d@[t]),
        decreases d.len() - i,
    {
        let ch = d[i];
        if !(ch >= '0' && ch <= '9') {
            assert(!spec_is_ascii_digit(d@[i as int]));
            assert(!all_digits(d@));
            return None;
        }
        i = i + 1;
    }
    let mut acc: u64 = 0;
    let mut j: usize = 0;
    assert(d@.take(0) =~= Seq::<char>::empty());
    while j < d.len()
        invariant
            d@ == u32_digits(s@),
            j <= d.len(),
            forall|t: int| 0 <= t < d@.len() ==> #[trigger] spec_is_ascii_digit(d@[t]),
            acc as int == spec_decimal(d@.take(j as int)),
            acc <= u32::MAX,
        decreases d.len() - j,
    {
        let ch = d[j];
        assert(spec_is_ascii_digit(d@[j as int]));
        assert(ch as u32 >= 48 && ch as u32 <= 57);
        let digit = (ch as u32) - 48;
        assert(d@.take(j + 1).drop_last() =~= d@.take(j as int));
        assert(d@.take(j + 1).last() == d@[j as int]);
        acc = acc * 10 + (digit as u64);
        j = j + 1;
        if acc > 4294967295 {
            proof {
                lemma_decimal_mono(d@, j as int);
            }
            return None;
        }
    }
    assert(d@.take(j as int) =~= d@);
    Some(acc as u32)
}

/// The items of a `LIST`, numbered from `value` on: empty pieces are
/// skipped, `(item)` starts out selected, `item = n` sets the number.
pub open spec fn spec_list_items(parts: Seq<Seq<char>>, value: int) -> Result<Seq<(Seq<char>, u32, bool)>, ErrorKind>
    decreases parts.len(),
{
    if parts.len() == 0 {
        Ok(Seq::empty())
    } else {
        let item = spec_trim(parts[0]);
        if item.len() == 0 {
            spec_list_items(parts.drop_first(), value)
        } else {
            let (inner, selected) = match spec_strip_prefix(item, seq!['(']) {
                Some(a) => match spec_strip_suffix(a, seq![')']) {
                    Some(b) => (spec_trim(b), true),
                    None => (item, false),
                },
                None => (item, false),
            };
            match spec_split_once(inner, equals_sign()) {
                Some((n, v)) => match spec_parse_u32(spec_trim(v)) {
                    None => Err(ErrorKind::InvalidSource),
                    Some(x) => match spec_list_items(parts.drop_first(), x + 1) {
                        Err(k) => Err(k),
                        Ok(rest) => Ok(seq![(spec_trim(n), x, selected)] + rest),
                    },
                },
                None => if 0 <= value <= u32::MAX {
                    match spec_list_items(parts.drop_first(), value + 1) {
                        Err(k) => Err(k),
                        Ok(rest) => Ok(seq![(inner, value as u32, selected)] + rest),
                    }
                } else {
                    Err(ErrorKind::InvalidSource)
                },
            }
        }
    }
}

/// `name = item, (item), item = n, ...`: a list declaration.
pub open spec fn spec_parse_list_declaration(input: Seq<char>) -> Result<SpecListDeclaration, ErrorKind> {
    match spec_find(input, equals_sign()) {
        None => Err(ErrorKind::InvalidSource),
        Some(eq) => {
            let name = spec_trim(input.take(eq));
            let rhs = spec_trim(input.skip(eq + 1));
            match spec_list_items(spec_split_char(rhs, ','), 1) {
                Err(k) => Err(k),
                Ok(items) => Ok(SpecListDeclaration { name, items }),
            }
        },
    }
}

/// Parses a list declaration; see `spec_parse_list_declaration`.
pub fn parse_list_declaration(input: &[char]) -> (r: Result<ListDeclaration, CompilerError>)
    ensures
        agrees(r, spec_parse_list_declaration(input@)),
{
    let eq_pos = match find_char(input, '=') {
        None => return Err(CompilerError::invalid_source("LIST declaration missing '='".to_owned())),
        Some(p) => p,
    };
    assert(seq!['='] =~= equals_sign());
    proof {
        crate::text::lemma_find_from_bounds(input@, seq!['='], 0);
    }
    let n = input.len();
    assert(eq_pos + 1 <= n);
    let name = trim(&take(input, eq_pos));
    let rhs = trim(&skip(input, eq_pos + 1));
    let parts = split_char(&rhs, ',');
    let ghost pm = crate::expression::char_vecs_model(parts@);
    let mut items: Vec<(String, u32, bool)> = Vec::new();
    let mut value: u64 = 1;
    let mut k: usize = 0;
    assert(pm.skip(0) =~= pm);
    assert(list_items_model(items@) =~= Seq::<(Seq<char>, u32, bool)>::empty());
    assert(spec_parse_list_declaration(input@) == match spec_list_items(pm, 1) {
        Err(e) => Err(e),
        Ok(items) => Ok(SpecListDeclaration { name: name@, items }),
    });
    while k < parts.len()
        invariant
            spec_parse_list_declaration(input@) == match spec_list_items(pm, 1) {
                Err(e) => Err(e),
                Ok(items) => Ok(SpecListDeclaration { name: name@, items }),
            },
            k <= parts.len(),
            pm == crate::expression::char_vecs_model(parts@),
            value <= u32::MAX as u64 + 1,
            spec_list_items(pm, 1) == match spec_list_items(pm.skip(k as int), value as int) {
                Err(e) => Err(e),
                Ok(rest) => Ok(list_items_model(items@) + rest),
            },
        decreases parts.len() - k,
    {
        assert(pm.skip(k as int)[0] == parts@[k as int]@);
        assert(pm.skip(k as int).drop_first() =~= pm.skip(k + 1));
        let item = trim(&parts[k]);
        if item.len() == 0 {
            k = k + 1;
            continue;
        }
        let ob = vec!['('];
        let cb = vec![')'];
        assert(ob@ =~= seq!['(']);
        assert(cb@ =~= seq![')']);
        let (inner, selected) = match strip_prefix(&item, &ob) {
            Some(a) => match strip_suffix(&a, &cb) {
                Some(b) => (trim(&b), true),
                None => (crate::text::copy(&item), false),
            },
            None => (crate::text::copy(&item), false),
        };
        let eqv = vec!['='];
        assert(eqv@ =~= equals_sign());
        let ghost ib = items@;
        let ghost v0 = value;
        match split_once(&inner, &eqv) {
            Some((n, v)) => {
                let x = match parse_u32(&trim(&v)) {
                    None => {
                        assert(spec_list_items(pm.skip(k as int), v0 as int) == Err::<Seq<(Seq<char>, u32, bool)>, ErrorKind>(ErrorKind::InvalidSource));
                        return Err(CompilerError::invalid_source("invalid LIST item value".to_owned()));
                    },
                    Some(x) => x,
                };
                items.push((string_of(&trim(&n)), x, selected));
                value = x as u64 + 1;
            },
            None => {
                if value > 4294967295 {
                    assert(spec_list_items(pm.skip(k as int), v0 as int) == Err::<Seq<(Seq<char>, u32, bool)>, ErrorKind>(ErrorKind::InvalidSource));
                    return Err(CompilerError::invalid_source("invalid LIST item value".to_owned()));
                }
                items.push((string_of(&inner), value as u32, selected));
                value = value + 1;
            },
        }
        proof {
            assert(list_items_model(items@) =~= list_items_model(ib).push((items@.last().0@, items@.last().1, items@.last().2)));
            match spec_list_items(pm.skip(k + 1), value as int) {
                Ok(rest) => {
                    assert(list_items_model(ib) + (seq![(items@.last().0@, items@.last().1, items@.last().2)] + rest)
                        =~= list_items_model(items@) + rest);
                },
                Err(_) => {},
            }
        }
        k = k + 1;
    }
    assert(pm.skip(k as int) =~= Seq::<Seq<char>>::empty());
    assert(list_items_model(items@) + Seq::<(Seq<char>, u32, bool)>::empty() =~= list_items_model(items@));
    Ok(ListDeclaration { name: string_of(&name), items })
}

// ---------------------------------------------------------------------------
// Braces.
// ---------------------------------------------------------------------------

/// Whether the first `{` of `s[i..]` (with `depth` opened before) is left
/// open: no `}` brings the depth back to zero.
pub open spec fn spec_brace_open_scan(s: Seq<char>, i: int, depth: int) -> bool
    decreases s.len() - i,
{
    if i < 0 || i >= s.len() {
        true
    } else if s[i] == '{' {
        spec_brace_open_scan(s, i + 1, depth + 1)
    } else if s[i] == '}' {
        if depth - 1 == 0 {
            false
        } else {
            spec_brace_open_scan(s, i + 1, depth - 1)
        }
    } else {
        spec_brace_open_scan(s, i + 1, depth)
    }
}

/// Whether a line's first `{` is not closed on the same line, so that the
/// block spans several lines.
pub fn brace_spans_multiple_lines(content: &[char]) -> (r: bool)
    ensures
        r == spec_brace_open_scan(content@, 0, 0),
{
    let mut opens: usize = 0;
    let mut closes: usize = 0;
    let mut i: usize = 0;
    while i < content.len()
        invariant
            i <= content.len(),
            opens + closes <= i,
            spec_brace_open_scan(content@, 0, 0) == spec_brace_open_scan(content@, i as int, opens - closes),
        decreases content.len() - i,
    {
        let ch = content[i];
        if ch == '{' {
            opens = opens + 1;
        } else if ch == '}' {
            closes = closes + 1;
            if opens == closes {
                return false;
            }
        }
        i = i + 1;
    }
    true
}

proof fn lemma_open_scan_is_unmatched(s: Seq<char>, i: int, depth: int)
    ensures
        spec_brace_open_scan(s, i, depth) == (spec_brace_scan(s, i, depth) is None),
    decreases s.len() - i,
{
    if 0 <= i < s.len() {
        if s[i] == '{' {
            lemma_open_scan_is_unmatched(s, i + 1, depth + 1);
        } else if s[i] == '}' {
            if depth - 1 != 0 {
                lemma_open_scan_is_unmatched(s, i + 1, depth - 1);
            }
        } else {
            lemma_open_scan_is_unmatched(s, i + 1, depth);
        }
    }
}

/// A line's first brace spans several lines exactly when the search for
/// the brace matching the one at its start finds none.
pub proof fn law_spans_lines_iff_no_matching_brace(s: Seq<char>)
    ensures
        spec_brace_open_scan(s, 0, 0) == (spec_find_matching_brace(s, 0) is None),
{
    reveal(spec_find_matching_brace);
    lemma_open_scan_is_unmatched(s, 0, 0);
}

/// A list item written as a bare name: not blank, no `(`, no `=`.
pub open spec fn plain_item(p: Seq<char>) -> bool {
    let t = spec_trim(p);
    t.len() > 0 && t[0] != '(' && spec_find(t, equals_sign()) is None
}

/// Items written as bare names are numbered one after another from
/// `first`, none of them selected.
pub proof fn law_plain_items_numbered(parts: Seq<Seq<char>>, first: int)
    requires
        forall|i: int| 0 <= i < parts.len() ==> #[trigger] plain_item(parts[i]),
        1 <= first,
        first + parts.len() <= u32::MAX + 1,
    ensures
        spec_list_items(parts, first) == Ok::<Seq<(Seq<char>, u32, bool)>, ErrorKind>(
            Seq::new(parts.len(), |i: int| (spec_trim(parts[i]), (first + i) as u32, false)),
        ),
    decreases parts.len(),
{
    let want = Seq::new(parts.len(), |i: int| (spec_trim(parts[i]), (first + i) as u32, false));
    if parts.len() == 0 {
        assert(want =~= Seq::<(Seq<char>, u32, bool)>::empty());
    } else {
        let rest = parts.drop_first();
        assert forall|i: int| 0 <= i < rest.len() implies #[trigger] plain_item(rest[i]) by {
            assert(rest[i] == parts[i + 1]);
            assert(plain_item(parts[i + 1]));
        }
        law_plain_items_numbered(rest, first + 1);
        assert(plain_item(parts[0]));
        let t = spec_trim(parts[0]);
        assert(t.subrange(0, 1)[0] == t[0]);
        assert(!seq!['('].is_prefix_of(t));
        assert(spec_strip_prefix(t, seq!['(']) is None);
        assert(spec_split_once(t, equals_sign()) is None);
        let tail = Seq::new(rest.len(), |i: int| (spec_trim(rest[i]), (first + 1 + i) as u32, false));
        assert(want =~= seq![(t, first as u32, false)] + tail);
    }
}

} // verus!

verus! {

/// Leading whitespace is all that `spec_trim_start` removes: a character
/// that is not whitespace stays, at its place less what was removed.
proof fn lemma_trim_start_keeps(s: Seq<char>, j: int)
    requires
        0 <= j < s.len(),
        !crate::text::spec_is_whitespace(s[j]),
    ensures
        s.len() - spec_trim_start(s).len() <= j,
        spec_trim_start(s)[j - (s.len() - spec_trim_start(s).len())] == s[j],
    decreases s.len(),
{
    crate::inline::lemma_trim_start_len(s);
    if s.len() > 0 && crate::text::spec_is_whitespace(s[0]) {
        lemma_trim_start_keeps(s.drop_first(), j - 1);
    }
}

/// A `~` line that holds an `=` anywhere never parses to a standalone
/// function call: a call without assignment is only read from text with no
/// `=` in it.
pub proof fn law_void_call_only_without_equals(input: Seq<char>)
    ensures
        (spec_parse_assignment(input) matches Ok(n) && n is VoidCall) ==> !input.contains('='),
{
    if input.contains('=') && (spec_parse_assignment(input) matches Ok(n) && n is VoidCall) {
        let i = choose|i: int| 0 <= i < input.len() && input[i] == '=';
        let inner = match spec_strip_prefix(input, temp_word()) {
            Some(r) => spec_trim_start(r),
            None => input,
        };
        let j: int = match spec_strip_prefix(input, temp_word()) {
            Some(r) => {
                assert(temp_word().is_prefix_of(input));
                assert(i >= 5) by {
                    if i < 5 {
                        assert(input[i] == temp_word()[i]);
                    }
                }
                assert(r[i - 5] == input[i]);
                lemma_trim_start_keeps(r, i - 5);
                i - 5 - (r.len() - spec_trim_start(r).len())
            },
            None => i,
        };
        assert(0 <= j < inner.len() && inner[j] == '=');
        crate::text::lemma_find_char_props(inner, '=', 0);
        assert(spec_contains(inner, equals_sign()));
    }
}

/// A `~` line `name = e` (no `+=` or `-=` in it, not ending in `++` or
/// `--`, not a `temp` declaration, and no `=` in the name) assigns the
/// parse of `e` to the trimmed name, whatever `e` holds: a call in `e` is
/// the value assigned, not a statement of its own.
pub proof fn law_assignment_of_equals_form(name: Seq<char>, e: Seq<char>)
    requires
        !name.contains('='),
        !spec_contains(name + seq!['='] + e, seq!['+', '=']),
        !spec_contains(name + seq!['='] + e, seq!['-', '=']),
        !seq!['+', '+'].is_suffix_of(name + seq!['='] + e),
        !seq!['-', '-'].is_suffix_of(name + seq!['='] + e),
        !temp_word().is_prefix_of(name + seq!['='] + e),
    ensures
        spec_parse_assignment(name + seq!['='] + e) == (match spec_parse_expression(spec_trim(e)) {
            Err(k) => Err(k),
            Ok(x) => Ok(SpecNode::Assignment { variable_name: spec_trim(name), expression: x, mode: AssignMode::Assign }),
        }),
{
    let input = name + seq!['='] + e;
    let k = name.len() as int;
    assert(input[k] == '=');
    assert forall|t: int| 0 <= t < k implies input[t] != '=' by {
        assert(input[t] == name[t]);
    }
    crate::text::lemma_find_char_first(input, '=', 0, k);
    assert(input.take(k) =~= name);
    assert(input.skip(k + 1) =~= e);
    assert(spec_split_once(input, equals_sign()) == Some((name, e)));
}


/// The first occurrence of `p` from `i` on is at `k` when `p` is at `k` and
/// at no place in between.
proof fn lemma_find_first_at(s: Seq<char>, p: Seq<char>, i: int, k: int)
    requires
        0 <= i <= k,
        k + p.len() <= s.len(),
        s.subrange(k, k + p.len()) == p,
        forall|j: int| i <= j < k ==> #[trigger] s.subrange(j, j + p.len()) != p,
    ensures
        crate::text::spec_find_from(s, p, i) == Some(k),
    decreases k - i,
{
    if i < k {
        lemma_find_first_at(s, p, i + 1, k);
    }
}

/// `name++` and `name--` add or subtract one from the trimmed name.
pub proof fn law_increment_and_decrement(name: Seq<char>)
    requires
        !temp_word().is_prefix_of(name + seq!['+', '+']),
        !temp_word().is_prefix_of(name + seq!['-', '-']),
    ensures
        spec_parse_assignment(name + seq!['+', '+']) == Ok::<SpecNode, ErrorKind>(SpecNode::Assignment {
            variable_name: spec_trim(name), expression: SpecExpression::Int(1), mode: AssignMode::AddAssign }),
        spec_parse_assignment(name + seq!['-', '-']) == Ok::<SpecNode, ErrorKind>(SpecNode::Assignment {
            variable_name: spec_trim(name), expression: SpecExpression::Int(1), mode: AssignMode::SubtractAssign }),
{
    let a = name + seq!['+', '+'];
    let b = name + seq!['-', '-'];
    assert(a.subrange(a.len() - 2, a.len() as int) =~= seq!['+', '+']);
    assert(a.take(a.len() - 2) =~= name);
    assert(b.subrange(b.len() - 2, b.len() as int) =~= seq!['-', '-']);
    assert(b.take(b.len() - 2) =~= name);
    assert(!seq!['+', '+'].is_suffix_of(b)) by {
        assert(b[b.len() - 1] == '-');
        if seq!['+', '+'].is_suffix_of(b) {
            assert(b.subrange(b.len() - 2, b.len() as int)[1] == b[b.len() - 1]);
        }
    }
}

/// `name += e` and `name -= e` add `e` to or subtract it from the trimmed
/// name (no `=` in the name, for `-=` no `+=` anywhere in the line, the
/// line not ending in `++` or `--`, and not a `temp` declaration).
pub proof fn law_compound_assignment(name: Seq<char>, e: Seq<char>, plus: bool)
    requires
        !name.contains('='),
        !plus ==> !spec_contains(name + seq!['-', '='] + e, seq!['+', '=']),
        !seq!['+', '+'].is_suffix_of(name + seq![if plus { '+' } else { '-' }, '='] + e),
        !seq!['-', '-'].is_suffix_of(name + seq![if plus { '+' } else { '-' }, '='] + e),
        !temp_word().is_prefix_of(name + seq![if plus { '+' } else { '-' }, '='] + e),
    ensures
        spec_parse_assignment(name + seq![if plus { '+' } else { '-' }, '='] + e) == (match spec_parse_expression(spec_trim(e)) {
            Err(k) => Err(k),
            Ok(x) => Ok(SpecNode::Assignment {
                variable_name: spec_trim(name),
                expression: x,
                mode: if plus { AssignMode::AddAssign } else { AssignMode::SubtractAssign },
            }),
        }),
{
    let sign = if plus { '+' } else { '-' };
    let op = seq![sign, '='];
    let input = name + op + e;
    let k = name.len() as int;
    assert(input.subrange(k, k + 2) =~= op);
    assert forall|j: int| 0 <= j < k implies #[trigger] input.subrange(j, j + op.len()) != op by {
        if input.subrange(j, j + op.len()) == op {
            assert(input.subrange(j, j + 2)[1] == input[j + 1]);
            if j + 1 < k {
                assert(input[j + 1] == name[j + 1]);
            }
        }
    }
    lemma_find_first_at(input, op, 0, k);
    assert(input[k + 1] == '=');
    crate::text::lemma_find_char_props(input, '=', 0);
    assert(spec_contains(input, equals_sign()));
    assert(input.take(k) =~= name);
    assert(input.skip(k + 2) =~= e);
    if plus {
        assert(op =~= seq!['+', '=']);
    } else {
        assert(op =~= seq!['-', '=']);
    }
}

/// `temp name = e` declares a temporary `name` set to `e` (under the same
/// conditions as `name = e`, the name starting right after `temp `).
pub proof fn law_temp_assignment(name: Seq<char>, e: Seq<char>)
    requires
        name.len() > 0,
        !crate::text::spec_is_whitespace(name[0]),
        !name.contains('='),
        !spec_contains(name + seq!['='] + e, seq!['+', '=']),
        !spec_contains(name + seq!['='] + e, seq!['-', '=']),
        !seq!['+', '+'].is_suffix_of(name + seq!['='] + e),
        !seq!['-', '-'].is_suffix_of(name + seq!['='] + e),
    ensures
        spec_parse_assignment(temp_word() + name + seq!['='] + e) == (match spec_parse_expression(spec_trim(e)) {
            Err(k) => Err(k),
            Ok(x) => Ok(SpecNode::Assignment { variable_name: spec_trim(name), expression: x, mode: AssignMode::TempSet }),
        }),
{
    let inner = name + seq!['='] + e;
    let input = temp_word() + inner;
    assert(temp_word() + name + seq!['='] + e =~= input);
    assert(input.subrange(0, 5) =~= temp_word());
    assert(input.skip(5) =~= inner);
    assert(inner[0] == name[0]);
    assert(spec_trim_start(inner) == inner);
    let k = name.len() as int;
    assert(inner[k] == '=');
    assert forall|t: int| 0 <= t < k implies inner[t] != '=' by {
        assert(inner[t] == name[t]);
    }
    crate::text::lemma_find_char_first(inner, '=', 0, k);
    assert(inner.take(k) =~= name);
    assert(inner.skip(k + 1) =~= e);
    assert(spec_split_once(inner, equals_sign()) == Some((name, e)));
}

} // verus!
