//! The inline content of a line: text, glue, tags, thread diverts, diverts,
//! `{...}` conditionals, sequences and printed expressions, and the dynamic
//! strings that tags are made of.
use vstd::prelude::*;
use crate::ast::{
    agrees, Divert, SpecDivert, lemma_nodes_model_push, DynamicString, DynamicStringPart, Model, Node, Sequence,
    SequenceMode, SpecDynamicString, SpecDynamicStringPart, SpecNode, SpecSequence,
};
use crate::error::{CompilerError, ErrorKind};
use crate::expression::{char_vecs_model, parse_expression_chars, spec_parse_expression};
use crate::inline::{
    find_matching_brace_chars, lemma_trim_end_len, lemma_trim_len, lemma_trim_start_len, parse_divert_chars,
    parse_divert_line_chars, parse_inline_conditional_chars, parts_shorter, spec_find_matching_brace,
    spec_parse_divert, spec_parse_divert_line, spec_parse_inline_conditional,
    spec_split_top_level_pipe, spec_thread_divert_call_end, split_top_level_pipe_chars,
    thread_divert_call_end,
};
use crate::text::{
    find_char, slice_of, spec_find, spec_trim, spec_trim_end, spec_trim_start, string_of, trim,
    trim_end, trim_start,
};

verus! {

// ---------------------------------------------------------------------------
// Inline content: text, tags, sequences and dynamic strings.
// ---------------------------------------------------------------------------

/// The pending text as a node, if there is any.
pub open spec fn flush_text(text: Seq<char>) -> Seq<SpecNode> {
    if text.len() > 0 {
        seq![SpecNode::Text(text)]
    } else {
        Seq::empty()
    }
}

pub open spec fn prefix_nodes(pre: Seq<SpecNode>, r: Result<Seq<SpecNode>, ErrorKind>) -> Result<Seq<SpecNode>, ErrorKind> {
    match r {
        Ok(v) => Ok(pre + v),
        Err(k) => Err(k),
    }
}

pub open spec fn tag_nodes(ts: Seq<SpecDynamicString>) -> Seq<SpecNode> {
    ts.map_values(|t: SpecDynamicString| SpecNode::Tag(t))
}

/// Index of the first `#` after the start of `s` that is outside braces.
pub open spec fn spec_tag_split(s: Seq<char>, i: int, depth: nat) -> Option<int>
    decreases s.len() - i,
{
    if i < 0 || i >= s.len() {
        None
    } else if s[i] == '{' {
        spec_tag_split(s, i + 1, depth + 1)
    } else if s[i] == '}' {
        spec_tag_split(s, i + 1, if depth > 0 { (depth - 1) as nat } else { 0 })
    } else if s[i] == '#' && depth == 0 && i > 0 {
        Some(i)
    } else {
        spec_tag_split(s, i + 1, depth)
    }
}

/// The divert written after `<-` at `s[i]` (a knot or function name, with
/// arguments when a `(` follows), and the index just past it.
#[verifier::opaque]
pub open spec fn spec_thread_divert_at(s: Seq<char>, i: int) -> Result<(SpecDivert, int), ErrorKind> {
    let after = s.skip(i + 2);
    let ta = spec_trim_start(after);
    let leading = after.len() - ta.len();
    let call_len = if spec_find(ta, seq!['(']) is Some {
        spec_thread_divert_call_end(ta)
    } else {
        crate::expression::spec_ident_len_from(ta, 0)
    };
    match spec_parse_divert(ta.take(call_len)) {
        Err(k) => Err(k),
        Ok(d) => Ok((d, i + 2 + leading + call_len)),
    }
}

/// The nodes of inline content `s[i..]`, given the text gathered so far.
pub open spec fn spec_tokenize_from(s: Seq<char>, i: int, text: Seq<char>) -> Result<Seq<SpecNode>, ErrorKind>
    decreases s.len(), 0nat, s.len() - i,
{
    if i < 0 || i >= s.len() {
        Ok(flush_text(text))
    } else {
        let c = s[i];
        if c == '\\' {
            if i + 1 < s.len() {
                let nc = s[i + 1];
                spec_tokenize_from(s, i + 2, text.push(if nc == 'n' { '\n' } else { nc }))
            } else {
                spec_tokenize_from(s, i + 1, text)
            }
        } else if c == '#' {
            let tags = spec_trim_start(s.skip(i + 1));
            if tags.len() < s.len() {
                match spec_hash_tags(tags) {
                    Err(k) => Err(k),
                    Ok(ts) => Ok(flush_text(text) + tag_nodes(ts)),
                }
            } else {
                Err(ErrorKind::InvalidSource)
            }
        } else if c == '<' && i + 1 < s.len() && s[i + 1] == '>' {
            prefix_nodes(flush_text(text).push(SpecNode::Glue), spec_tokenize_from(s, i + 2, Seq::empty()))
        } else if c == '<' && i + 1 < s.len() && s[i + 1] == '-' {
            match spec_thread_divert_at(s, i) {
                Err(k) => Err(k),
                Ok((d, next)) => if i < next <= s.len() {
                    prefix_nodes(flush_text(text).push(SpecNode::ThreadDivert(d)), spec_tokenize_from(s, next, Seq::empty()))
                } else {
                    Err(ErrorKind::InvalidSource)
                },
            }
        } else if c == '-' && i + 1 < s.len() && s[i + 1] == '>' {
            match spec_parse_divert_line(s.skip(i)) {
                Err(k) => Err(k),
                Ok(ns) => Ok(flush_text(text) + ns),
            }
        } else if c == '{' {
            match spec_find_matching_brace(s, i) {
                None => Err(ErrorKind::InvalidSource),
                Some(end) => if !(i < end < s.len()) {
                    Err(ErrorKind::InvalidSource)
                } else {
                    match spec_brace_item(s, i, end) {
                        Err(k) => Err(k),
                        Ok(node) => prefix_nodes(flush_text(text).push(node), spec_tokenize_from(s, end + 1, Seq::empty())),
                    }
                },
            }
        } else {
            spec_tokenize_from(s, i + 1, text.push(c))
        }
    }
}

/// The node written in braces at `s[i..=end]`: a conditional, a sequence or
/// an expression whose value is printed.
pub open spec fn spec_brace_item(s: Seq<char>, i: int, end: int) -> Result<SpecNode, ErrorKind>
    decreases s.len(), 0nat, 0nat,
{
    if !(0 <= i < end < s.len()) {
        Err(ErrorKind::InvalidSource)
    } else {
        match spec_parse_inline_conditional(s.subrange(i, end + 1)) {
            Err(k) => Err(k),
            Ok(Some((cond, branch))) => {
                let parts = spec_split_top_level_pipe(branch);
                let p0 = spec_trim_end(parts[0]);
                if p0.len() < s.len() {
                    match spec_tokenize_from(p0, 0, Seq::empty()) {
                        Err(k) => Err(k),
                        Ok(wt) => if parts.len() > 1 {
                            let p1 = spec_trim_end(parts[1]);
                            if p1.len() < s.len() {
                                match spec_tokenize_from(p1, 0, Seq::empty()) {
                                    Err(k) => Err(k),
                                    Ok(wf) => Ok(SpecNode::Conditional { condition: cond, when_true: wt, when_false: Some(wf) }),
                                }
                            } else {
                                Err(ErrorKind::InvalidSource)
                            }
                        } else {
                            Ok(SpecNode::Conditional { condition: cond, when_true: wt, when_false: None })
                        },
                    }
                } else {
                    Err(ErrorKind::InvalidSource)
                }
            },
            Ok(None) => {
                let inner = s.subrange(i + 1, end);
                match spec_inline_sequence(inner) {
                    Err(k) => Err(k),
                    Ok(Some(q)) => Ok(SpecNode::Sequence(q)),
                    Ok(None) => match spec_parse_expression(inner) {
                        Err(k) => Err(k),
                        Ok(e) => Ok(SpecNode::OutputExpression(e)),
                    },
                }
            },
        }
    }
}

/// A sequence written inline, `{a|b}` or `{&a|b}`, `{!a}`, `{~a|b}`: `None`
/// when the text is not one.
pub open spec fn spec_inline_sequence(c: Seq<char>) -> Result<Option<SpecSequence>, ErrorKind>
    decreases c.len(), 1nat, 0nat,
{
    let explicit = c.len() > 0 && (c[0] == '&' || c[0] == '!' || c[0] == '~');
    let mode = if c.len() > 0 && c[0] == '&' {
        SequenceMode::Cycle
    } else if c.len() > 0 && c[0] == '!' {
        SequenceMode::Once
    } else if c.len() > 0 && c[0] == '~' {
        SequenceMode::Shuffle
    } else {
        SequenceMode::Stopping
    };
    let rest = if explicit { c.skip(1) } else { c };
    let parts = spec_split_top_level_pipe(rest);
    if parts.len() < 2 && !explicit {
        Ok(None)
    } else if parts.len() == 0 {
        Ok(None)
    } else {
        match spec_tokenize_parts(parts, c.len() as int) {
            Err(k) => Err(k),
            Ok(bs) => Ok(Some(SpecSequence { mode, branches: bs })),
        }
    }
}

/// The nodes of each (trimmed) part, each part shorter than `bound`.
pub open spec fn spec_tokenize_parts(parts: Seq<Seq<char>>, bound: int) -> Result<Seq<Seq<SpecNode>>, ErrorKind>
    decreases bound, 0nat, parts.len(),
{
    if parts.len() == 0 {
        Ok(Seq::empty())
    } else {
        let p = spec_trim(parts[0]);
        if p.len() < bound {
            match spec_tokenize_from(p, 0, Seq::empty()) {
                Err(k) => Err(k),
                Ok(b) => match spec_tokenize_parts(parts.drop_first(), bound) {
                    Err(k) => Err(k),
                    Ok(rest) => Ok(seq![b] + rest),
                },
            }
        } else {
            Err(ErrorKind::InvalidSource)
        }
    }
}

pub open spec fn flush_part(text: Seq<char>) -> Seq<SpecDynamicStringPart> {
    if text.len() > 0 {
        seq![SpecDynamicStringPart::Text(text)]
    } else {
        Seq::empty()
    }
}

pub open spec fn prefix_parts(pre: Seq<SpecDynamicStringPart>, r: Result<Seq<SpecDynamicStringPart>, ErrorKind>) -> Result<Seq<SpecDynamicStringPart>, ErrorKind> {
    match r {
        Ok(v) => Ok(pre + v),
        Err(k) => Err(k),
    }
}

/// The parts of a dynamic string `s[i..]`, given the text gathered so far.
pub open spec fn spec_dynamic_from(s: Seq<char>, i: int, text: Seq<char>) -> Result<Seq<SpecDynamicStringPart>, ErrorKind>
    decreases s.len(), 1nat, s.len() - i,
{
    if i < 0 || i >= s.len() {
        Ok(flush_part(text))
    } else if s[i] == '{' {
        match spec_find_matching_brace(s, i) {
            None => Err(ErrorKind::InvalidSource),
            Some(end) => if !(i < end < s.len()) {
                Err(ErrorKind::InvalidSource)
            } else {
                match spec_dyn_brace_part(s, i, end) {
                    Err(k) => Err(k),
                    Ok(part) => prefix_parts(flush_part(text).push(part), spec_dynamic_from(s, end + 1, Seq::empty())),
                }
            },
        }
    } else {
        spec_dynamic_from(s, i + 1, text.push(s[i]))
    }
}

/// The part written in braces at `s[i..=end]` of a dynamic string: a
/// sequence or an expression.
pub open spec fn spec_dyn_brace_part(s: Seq<char>, i: int, end: int) -> Result<SpecDynamicStringPart, ErrorKind>
    decreases s.len(), 1nat, 0nat,
{
    if !(0 <= i < end < s.len()) {
        Err(ErrorKind::InvalidSource)
    } else {
        let inner = s.subrange(i + 1, end);
        match spec_inline_sequence(inner) {
            Err(k) => Err(k),
            Ok(Some(q)) => Ok(SpecDynamicStringPart::Sequence(q)),
            Ok(None) => match spec_parse_expression(inner) {
                Err(k) => Err(k),
                Ok(e) => Ok(SpecDynamicStringPart::Expression(e)),
            },
        }
    }
}

/// Tags separated by `#` (outside braces), each a dynamic string.
pub open spec fn spec_hash_tags(s: Seq<char>) -> Result<Seq<SpecDynamicString>, ErrorKind>
    decreases s.len(), 2nat, 0nat,
{
    match spec_tag_split(s, 0, 0) {
        Some(idx) => if 0 < idx < s.len() {
            let head = spec_trim_start(s.take(idx));
            if head.len() <= s.len() {
                match spec_dynamic_from(head, 0, Seq::empty()) {
                    Err(k) => Err(k),
                    Ok(ps) => match spec_hash_tags(s.skip(idx + 1)) {
                        Err(k) => Err(k),
                        Ok(rest) => Ok(seq![SpecDynamicString { parts: ps }] + rest),
                    },
                }
            } else {
                Err(ErrorKind::InvalidSource)
            }
        } else {
            Err(ErrorKind::InvalidSource)
        },
        None => {
            let head = spec_trim_start(s);
            if head.len() <= s.len() {
                match spec_dynamic_from(head, 0, Seq::empty()) {
                    Err(k) => Err(k),
                    Ok(ps) => Ok(seq![SpecDynamicString { parts: ps }]),
                }
            } else {
                Err(ErrorKind::InvalidSource)
            }
        },
    }
}

pub open spec fn spec_tokenize_inline_content(s: Seq<char>) -> Result<Seq<SpecNode>, ErrorKind> {
    spec_tokenize_from(s, 0, Seq::empty())
}

pub open spec fn spec_parse_dynamic_string(s: Seq<char>) -> Result<SpecDynamicString, ErrorKind> {
    match spec_dynamic_from(s, 0, Seq::empty()) {
        Err(k) => Err(k),
        Ok(ps) => Ok(SpecDynamicString { parts: ps }),
    }
}


pub open spec fn prefix_tags(pre: Seq<SpecDynamicString>, r: Result<Seq<SpecDynamicString>, ErrorKind>) -> Result<Seq<SpecDynamicString>, ErrorKind> {
    match r {
        Ok(v) => Ok(pre + v),
        Err(k) => Err(k),
    }
}

pub open spec fn prefix_branches(pre: Seq<Seq<SpecNode>>, r: Result<Seq<Seq<SpecNode>>, ErrorKind>) -> Result<Seq<Seq<SpecNode>>, ErrorKind> {
    match r {
        Ok(v) => Ok(pre + v),
        Err(k) => Err(k),
    }
}

proof fn lemma_prefix_nodes_assoc(a: Seq<SpecNode>, b: Seq<SpecNode>, r: Result<Seq<SpecNode>, ErrorKind>)
    ensures
        prefix_nodes(a, prefix_nodes(b, r)) == prefix_nodes(a + b, r),
{
    match r {
        Ok(v) => assert(a + (b + v) =~= (a + b) + v),
        Err(_) => {},
    }
}

proof fn lemma_prefix_parts_assoc(a: Seq<SpecDynamicStringPart>, b: Seq<SpecDynamicStringPart>, r: Result<Seq<SpecDynamicStringPart>, ErrorKind>)
    ensures
        prefix_parts(a, prefix_parts(b, r)) == prefix_parts(a + b, r),
{
    match r {
        Ok(v) => assert(a + (b + v) =~= (a + b) + v),
        Err(_) => {},
    }
}

fn flush_nodes(nodes: &mut Vec<Node>, text: Vec<char>)
    ensures
        crate::ast::nodes_model(final(nodes)@) == crate::ast::nodes_model(old(nodes)@) + flush_text(text@),
{
    if text.len() > 0 {
        let ghost before = nodes@;
        let node = Node::Text(string_of(&text));
        nodes.push(node);
        proof {
            lemma_nodes_model_push(before, node);
        }
    } else {
        assert(crate::ast::nodes_model(nodes@) + flush_text(text@) =~= crate::ast::nodes_model(nodes@));
    }
}

fn push_node(nodes: &mut Vec<Node>, node: Node)
    ensures
        crate::ast::nodes_model(final(nodes)@) == crate::ast::nodes_model(old(nodes)@).push(crate::ast::node_model(node)),
{
    let ghost before = nodes@;
    nodes.push(node);
    proof {
        lemma_nodes_model_push(before, node);
    }
}

fn tag_split(s: &[char]) -> (r: Option<usize>)
    ensures
        r matches Some(k) ==> spec_tag_split(s@, 0, 0) == Some(k as int) && 0 < k < s.len(),
        r is None ==> spec_tag_split(s@, 0, 0) is None,
{
    let mut depth: usize = 0;
    let mut i: usize = 0;
    while i < s.len()
        invariant
            i <= s.len(),
            depth <= i,
            spec_tag_split(s@, 0, 0) == spec_tag_split(s@, i as int, depth as nat),
        decreases s.len() - i,
    {
        let c = s[i];
        if c == '{' {
            depth = depth + 1;
        } else if c == '}' {
            depth = if depth > 0 { depth - 1 } else { 0 };
        } else if c == '#' && depth == 0 && i > 0 {
            return Some(i);
        }
        i = i + 1;
    }
    None
}

/// Appends a tag node for each tag, in order.
fn push_tag_nodes(nodes: &mut Vec<Node>, tags: Vec<DynamicString>)
    ensures
        crate::ast::nodes_model(final(nodes)@) == crate::ast::nodes_model(old(nodes)@) + tag_nodes(crate::ast::dynamic_strings_model(tags@)),
{
    let ghost start = crate::ast::nodes_model(nodes@);
    let ghost tm = crate::ast::dynamic_strings_model(tags@);
    let mut tags = tags;
    let mut reversed: Vec<DynamicString> = Vec::new();
    while tags.len() > 0
        invariant
            crate::ast::dynamic_strings_model(tags@) + crate::ast::dynamic_strings_model(reversed@).reverse() == tm,
        decreases tags.len(),
    {
        let ghost tb = tags@;
        let ghost rb = reversed@;
        let t = tags.pop().unwrap();
        reversed.push(t);
        proof {
            crate::ast::lemma_dynamic_strings_push(tags@, t);
            assert(tb =~= tags@.push(t));
            crate::ast::lemma_dynamic_strings_push(rb, t);
            assert(crate::ast::dynamic_strings_model(reversed@).reverse() =~= seq![crate::ast::dynamic_string_model(t)] + crate::ast::dynamic_strings_model(rb).reverse());
            assert(crate::ast::dynamic_strings_model(tags@) + crate::ast::dynamic_strings_model(reversed@).reverse()
                =~= crate::ast::dynamic_strings_model(tb) + crate::ast::dynamic_strings_model(rb).reverse());
        }
    }
    assert(crate::ast::dynamic_strings_model(reversed@).reverse() =~= tm);
    while reversed.len() > 0
        invariant
            crate::ast::nodes_model(nodes@) + tag_nodes(crate::ast::dynamic_strings_model(reversed@).reverse()) == start + tag_nodes(tm),
        decreases reversed.len(),
    {
        let ghost rb = reversed@;
        let ghost nb = crate::ast::nodes_model(nodes@);
        let t = reversed.pop().unwrap();
        push_node(nodes, Node::Tag(t));
        proof {
            crate::ast::lemma_dynamic_strings_push(reversed@, t);
            assert(rb =~= reversed@.push(t));
            let rest = crate::ast::dynamic_strings_model(reversed@).reverse();
            assert(crate::ast::dynamic_strings_model(rb).reverse() =~= seq![crate::ast::dynamic_string_model(t)] + rest);
            assert(tag_nodes(seq![crate::ast::dynamic_string_model(t)] + rest) =~= seq![SpecNode::Tag(crate::ast::dynamic_string_model(t))] + tag_nodes(rest));
            assert(crate::ast::nodes_model(nodes@) + tag_nodes(rest) =~= nb + tag_nodes(crate::ast::dynamic_strings_model(rb).reverse()));
        }
    }
    assert(crate::ast::dynamic_strings_model(reversed@).reverse() =~= Seq::<SpecDynamicString>::empty());
    assert(crate::ast::nodes_model(nodes@) =~= start + tag_nodes(tm));
}

/// The divert after `<-` at `s[i]`; see `spec_thread_divert_at`.
fn thread_divert_at(s: &[char], i: usize) -> (r: Result<(Divert, usize), CompilerError>)
    requires
        i + 2 <= s.len(),
    ensures
        match (r, spec_thread_divert_at(s@, i as int)) {
            (Ok((d, next)), Ok((sd, snext))) => crate::ast::divert_model(d) == sd && next as int == snext && i < next <= s.len(),
            (Err(e), Err(k)) => e.kind == k,
            _ => false,
        },
{
    proof {
        reveal(spec_thread_divert_at);
    }
    let after = crate::text::skip(s, i + 2);
    let lead = crate::text::leading_whitespace(&after);
    let ta = crate::text::skip(&after, lead);
    let call_len = if find_char(&ta, '(').is_some() {
        thread_divert_call_end(&ta)
    } else {
        crate::expression::ident_len_from(&ta, 0)
    };
    match parse_divert_chars(&crate::text::take(&ta, call_len)) {
        Err(e) => Err(e),
        Ok(d) => Ok((d, i + 2 + lead + call_len)),
    }
}

/// The node written in braces at `s[i..=end]`; see `spec_brace_item`.
fn brace_node(s: &[char], i: usize, end: usize) -> (r: Result<Node, CompilerError>)
    requires
        i < end < s.len(),
    ensures
        agrees(r, spec_brace_item(s@, i as int, end as int)),
    decreases s.len(), 0nat,
{
    let inline = slice_of(s, i, end + 1);
    match parse_inline_conditional_chars(&inline) {
        Err(e) => Err(e),
        Ok(Some((condition, branch))) => {
            let parts = split_top_level_pipe_chars(&branch);
            assert(char_vecs_model(parts@)[0] == parts@[0]@);
            let p0 = trim_end(&parts[0]);
            proof {
                lemma_trim_end_len(parts@[0]@);
            }
            let when_true = match tokenize_inline(&p0) {
                Err(e) => return Err(e),
                Ok(v) => v,
            };
            if parts.len() > 1 {
                assert(char_vecs_model(parts@)[1] == parts@[1]@);
                let p1 = trim_end(&parts[1]);
                proof {
                    lemma_trim_end_len(parts@[1]@);
                }
                match tokenize_inline(&p1) {
                    Err(e) => Err(e),
                    Ok(v) => Ok(Node::Conditional { condition, when_true, when_false: Some(v) }),
                }
            } else {
                Ok(Node::Conditional { condition, when_true, when_false: None })
            }
        },
        Ok(None) => {
            let inner = slice_of(s, i + 1, end);
            match inline_sequence(&inner) {
                Err(e) => Err(e),
                Ok(Some(q)) => Ok(Node::Sequence(q)),
                Ok(None) => match parse_expression_chars(&inner) {
                    Err(e) => Err(e),
                    Ok(e) => Ok(Node::OutputExpression(e)),
                },
            }
        },
    }
}

/// The nodes of a line's inline content; see `spec_tokenize_inline_content`.
pub fn tokenize_inline(s: &[char]) -> (r: Result<Vec<Node>, CompilerError>)
    ensures
        agrees(r, spec_tokenize_from(s@, 0, Seq::empty())),
    decreases s.len(), 1nat,
{
    let n = s.len();
    let mut nodes: Vec<Node> = Vec::new();
    let mut text: Vec<char> = Vec::new();
    let mut i: usize = 0;
    assert(crate::ast::nodes_model(nodes@) =~= Seq::<SpecNode>::empty());
    assert(text@ =~= Seq::<char>::empty());
    while i < n
        invariant
            n == s.len(),
            i <= n,
            spec_tokenize_from(s@, 0, Seq::empty()) == prefix_nodes(crate::ast::nodes_model(nodes@), spec_tokenize_from(s@, i as int, text@)),
        decreases n - i,
    {
        let c = s[i];
        let ghost old_nodes = crate::ast::nodes_model(nodes@);
        let ghost old_text = text@;
        if c == '\\' {
            if i + 1 < n {
                let nc = s[i + 1];
                text.push(if nc == 'n' { '\n' } else { nc });
                i = i + 2;
            } else {
                i = i + 1;
            }
            continue;
        }
        if c == '#' {
            let rest = crate::text::skip(s, i + 1);
            let tags_text = trim_start(&rest);
            proof {
                lemma_trim_start_len(rest@);
            }
            let tags = match hash_tags(&tags_text) {
                Err(e) => return Err(e),
                Ok(t) => t,
            };
            let ghost tm = crate::ast::dynamic_strings_model(tags@);
            flush_nodes(&mut nodes, text);
            push_tag_nodes(&mut nodes, tags);
            assert(crate::ast::nodes_model(nodes@) =~= old_nodes + (flush_text(old_text) + tag_nodes(tm)));
            return Ok(nodes);
        }
        if c == '<' && i + 1 < n && s[i + 1] == '>' {
            flush_nodes(&mut nodes, text);
            push_node(&mut nodes, Node::Glue);
            text = Vec::new();
            assert(crate::ast::nodes_model(nodes@) =~= old_nodes + flush_text(old_text).push(SpecNode::Glue));
            proof {
                lemma_prefix_nodes_assoc(old_nodes, flush_text(old_text).push(SpecNode::Glue), spec_tokenize_from(s@, i + 2, Seq::empty()));
            }
            assert(text@ =~= Seq::<char>::empty());
            i = i + 2;
            continue;
        }
        if c == '<' && i + 1 < n && s[i + 1] == '-' {
            let (d, next) = match thread_divert_at(s, i) {
                Err(e) => return Err(e),
                Ok(r) => r,
            };
            flush_nodes(&mut nodes, text);
            push_node(&mut nodes, Node::ThreadDivert(d));
            text = Vec::new();
            assert(crate::ast::nodes_model(nodes@) =~= old_nodes + flush_text(old_text).push(SpecNode::ThreadDivert(crate::ast::divert_model(d))));
            proof {
                lemma_prefix_nodes_assoc(old_nodes, flush_text(old_text).push(SpecNode::ThreadDivert(crate::ast::divert_model(d))), spec_tokenize_from(s@, next as int, Seq::empty()));
            }
            assert(text@ =~= Seq::<char>::empty());
            i = next;
            continue;
        }
        if c == '-' && i + 1 < n && s[i + 1] == '>' {
            let ns = match parse_divert_line_chars(&crate::text::skip(s, i)) {
                Err(e) => return Err(e),
                Ok(ns) => ns,
            };
            flush_nodes(&mut nodes, text);
            let ghost mid = nodes@;
            let ghost nsv = ns@;
            let mut ns = ns;
            nodes.append(&mut ns);
            proof {
                assert(nodes@ =~= mid + nsv);
                crate::ast::lemma_nodes_model_concat(mid, nsv);
                assert(crate::ast::nodes_model(nodes@) =~= old_nodes + (flush_text(old_text) + crate::ast::nodes_model(nsv)));
            }
            return Ok(nodes);
        }
        if c == '{' {
            let end = match find_matching_brace_chars(s, i) {
                None => return Err(CompilerError::invalid_source("unterminated inline brace expression".to_owned())),
                Some(e) => e,
            };
            if end <= i {
                return Err(CompilerError::invalid_source("unterminated inline brace expression".to_owned()));
            }
            let node = match brace_node(s, i, end) {
                Err(e) => return Err(e),
                Ok(node) => node,
            };
            flush_nodes(&mut nodes, text);
            push_node(&mut nodes, node);
            text = Vec::new();
            assert(crate::ast::nodes_model(nodes@) =~= old_nodes + flush_text(old_text).push(crate::ast::node_model(node)));
            proof {
                lemma_prefix_nodes_assoc(old_nodes, flush_text(old_text).push(crate::ast::node_model(node)), spec_tokenize_from(s@, end + 1, Seq::empty()));
            }
            assert(text@ =~= Seq::<char>::empty());
            i = end + 1;
            continue;
        }
        text.push(c);
        i = i + 1;
    }
    flush_nodes(&mut nodes, text);
    Ok(nodes)
}

/// Parses an inline sequence; see `spec_inline_sequence`.
pub fn inline_sequence(c: &[char]) -> (r: Result<Option<Sequence>, CompilerError>)
    ensures
        match (r, spec_inline_sequence(c@)) {
            (Ok(None), Ok(None)) => true,
            (Ok(Some(q)), Ok(Some(sq))) => q.model() == sq,
            (Err(e), Err(k)) => e.kind == k,
            _ => false,
        },
    decreases c.len(), 0nat,
{
    let explicit = c.len() > 0 && (c[0] == '&' || c[0] == '!' || c[0] == '~');
    let mode = if c.len() > 0 && c[0] == '&' {
        SequenceMode::Cycle
    } else if c.len() > 0 && c[0] == '!' {
        SequenceMode::Once
    } else if c.len() > 0 && c[0] == '~' {
        SequenceMode::Shuffle
    } else {
        SequenceMode::Stopping
    };
    let rest = if explicit { crate::text::skip(c, 1) } else { crate::text::copy(c) };
    let parts = split_top_level_pipe_chars(&rest);
    if parts.len() < 2 && !explicit {
        return Ok(None);
    }
    if parts.len() == 0 {
        return Ok(None);
    }
    let ghost pm = char_vecs_model(parts@);
    let mut branches: Vec<Vec<Node>> = Vec::new();
    let mut k: usize = 0;
    assert(pm.skip(0) =~= pm);
    assert(crate::ast::branches_model(branches@) =~= Seq::<Seq<SpecNode>>::empty());
    assert(spec_inline_sequence(c@) == match spec_tokenize_parts(pm, c@.len() as int) {
        Err(k) => Err(k),
        Ok(bs) => Ok(Some(SpecSequence { mode, branches: bs })),
    });
    while k < parts.len()
        invariant
            spec_inline_sequence(c@) == match spec_tokenize_parts(pm, c@.len() as int) {
                Err(k) => Err(k),
                Ok(bs) => Ok(Some(SpecSequence { mode, branches: bs })),
            },
            k <= parts.len(),
            pm == char_vecs_model(parts@),
            parts_shorter(pm, rest@.len() as int),
            rest@.len() <= c@.len(),
            explicit ==> rest@.len() < c@.len(),
            !explicit ==> parts.len() >= 2,
            spec_tokenize_parts(pm, c@.len() as int) == prefix_branches(crate::ast::branches_model(branches@), spec_tokenize_parts(pm.skip(k as int), c@.len() as int)),
        decreases parts.len() - k,
    {
        assert(pm.skip(k as int)[0] == parts@[k as int]@);
        assert(pm.skip(k as int).drop_first() =~= pm.skip(k + 1));
        assert(pm[k as int].len() <= rest@.len());
        let p = trim(&parts[k]);
        proof {
            lemma_trim_len(parts@[k as int]@);
        }
        let b = match tokenize_inline(&p) {
            Err(e) => return Err(e),
            Ok(b) => b,
        };
        let ghost before = branches@;
        branches.push(b);
        proof {
            crate::ast::lemma_branches_push(before, b);
            match spec_tokenize_parts(pm.skip(k + 1), c@.len() as int) {
                Ok(more) => {
                    assert(crate::ast::branches_model(before) + (seq![crate::ast::nodes_model(b@)] + more) =~= crate::ast::branches_model(branches@) + more);
                },
                Err(_) => {},
            }
        }
        k = k + 1;
    }
    assert(pm.skip(k as int) =~= Seq::<Seq<char>>::empty());
    assert(crate::ast::branches_model(branches@) + Seq::<Seq<SpecNode>>::empty() =~= crate::ast::branches_model(branches@));
    Ok(Some(Sequence { mode, branches }))
}

fn push_part(parts: &mut Vec<DynamicStringPart>, part: DynamicStringPart)
    ensures
        crate::ast::dyn_parts_model(final(parts)@) == crate::ast::dyn_parts_model(old(parts)@).push(crate::ast::dyn_part_model(part)),
{
    let ghost before = parts@;
    parts.push(part);
    proof {
        crate::ast::lemma_dyn_parts_push(before, part);
    }
}

fn flush_parts(parts: &mut Vec<DynamicStringPart>, text: Vec<char>)
    ensures
        crate::ast::dyn_parts_model(final(parts)@) == crate::ast::dyn_parts_model(old(parts)@) + flush_part(text@),
{
    if text.len() > 0 {
        push_part(parts, DynamicStringPart::Text(string_of(&text)));
    } else {
        assert(crate::ast::dyn_parts_model(parts@) + flush_part(text@) =~= crate::ast::dyn_parts_model(parts@));
    }
}

/// The part written in braces at `s[i..=end]`; see `spec_dyn_brace_part`.
fn dyn_brace_part(s: &[char], i: usize, end: usize) -> (r: Result<DynamicStringPart, CompilerError>)
    requires
        i < end < s.len(),
    ensures
        agrees(r, spec_dyn_brace_part(s@, i as int, end as int)),
    decreases s.len(), 0nat,
{
    let inner = slice_of(s, i + 1, end);
    match inline_sequence(&inner) {
        Err(e) => Err(e),
        Ok(Some(q)) => Ok(DynamicStringPart::Sequence(q)),
        Ok(None) => match parse_expression_chars(&inner) {
            Err(e) => Err(e),
            Ok(e) => Ok(DynamicStringPart::Expression(e)),
        },
    }
}

/// Parses a dynamic string (text with `{...}` expressions and sequences).
pub fn dynamic_string(s: &[char]) -> (r: Result<DynamicString, CompilerError>)
    ensures
        agrees(r, spec_parse_dynamic_string(s@)),
    decreases s.len(), 1nat,
{
    let n = s.len();
    let mut parts: Vec<DynamicStringPart> = Vec::new();
    let mut text: Vec<char> = Vec::new();
    let mut i: usize = 0;
    assert(crate::ast::dyn_parts_model(parts@) =~= Seq::<SpecDynamicStringPart>::empty());
    assert(text@ =~= Seq::<char>::empty());
    while i < n
        invariant
            n == s.len(),
            i <= n,
            spec_dynamic_from(s@, 0, Seq::empty()) == prefix_parts(crate::ast::dyn_parts_model(parts@), spec_dynamic_from(s@, i as int, text@)),
        decreases n - i,
    {
        let c = s[i];
        let ghost old_parts = crate::ast::dyn_parts_model(parts@);
        let ghost old_text = text@;
        if c == '{' {
            let end = match find_matching_brace_chars(s, i) {
                None => return Err(CompilerError::invalid_source("unterminated inline brace expression".to_owned())),
                Some(e) => e,
            };
            if end <= i {
                return Err(CompilerError::invalid_source("unterminated inline brace expression".to_owned()));
            }
            let part = match dyn_brace_part(s, i, end) {
                Err(e) => return Err(e),
                Ok(p) => p,
            };
            flush_parts(&mut parts, text);
            push_part(&mut parts, part);
            text = Vec::new();
            assert(crate::ast::dyn_parts_model(parts@) =~= old_parts + flush_part(old_text).push(crate::ast::dyn_part_model(part)));
            proof {
                lemma_prefix_parts_assoc(old_parts, flush_part(old_text).push(crate::ast::dyn_part_model(part)), spec_dynamic_from(s@, end + 1, Seq::empty()));
            }
            assert(text@ =~= Seq::<char>::empty());
            i = end + 1;
            continue;
        }
        text.push(c);
        i = i + 1;
    }
    flush_parts(&mut parts, text);
    Ok(DynamicString { parts })
}

/// Splits `#`-separated tags and parses each; see `spec_hash_tags`.
pub fn hash_tags(s: &[char]) -> (r: Result<Vec<DynamicString>, CompilerError>)
    ensures
        agrees(r, spec_hash_tags(s@)),
    decreases s.len(), 2nat,
{
    let mut out: Vec<DynamicString> = Vec::new();
    let mut cur = crate::text::copy(s);
    assert(crate::ast::dynamic_strings_model(out@) =~= Seq::<SpecDynamicString>::empty());
    loop
        invariant
            cur@.len() <= s@.len(),
            spec_hash_tags(s@) == prefix_tags(crate::ast::dynamic_strings_model(out@), spec_hash_tags(cur@)),
        decreases cur@.len(),
    {
        let ghost old_out = crate::ast::dynamic_strings_model(out@);
        match tag_split(&cur) {
            Some(idx) => {
                let head = trim_start(&crate::text::take(&cur, idx));
                proof {
                    lemma_trim_start_len(cur@.take(idx as int));
                }
                let d = match dynamic_string(&head) {
                    Err(e) => return Err(e),
                    Ok(d) => d,
                };
                let ghost ob = out@;
                out.push(d);
                proof {
                    crate::ast::lemma_dynamic_strings_push(ob, d);
                    match spec_hash_tags(cur@.skip(idx + 1)) {
                        Ok(rest) => {
                            assert(old_out + (seq![crate::ast::dynamic_string_model(d)] + rest) =~= crate::ast::dynamic_strings_model(out@) + rest);
                        },
                        Err(_) => {},
                    }
                }
                cur = crate::text::skip(&cur, idx + 1);
            },
            None => {
                let head = trim_start(&cur);
                proof {
                    lemma_trim_start_len(cur@);
                }
                let d = match dynamic_string(&head) {
                    Err(e) => return Err(e),
                    Ok(d) => d,
                };
                let ghost ob = out@;
                out.push(d);
                proof {
                    crate::ast::lemma_dynamic_strings_push(ob, d);
                    assert(old_out + seq![crate::ast::dynamic_string_model(d)] =~= crate::ast::dynamic_strings_model(out@));
                }
                return Ok(out);
            },
        }
    }
}

/// The nodes of a line's inline content: text, glue `<>`, tags after `#`,
/// thread diverts `<- name`, diverts `-> ...` to the end of the line, and
/// `{...}` conditionals, sequences and printed expressions; `\\x` escapes
/// `x` and `\\n` is a line break.
pub fn tokenize_inline_content(content: &str) -> (r: Result<Vec<Node>, CompilerError>)
    ensures
        agrees(r, spec_tokenize_inline_content(content@)),
{
    let chars = crate::text::chars_of(content);
    tokenize_inline(&chars)
}

/// Parses text with `{...}` expressions and sequences into its parts.
pub fn parse_dynamic_string(input: &str) -> (r: Result<DynamicString, CompilerError>)
    ensures
        agrees(r, spec_parse_dynamic_string(input@)),
{
    let chars = crate::text::chars_of(input);
    dynamic_string(&chars)
}

/// The text before the first `#`, and the tags after it.
pub open spec fn spec_split_text_and_tags(s: Seq<char>) -> Result<(Seq<char>, Seq<SpecDynamicString>), ErrorKind> {
    match spec_find(s, seq!['#']) {
        Some(k) => match spec_hash_tags(s.skip(k + 1)) {
            Err(e) => Err(e),
            Ok(ts) => Ok((s.take(k), ts)),
        },
        None => Ok((s, Seq::empty())),
    }
}

pub open spec fn agrees_text_tags(r: Result<(Vec<char>, Vec<DynamicString>), CompilerError>, s: Result<(Seq<char>, Seq<SpecDynamicString>), ErrorKind>) -> bool {
    match (r, s) {
        (Ok((t, ts)), Ok((st, sts))) => t@ == st && crate::ast::dynamic_strings_model(ts@) == sts,
        (Err(e), Err(k)) => e.kind == k,
        _ => false,
    }
}

/// Splits text at its first `#`; see `spec_split_text_and_tags`.
pub fn split_text_and_tags_chars(chars: &[char]) -> (r: Result<(Vec<char>, Vec<DynamicString>), CompilerError>)
    ensures
        agrees_text_tags(r, spec_split_text_and_tags(chars@)),
{
    match find_char(chars, '#') {
        Some(k) => {
            proof {
                crate::text::lemma_find_from_bounds(chars@, seq!['#'], 0);
            }
            let n = chars.len();
            assert(k + 1 <= n);
            let tags = match hash_tags(&crate::text::skip(chars, k + 1)) {
                Err(e) => return Err(e),
                Ok(t) => t,
            };
            Ok((crate::text::take(chars, k), tags))
        },
        None => {
            let v: Vec<DynamicString> = Vec::new();
            assert(crate::ast::dynamic_strings_model(v@) =~= Seq::<SpecDynamicString>::empty());
            Ok((crate::text::copy(chars), v))
        },
    }
}

/// Splits a line at its first `#` into text and tags (`a #b #c`).
pub fn split_text_and_tags(input: &str) -> (r: Result<(String, Vec<DynamicString>), CompilerError>)
    ensures
        match (r, spec_split_text_and_tags(input@)) {
            (Ok((t, ts)), Ok((st, sts))) => t@ == st && crate::ast::dynamic_strings_model(ts@) == sts,
            (Err(e), Err(k)) => e.kind == k,
            _ => false,
        },
{
    let chars = crate::text::chars_of(input);
    match split_text_and_tags_chars(&chars) {
        Err(e) => Err(e),
        Ok((t, tags)) => Ok((string_of(&t), tags)),
    }
}

/// Whether `s` is plain text: none of `\\`, `#`, `<`, `-` or `{` in it.
pub open spec fn is_plain_text(s: Seq<char>) -> bool {
    forall|i: int| 0 <= i < s.len() ==> {
        let c = #[trigger] s[i];
        c != '\\' && c != '#' && c != '<' && c != '-' && c != '{'
    }
}

proof fn lemma_plain_from(s: Seq<char>, i: int, text: Seq<char>)
    requires
        is_plain_text(s),
        0 <= i <= s.len(),
    ensures
        spec_tokenize_from(s, i, text) == Ok::<Seq<SpecNode>, ErrorKind>(flush_text(text + s.skip(i))),
    decreases s.len() - i,
{
    if i < s.len() {
        let c = s[i];
        assert(c != '\\' && c != '#' && c != '<' && c != '-' && c != '{');
        lemma_plain_from(s, i + 1, text.push(c));
        assert(text.push(c) + s.skip(i + 1) =~= text + s.skip(i));
    } else {
        assert(text + s.skip(i) =~= text);
    }
}

/// Plain text is a single text node.
pub proof fn law_plain_text_is_one_node(s: Seq<char>)
    requires
        is_plain_text(s),
        s.len() > 0,
    ensures
        spec_tokenize_inline_content(s) == Ok::<Seq<SpecNode>, ErrorKind>(seq![SpecNode::Text(s)]),
{
    lemma_plain_from(s, 0, Seq::empty());
    assert(Seq::<char>::empty() + s.skip(0) =~= s);
}

} // verus!
