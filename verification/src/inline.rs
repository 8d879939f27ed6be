//! Parsing the inline content of a line: text, glue, tags, diverts,
//! `{...}` expressions, conditionals and sequences.
use vstd::prelude::*;
use crate::ast::{
    agrees, exprs_model, lemma_nodes_model_push, Condition, Divert, Expression, Model,
    Node, SpecCondition, SpecDivert, SpecExpression, SpecNode,
};
use crate::error::{CompilerError, ErrorKind};
use crate::expression::{
    call_like, char_vecs_model, parse_expr_list, parse_expression_chars, spec_parse_call_like,
    spec_parse_expr_list, spec_parse_expression, spec_split_top_level_commas,
    split_top_level_comma_chars,
};
use crate::text::{
    byte_offset, char_index, spec_byte_offset, spec_char_index, find_char, lemma_find_char_props, lemma_rfind_bounds, rfind_char, slice_of,
    spec_find, spec_find_from, spec_rfind, spec_split_once,
    spec_strip_prefix, spec_strip_suffix, spec_trim, spec_trim_end, spec_trim_start, split_once_char,
    strip_prefix, strip_suffix, string_of, trim, trim_end,
};

verus! {

// ---------------------------------------------------------------------------
// Scanning helpers.
// ---------------------------------------------------------------------------

/// Index of the `}` closing the brace opened at `start`, counting nesting.
pub open spec fn spec_brace_scan(s: Seq<char>, i: int, depth: int) -> Option<int>
    decreases s.len() - i,
{
    if i < 0 || i >= s.len() {
        None
    } else if s[i] == '{' {
        spec_brace_scan(s, i + 1, depth + 1)
    } else if s[i] == '}' {
        if depth - 1 == 0 {
            Some(i)
        } else {
            spec_brace_scan(s, i + 1, depth - 1)
        }
    } else {
        spec_brace_scan(s, i + 1, depth)
    }
}

#[verifier::opaque]
pub open spec fn spec_find_matching_brace(s: Seq<char>, start: int) -> Option<int> {
    spec_brace_scan(s, start, 0)
}

pub proof fn lemma_brace_scan(s: Seq<char>, i: int, depth: int)
    requires
        0 <= i,
    ensures
        spec_brace_scan(s, i, depth) matches Some(k) ==> i <= k < s.len() && s[k] == '}',
    decreases s.len() - i,
{
    if i < s.len() {
        if s[i] == '{' {
            lemma_brace_scan(s, i + 1, depth + 1);
        } else if s[i] == '}' {
            lemma_brace_scan(s, i + 1, depth - 1);
        } else {
            lemma_brace_scan(s, i + 1, depth);
        }
    }
}

/// Index of the brace closing the one opened at `start`.
pub fn find_matching_brace_chars(content: &[char], start: usize) -> (r: Option<usize>)
    requires
        start <= content.len(),
    ensures
        r matches Some(k) ==> spec_find_matching_brace(content@, start as int) == Some(k as int)
            && start <= k < content.len() && content@[k as int] == '}',
        r is None ==> spec_find_matching_brace(content@, start as int) is None,
{
    proof {
        reveal(spec_find_matching_brace);
    }
    let mut opens: usize = 0;
    let mut closes: usize = 0;
    let mut i = start;
    proof {
        lemma_brace_scan(content@, start as int, 0);
    }
    while i < content.len()
        invariant
            start <= i <= content.len(),
            opens <= i - start,
            closes <= i - start,
            spec_find_matching_brace(content@, start as int) == spec_brace_scan(content@, i as int, opens - closes),
        decreases content.len() - i,
    {
        let c = content[i];
        if c == '{' {
            opens = opens + 1;
        } else if c == '}' {
            closes = closes + 1;
            if opens == closes {
                return Some(i);
            }
        }
        i = i + 1;
    }
    None
}

/// Pieces of `s` between top-level `|` (outside braces and parentheses,
/// `\` escaping the next character); scanning from `i`, the current piece
/// starting at `start`.
pub open spec fn spec_pipe_scan(s: Seq<char>, i: int, start: int, depth: int) -> Seq<Seq<char>>
    decreases s.len() - i,
{
    if i < 0 || i >= s.len() {
        seq![s.subrange(start, s.len() as int)]
    } else if s[i] == '\\' {
        spec_pipe_scan(s, if i + 1 < s.len() { i + 2 } else { i + 1 }, start, depth)
    } else if s[i] == '{' || s[i] == '(' {
        spec_pipe_scan(s, i + 1, start, depth + 1)
    } else if s[i] == '}' || s[i] == ')' {
        spec_pipe_scan(s, i + 1, start, depth - 1)
    } else if s[i] == '|' && depth == 0 {
        seq![s.subrange(start, i)] + spec_pipe_scan(s, i + 1, i + 1, depth)
    } else {
        spec_pipe_scan(s, i + 1, start, depth)
    }
}

#[verifier::opaque]
pub open spec fn spec_split_top_level_pipe(s: Seq<char>) -> Seq<Seq<char>> {
    spec_pipe_scan(s, 0, 0, 0)
}

pub open spec fn parts_shorter(parts: Seq<Seq<char>>, bound: int) -> bool {
    &&& parts.len() >= 1
    &&& forall|j: int| 0 <= j < parts.len() ==> #[trigger] parts[j].len() <= bound
    &&& parts.len() >= 2 ==> forall|j: int| 0 <= j < parts.len() ==> #[trigger] parts[j].len() < bound
}

pub proof fn lemma_pipe_scan(s: Seq<char>, i: int, start: int, depth: int)
    requires
        0 <= start <= i,
        start <= s.len(),
    ensures
        parts_shorter(spec_pipe_scan(s, i, start, depth), s.len() - start),
    decreases s.len() - i,
{
    let r = spec_pipe_scan(s, i, start, depth);
    if i >= s.len() {
    } else if s[i] == '\\' {
        lemma_pipe_scan(s, if i + 1 < s.len() { i + 2 } else { i + 1 }, start, depth);
    } else if s[i] == '{' || s[i] == '(' {
        lemma_pipe_scan(s, i + 1, start, depth + 1);
    } else if s[i] == '}' || s[i] == ')' {
        lemma_pipe_scan(s, i + 1, start, depth - 1);
    } else if s[i] == '|' && depth == 0 {
        lemma_pipe_scan(s, i + 1, i + 1, depth);
        let rest = spec_pipe_scan(s, i + 1, i + 1, depth);
        assert forall|j: int| 0 <= j < r.len() implies #[trigger] r[j].len() < s.len() - start by {
            if j > 0 {
                assert(r[j] == rest[j - 1]);
            }
        }
    } else {
        lemma_pipe_scan(s, i + 1, start, depth);
    }
}

/// Splits on top-level `|`; see `spec_split_top_level_pipe`.
pub fn split_top_level_pipe_chars(input: &[char]) -> (parts: Vec<Vec<char>>)
    ensures
        char_vecs_model(parts@) == spec_split_top_level_pipe(input@),
        parts_shorter(char_vecs_model(parts@), input@.len() as int),
{
    proof {
        reveal(spec_split_top_level_pipe);
    }
    let mut parts: Vec<Vec<char>> = Vec::new();
    let mut opens: usize = 0;
    let mut closes: usize = 0;
    let mut start: usize = 0;
    let mut i: usize = 0;
    let n = input.len();
    proof {
        lemma_pipe_scan(input@, 0, 0, 0);
    }
    while i < n
        invariant
            n == input.len(),
            start <= i <= n,
            opens <= i,
            closes <= i,
            char_vecs_model(parts@) + spec_pipe_scan(input@, i as int, start as int, opens - closes)
                == spec_split_top_level_pipe(input@),
        decreases n - i,
    {
        let c = input[i];
        if c == '\\' {
            i = if i + 1 < n { i + 2 } else { i + 1 };
            continue;
        }
        if c == '{' || c == '(' {
            opens = opens + 1;
        } else if c == '}' || c == ')' {
            closes = closes + 1;
        } else if c == '|' && opens == closes {
            let piece = slice_of(input, start, i);
            let ghost before = char_vecs_model(parts@);
            parts.push(piece);
            assert(char_vecs_model(parts@) =~= before.push(piece@));
            assert(char_vecs_model(parts@) + spec_pipe_scan(input@, i + 1, i + 1, opens - closes)
                =~= before + (seq![piece@] + spec_pipe_scan(input@, i + 1, i + 1, opens - closes)));
            start = i + 1;
        }
        i = i + 1;
    }
    let piece = slice_of(input, start, n);
    let ghost before = char_vecs_model(parts@);
    parts.push(piece);
    assert(char_vecs_model(parts@) =~= before + seq![piece@]);
    parts
}

/// Index of the last top-level `->` of `s` (outside braces and
/// parentheses), scanning from `i`.
pub open spec fn spec_arrow_scan(s: Seq<char>, i: int, depth: nat, last: Option<int>) -> Option<int>
    decreases s.len() - i,
{
    if i < 0 || i >= s.len() {
        last
    } else if s[i] == '{' || s[i] == '(' {
        spec_arrow_scan(s, i + 1, depth + 1, last)
    } else if s[i] == '}' || s[i] == ')' {
        spec_arrow_scan(s, i + 1, if depth > 0 { (depth - 1) as nat } else { 0 }, last)
    } else if s[i] == '-' && depth == 0 && i + 1 < s.len() && s[i + 1] == '>' {
        spec_arrow_scan(s, i + 2, depth, Some(i))
    } else {
        spec_arrow_scan(s, i + 1, depth, last)
    }
}

/// Text and target around the last top-level `->`, when a target follows it.
pub open spec fn spec_split_inline_divert(s: Seq<char>) -> Option<(Seq<char>, Seq<char>)> {
    match spec_arrow_scan(s, 0, 0, None) {
        None => None,
        Some(k) => {
            let d = spec_trim(s.skip(k + 2));
            if d.len() == 0 {
                None
            } else {
                Some((s.take(k), d))
            }
        },
    }
}

proof fn lemma_arrow_scan(s: Seq<char>, i: int, depth: nat, last: Option<int>)
    requires
        0 <= i,
        last matches Some(k) ==> 0 <= k && k + 2 <= s.len(),
    ensures
        spec_arrow_scan(s, i, depth, last) matches Some(k) ==> 0 <= k && k + 2 <= s.len(),
    decreases s.len() - i,
{
    if i < s.len() {
        if s[i] == '{' || s[i] == '(' {
            lemma_arrow_scan(s, i + 1, depth + 1, last);
        } else if s[i] == '}' || s[i] == ')' {
            lemma_arrow_scan(s, i + 1, if depth > 0 { (depth - 1) as nat } else { 0 }, last);
        } else if s[i] == '-' && depth == 0 && i + 1 < s.len() && s[i + 1] == '>' {
            lemma_arrow_scan(s, i + 2, depth, Some(i));
        } else {
            lemma_arrow_scan(s, i + 1, depth, last);
        }
    }
}

/// Splits content at its last top-level `->`; see `spec_split_inline_divert`.
pub fn split_inline_divert_chars(content: &[char]) -> (r: Option<(Vec<char>, Vec<char>)>)
    ensures
        r matches Some((a, b)) ==> spec_split_inline_divert(content@) == Some((a@, b@)),
        r is None ==> spec_split_inline_divert(content@) is None,
        r matches Some((a, b)) ==> a@.len() < content@.len() && b@.len() < content@.len(),
{
    let mut depth: usize = 0;
    let mut arrow: Option<usize> = None;
    let mut i: usize = 0;
    let n = content.len();
    while i < n
        invariant
            n == content.len(),
            i <= n,
            depth <= i,
            arrow matches Some(k) ==> k + 2 <= n,
            spec_arrow_scan(content@, 0, 0, None) == spec_arrow_scan(content@, i as int, depth as nat, match arrow { Some(k) => Some(k as int), None => None }),
        decreases n - i,
    {
        let c = content[i];
        if c == '{' || c == '(' {
            depth = depth + 1;
        } else if c == '}' || c == ')' {
            depth = if depth > 0 { depth - 1 } else { 0 };
        } else if c == '-' && depth == 0 && i + 1 < n && content[i + 1] == '>' {
            arrow = Some(i);
            i = i + 2;
            continue;
        }
        i = i + 1;
    }
    match arrow {
        None => None,
        Some(k) => {
            let rest = slice_of(content, k + 2, n);
            let d = trim(&rest);
            proof {
                lemma_trim_len(rest@);
            }
            if d.len() == 0 {
                None
            } else {
                Some((slice_of(content, 0, k), d))
            }
        },
    }
}

pub proof fn lemma_trim_start_len(s: Seq<char>)
    ensures
        spec_trim_start(s).len() <= s.len(),
        spec_trim_start(s) == s.skip(s.len() - spec_trim_start(s).len()),
    decreases s.len(),
{
    if s.len() > 0 && crate::text::spec_is_whitespace(s[0]) {
        lemma_trim_start_len(s.drop_first());
        assert(s.drop_first().skip(s.drop_first().len() - spec_trim_start(s).len()) =~= s.skip(s.len() - spec_trim_start(s).len()));
    } else {
        assert(s.skip(0) =~= s);
    }
}

pub proof fn lemma_trim_end_len(s: Seq<char>)
    ensures
        spec_trim_end(s).len() <= s.len(),
        spec_trim_end(s) == s.take(spec_trim_end(s).len() as int),
    decreases s.len(),
{
    if s.len() > 0 && crate::text::spec_is_whitespace(s.last()) {
        lemma_trim_end_len(s.drop_last());
        assert(s.drop_last().take(spec_trim_end(s).len() as int) =~= s.take(spec_trim_end(s).len() as int));
    } else {
        assert(s.take(s.len() as int) =~= s);
    }
}

pub proof fn lemma_trim_len(s: Seq<char>)
    ensures
        spec_trim(s).len() <= s.len(),
{
    lemma_trim_start_len(s);
    lemma_trim_end_len(spec_trim_start(s));
}

/// The trimmed pieces of `s` between top-level `->` (outside braces and
/// parentheses; nesting only counts once a `->` was seen), empty pieces
/// dropped.
pub open spec fn spec_segments_scan(s: Seq<char>, i: int, depth: nat, start: Option<int>) -> Seq<Seq<char>>
    decreases s.len() - i,
{
    if i < 0 || i >= s.len() {
        match start {
            Some(a) => {
                let seg = spec_trim(s.subrange(a, s.len() as int));
                if seg.len() > 0 { seq![seg] } else { Seq::empty() }
            },
            None => Seq::empty(),
        }
    } else if (s[i] == '(' || s[i] == '{') && start is Some {
        spec_segments_scan(s, i + 1, depth + 1, start)
    } else if (s[i] == ')' || s[i] == '}') && start is Some {
        spec_segments_scan(s, i + 1, if depth > 0 { (depth - 1) as nat } else { 0 }, start)
    } else if s[i] == '-' && i + 1 < s.len() && s[i + 1] == '>' && depth == 0 {
        let here = match start {
            Some(a) => {
                let seg = spec_trim(s.subrange(a, i));
                if seg.len() > 0 { seq![seg] } else { Seq::empty() }
            },
            None => Seq::empty(),
        };
        here + spec_segments_scan(s, i + 2, depth, Some(i + 2))
    } else {
        spec_segments_scan(s, i + 1, depth, start)
    }
}

pub open spec fn spec_split_top_level_divert_segments(s: Seq<char>) -> Seq<Seq<char>> {
    spec_segments_scan(s, 0, 0, None)
}

fn push_segment(segments: &mut Vec<Vec<char>>, s: &[char], a: usize, b: usize)
    requires
        a <= b <= s.len(),
    ensures
        char_vecs_model(final(segments)@) == char_vecs_model(old(segments)@) + (if spec_trim(s@.subrange(a as int, b as int)).len() > 0 {
            seq![spec_trim(s@.subrange(a as int, b as int))]
        } else {
            Seq::empty()
        }),
{
    let seg = trim(&slice_of(s, a, b));
    let ghost before = char_vecs_model(segments@);
    if seg.len() > 0 {
        segments.push(seg);
        assert(char_vecs_model(segments@) =~= before + seq![seg@]);
    } else {
        assert(char_vecs_model(segments@) =~= before + Seq::<Seq<char>>::empty());
    }
}

/// Splits a divert line on its top-level `->` arrows.
pub fn split_top_level_divert_segments(input: &[char]) -> (segments: Vec<Vec<char>>)
    ensures
        char_vecs_model(segments@) == spec_split_top_level_divert_segments(input@),
{
    let n = input.len();
    let mut depth: usize = 0;
    let mut start: Option<usize> = None;
    let mut segments: Vec<Vec<char>> = Vec::new();
    let mut i: usize = 0;
    while i < n
        invariant
            n == input.len(),
            i <= n,
            depth <= i,
            start matches Some(a) ==> a <= i,
            char_vecs_model(segments@) + spec_segments_scan(input@, i as int, depth as nat, match start { Some(a) => Some(a as int), None => None })
                == spec_split_top_level_divert_segments(input@),
        decreases n - i,
    {
        let c = input[i];
        if (c == '(' || c == '{') && start.is_some() {
            depth = depth + 1;
        } else if (c == ')' || c == '}') && start.is_some() {
            depth = if depth > 0 { depth - 1 } else { 0 };
        } else if c == '-' && i + 1 < n && input[i + 1] == '>' && depth == 0 {
            let ghost before = char_vecs_model(segments@);
            match start {
                Some(a) => {
                    push_segment(&mut segments, input, a, i);
                },
                None => {
                    assert(char_vecs_model(segments@) =~= before + Seq::<Seq<char>>::empty());
                },
            }
            proof {
                let rest = spec_segments_scan(input@, i + 2, depth as nat, Some(i + 2));
                assert(char_vecs_model(segments@) + rest =~= before + ((char_vecs_model(segments@).skip(before.len() as int)) + rest));
            }
            start = Some(i + 2);
            i = i + 2;
            continue;
        }
        i = i + 1;
    }
    let ghost before = char_vecs_model(segments@);
    match start {
        Some(a) => {
            push_segment(&mut segments, input, a, n);
        },
        None => {
            assert(char_vecs_model(segments@) =~= before + Seq::<Seq<char>>::empty());
        },
    }
    segments
}

/// Length of a call `name(args)` up to its matching `)` (string literals
/// skipped), or the whole text when unmatched; scanning from `i`.
pub open spec fn spec_call_end_scan(s: Seq<char>, i: int, depth: nat, in_string: bool) -> int
    decreases s.len() - i,
{
    if i < 0 || i >= s.len() {
        s.len() as int
    } else if s[i] == '"' {
        spec_call_end_scan(s, i + 1, depth, !in_string)
    } else if s[i] == '(' && !in_string {
        spec_call_end_scan(s, i + 1, depth + 1, in_string)
    } else if s[i] == ')' && !in_string {
        let d: nat = if depth > 0 { (depth - 1) as nat } else { 0 };
        if d == 0 {
            i + 1
        } else {
            spec_call_end_scan(s, i + 1, d, in_string)
        }
    } else {
        spec_call_end_scan(s, i + 1, depth, in_string)
    }
}

#[verifier::opaque]
pub open spec fn spec_thread_divert_call_end(s: Seq<char>) -> int {
    spec_call_end_scan(s, 0, 0, false)
}

proof fn lemma_call_end(s: Seq<char>, i: int, depth: nat, in_string: bool)
    requires
        0 <= i <= s.len(),
    ensures
        i <= spec_call_end_scan(s, i, depth, in_string) <= s.len(),
    decreases s.len() - i,
{
    if i < s.len() {
        if s[i] == '"' {
            lemma_call_end(s, i + 1, depth, !in_string);
        } else if s[i] == '(' && !in_string {
            lemma_call_end(s, i + 1, depth + 1, in_string);
        } else if s[i] == ')' && !in_string {
            let d: nat = if depth > 0 { (depth - 1) as nat } else { 0 };
            if d != 0 {
                lemma_call_end(s, i + 1, d, in_string);
            }
        } else {
            lemma_call_end(s, i + 1, depth, in_string);
        }
    }
}

/// Length of the call `name(args)` at the start of `s`.
pub fn thread_divert_call_end(s: &[char]) -> (n: usize)
    ensures
        n as int == spec_thread_divert_call_end(s@),
        n <= s.len(),
{
    proof {
        reveal(spec_thread_divert_call_end);
    }
    let mut depth: usize = 0;
    let mut in_string = false;
    let mut i: usize = 0;
    proof {
        lemma_call_end(s@, 0, 0, false);
    }
    while i < s.len()
        invariant
            i <= s.len(),
            depth <= i,
            spec_thread_divert_call_end(s@) == spec_call_end_scan(s@, i as int, depth as nat, in_string),
        decreases s.len() - i,
    {
        let c = s[i];
        if c == '"' {
            in_string = !in_string;
        } else if c == '(' && !in_string {
            depth = depth + 1;
        } else if c == ')' && !in_string {
            depth = if depth > 0 { depth - 1 } else { 0 };
            if depth == 0 {
                return i + 1;
            }
        }
        i = i + 1;
    }
    s.len()
}

} // verus!

verus! {

// ---------------------------------------------------------------------------
// Conditions and diverts.
// ---------------------------------------------------------------------------

/// A condition: `true`, `false`, `name()` or an expression.
#[verifier::opaque]
pub open spec fn spec_parse_condition(c: Seq<char>) -> Result<SpecCondition, ErrorKind> {
    if c == seq!['t', 'r', 'u', 'e'] {
        Ok(SpecCondition::Bool(true))
    } else if c == seq!['f', 'a', 'l', 's', 'e'] {
        Ok(SpecCondition::Bool(false))
    } else {
        match spec_strip_suffix(c, seq!['(', ')']) {
            Some(name) => Ok(SpecCondition::FunctionCall(spec_trim(name))),
            None => match spec_parse_expression(c) {
                Ok(e) => Ok(SpecCondition::Expression(e)),
                Err(k) => Err(k),
            },
        }
    }
}

pub fn parse_condition_chars(condition: &[char]) -> (r: Result<Condition, CompilerError>)
    ensures
        agrees(r, spec_parse_condition(condition@)),
{
    proof {
        reveal(spec_parse_condition);
    }
    if condition.len() == 4 && condition[0] == 't' && condition[1] == 'r' && condition[2] == 'u'
        && condition[3] == 'e' {
        assert(condition@ =~= seq!['t', 'r', 'u', 'e']);
        return Ok(Condition::Bool(true));
    }
    if condition.len() == 5 && condition[0] == 'f' && condition[1] == 'a' && condition[2] == 'l'
        && condition[3] == 's' && condition[4] == 'e' {
        assert(condition@ =~= seq!['f', 'a', 'l', 's', 'e']);
        return Ok(Condition::Bool(false));
    }
    proof {
        if condition@ == seq!['t', 'r', 'u', 'e'] {
            assert(condition@[0] == 't' && condition@[1] == 'r' && condition@[2] == 'u' && condition@[3] == 'e');
        }
        if condition@ == seq!['f', 'a', 'l', 's', 'e'] {
            assert(condition@[0] == 'f' && condition@[4] == 'e' && condition@[2] == 'l');
        }
    }
    let suffix = vec!['(', ')'];
    assert(suffix@ =~= seq!['(', ')']);
    match strip_suffix(condition, &suffix) {
        Some(name) => Ok(Condition::FunctionCall(string_of(&trim(&name)))),
        None => match parse_expression_chars(condition) {
            Ok(e) => Ok(Condition::Expression(e)),
            Err(e) => Err(e),
        },
    }
}

/// `{condition: branch}`: the condition and the (untrimmed) branch text.
#[verifier::opaque]
pub open spec fn spec_parse_inline_conditional(content: Seq<char>) -> Result<Option<(SpecCondition, Seq<char>)>, ErrorKind> {
    let t = spec_trim(content);
    if !(t.len() > 0 && t[0] == '{' && t.last() == '}') || t.len() < 2 {
        Ok(None)
    } else {
        match spec_split_once(t.subrange(1, t.len() - 1), seq![':']) {
            None => Ok(None),
            Some((cond, branch)) => match spec_parse_condition(spec_trim(cond)) {
                Err(k) => Err(k),
                Ok(c) => Ok(Some((c, branch))),
            },
        }
    }
}

pub open spec fn agrees_inline_conditional(r: Result<Option<(Condition, Vec<char>)>, CompilerError>, s: Result<Option<(SpecCondition, Seq<char>)>, ErrorKind>) -> bool {
    match (r, s) {
        (Ok(None), Ok(None)) => true,
        (Ok(Some((c, b))), Ok(Some((sc, sb)))) => c.model() == sc && b@ == sb,
        (Err(e), Err(k)) => e.kind == k,
        _ => false,
    }
}

/// Parses `{condition: branch}`; see `spec_parse_inline_conditional`.
pub fn parse_inline_conditional_chars(content: &[char]) -> (r: Result<Option<(Condition, Vec<char>)>, CompilerError>)
    ensures
        agrees_inline_conditional(r, spec_parse_inline_conditional(content@)),
        r matches Ok(Some((_, b))) ==> b@.len() + 2 <= content@.len(),
{
    proof {
        reveal(spec_parse_inline_conditional);
    }
    let t = trim(content);
    proof {
        lemma_trim_len(content@);
    }
    if !(t.len() > 0 && t[0] == '{' && t[t.len() - 1] == '}') || t.len() < 2 {
        return Ok(None);
    }
    let inner = slice_of(&t, 1, t.len() - 1);
    match split_once_char(&inner, ':') {
        None => Ok(None),
        Some((cond, branch)) => {
            proof {
                crate::text::lemma_find_from_bounds(inner@, seq![':'], 0);
            }
            match parse_condition_chars(&trim(&cond)) {
                Err(e) => Err(e),
                Ok(c) => Ok(Some((c, branch))),
            }
        },
    }
}

/// A divert `target` or `target(args)`.
#[verifier::opaque]
pub open spec fn spec_parse_divert(input: Seq<char>) -> Result<SpecDivert, ErrorKind> {
    match spec_parse_call_like(input) {
        Err(k) => Err(k),
        Ok(Some((target, args))) => Ok(SpecDivert { target, arguments: args }),
        Ok(None) => Ok(SpecDivert { target: spec_trim(input), arguments: Seq::empty() }),
    }
}

pub fn parse_divert_chars(input: &[char]) -> (r: Result<Divert, CompilerError>)
    ensures
        agrees(r, spec_parse_divert(input@)),
{
    proof {
        reveal(spec_parse_divert);
    }
    match call_like(input) {
        Err(e) => Err(e),
        Ok(Some((target, args))) => Ok(Divert { target: string_of(&target), arguments: args }),
        Ok(None) => {
            let d = Divert { target: string_of(&trim(input)), arguments: Vec::new() };
            assert(exprs_model(d.arguments@) =~= Seq::<SpecExpression>::empty());
            Ok(d)
        },
    }
}

/// A divert segment `target` or `target(args)`, split into the trimmed
/// target and its arguments.  Text whose `(` is not followed by a `)` that
/// closes an argument list is invalid.
pub open spec fn spec_parse_segment(seg: Seq<char>) -> Result<(Seq<char>, Seq<SpecExpression>), ErrorKind> {
    match spec_find(seg, seq!['(']) {
        None => Ok((seg, Seq::empty())),
        Some(open) => {
            let close = match spec_rfind(seg, ')') {
                Some(c) => c,
                None => seg.len() - 1,
            };
            if close < open + 1 {
                Err(ErrorKind::InvalidSource)
            } else {
                match spec_parse_expr_list(spec_split_top_level_commas(seg.subrange(open + 1, close))) {
                    Err(k) => Err(k),
                    Ok(args) => Ok((spec_trim(seg.take(open)), args)),
                }
            }
        },
    }
}

pub open spec fn agrees_segment(r: Result<(Vec<char>, Vec<Expression>), CompilerError>, s: Result<(Seq<char>, Seq<SpecExpression>), ErrorKind>) -> bool {
    match (r, s) {
        (Ok((t, a)), Ok((st, sa))) => t@ == st && exprs_model(a@) == sa,
        (Err(e), Err(k)) => e.kind == k,
        _ => false,
    }
}

fn parse_segment(seg: &[char]) -> (r: Result<(Vec<char>, Vec<Expression>), CompilerError>)
    ensures
        agrees_segment(r, spec_parse_segment(seg@)),
{
    let n = seg.len();
    match find_char(seg, '(') {
        None => {
            let v: Vec<Expression> = Vec::new();
            assert(exprs_model(v@) =~= Seq::<SpecExpression>::empty());
            let whole = slice_of(seg, 0, n);
            assert(whole@ =~= seg@);
            Ok((whole, v))
        },
        Some(open) => {
            proof {
                lemma_find_char_props(seg@, '(', 0);
                assert(spec_find_from(seg@, seq!['('], 0) == Some(open as int));
                lemma_rfind_bounds(seg@, ')', seg@.len() as int);
            }
            let close = match rfind_char(seg, ')') {
                Some(c) => c,
                None => n - 1,
            };
            if close < open + 1 {
                return Err(CompilerError::invalid_source("divert arguments are missing ')'".to_owned()));
            }
            let parts = split_top_level_comma_chars(&slice_of(seg, open + 1, close));
            match parse_expr_list(&parts) {
                Err(e) => Err(e),
                Ok(args) => Ok((trim(&slice_of(seg, 0, open)), args)),
            }
        },
    }
}

/// Tunnel calls to each segment in turn.
pub open spec fn spec_tunnel_nodes(segs: Seq<Seq<char>>) -> Result<Seq<SpecNode>, ErrorKind>
    decreases segs.len(),
{
    if segs.len() == 0 {
        Ok(Seq::empty())
    } else {
        match spec_parse_segment(segs[0]) {
            Err(k) => Err(k),
            Ok((target, args)) => match spec_tunnel_nodes(segs.drop_first()) {
                Err(k) => Err(k),
                Ok(rest) => Ok(seq![SpecNode::TunnelDivert { target, is_variable: args.len() > 0, args }] + rest),
            },
        }
    }
}

/// The final divert of a chain of segments.
pub open spec fn spec_last_divert(seg: Seq<char>) -> Result<SpecDivert, ErrorKind> {
    match spec_parse_segment(seg) {
        Err(k) => Err(k),
        Ok((target, args)) => if args.len() == 0 {
            spec_parse_divert(seg)
        } else {
            Ok(SpecDivert { target, arguments: args })
        },
    }
}

pub open spec fn arrow() -> Seq<char> {
    seq!['-', '>']
}

pub open spec fn tunnel_return() -> Seq<char> {
    seq!['-', '>', '-', '>']
}

/// `->->` continuing to a target with explicit arguments.
pub open spec fn is_tunnel_onwards_with_args(t: Seq<char>) -> bool {
    match spec_strip_prefix(t, tunnel_return()) {
        Some(r) => {
            let rest = spec_trim(r);
            &&& rest.len() > 0
            &&& !arrow().is_prefix_of(rest)
            &&& spec_find(rest, seq!['(']) is Some
        },
        None => false,
    }
}

/// The nodes of a divert line: `-> target`, tunnels `-> a -> b ->`,
/// `->->` returns and `->-> target(args)`.
#[verifier::opaque]
pub open spec fn spec_parse_divert_line(input: Seq<char>) -> Result<Seq<SpecNode>, ErrorKind> {
    let t = spec_trim(input);
    if t == tunnel_return() {
        Ok(seq![SpecNode::TunnelReturn])
    } else if is_tunnel_onwards_with_args(t) {
        match spec_parse_segment(spec_trim(t.skip(4))) {
            Err(k) => Err(k),
            Ok((target, args)) => Ok(seq![SpecNode::TunnelOnwardsWithTarget { target, args }]),
        }
    } else {
        let segs = spec_split_top_level_divert_segments(t);
        if segs.len() == 0 {
            Err(ErrorKind::InvalidSource)
        } else if tunnel_return().is_suffix_of(t) {
            match spec_tunnel_nodes(segs) {
                Err(k) => Err(k),
                Ok(ns) => Ok(ns.push(SpecNode::TunnelReturn)),
            }
        } else if arrow().is_suffix_of(t) {
            spec_tunnel_nodes(segs)
        } else if segs.len() > 1 {
            match spec_tunnel_nodes(segs.drop_last()) {
                Err(k) => Err(k),
                Ok(ns) => match spec_last_divert(segs.last()) {
                    Err(k) => Err(k),
                    Ok(d) => Ok(ns.push(SpecNode::Divert(d))),
                },
            }
        } else {
            match spec_parse_divert(segs[0]) {
                Err(k) => Err(k),
                Ok(d) => Ok(seq![SpecNode::Divert(d)]),
            }
        }
    }
}

/// Appends tunnel calls for `segs[from..to]`.
fn push_tunnels(nodes: &mut Vec<Node>, segs: &Vec<Vec<char>>, to: usize) -> (r: Result<(), CompilerError>)
    requires
        to <= segs.len(),
    ensures
        match spec_tunnel_nodes(char_vecs_model(segs@).take(to as int)) {
            Ok(ns) => r is Ok && crate::ast::nodes_model(final(nodes)@) == crate::ast::nodes_model(old(nodes)@) + ns,
            Err(k) => r matches Err(e) && e.kind == k,
        },
{
    let ghost all = char_vecs_model(segs@).take(to as int);
    let ghost start = crate::ast::nodes_model(nodes@);
    let mut i: usize = 0;
    assert(all.skip(0) =~= all);
    while i < to
        invariant
            i <= to <= segs.len(),
            all == char_vecs_model(segs@).take(to as int),
            spec_tunnel_nodes(all) == (match spec_tunnel_nodes(all.skip(i as int)) {
                Ok(rest) => Ok(crate::ast::nodes_model(nodes@).skip(start.len() as int) + rest),
                Err(k) => Err(k),
            }),
            crate::ast::nodes_model(nodes@).len() >= start.len(),
            crate::ast::nodes_model(nodes@).take(start.len() as int) == start,
        decreases to - i,
    {
        assert(all.skip(i as int)[0] == segs@[i as int]@);
        assert(all.skip(i as int).drop_first() =~= all.skip(i + 1));
        match parse_segment(&segs[i]) {
            Err(e) => return Err(e),
            Ok((target, args)) => {
                let is_variable = args.len() > 0;
                let node = Node::TunnelDivert { target: string_of(&target), is_variable, args };
                let ghost before = nodes@;
                nodes.push(node);
                proof {
                    assert(nodes@.drop_last() =~= before);
                    let nm = crate::ast::nodes_model(nodes@);
                    assert(nm =~= crate::ast::nodes_model(before).push(crate::ast::node_model(node)));
                    match spec_tunnel_nodes(all.skip(i + 1)) {
                        Ok(rest) => {
                            assert(nm.skip(start.len() as int) =~= crate::ast::nodes_model(before).skip(start.len() as int).push(crate::ast::node_model(node)));
                            assert(crate::ast::nodes_model(before).skip(start.len() as int) + (seq![crate::ast::node_model(node)] + rest) =~= nm.skip(start.len() as int) + rest);
                        },
                        Err(_) => {},
                    }
                    assert(nm.take(start.len() as int) =~= crate::ast::nodes_model(before).take(start.len() as int));
                }
            },
        }
        i = i + 1;
    }
    proof {
        assert(all.skip(to as int) =~= Seq::<Seq<char>>::empty());
        let nm = crate::ast::nodes_model(nodes@);
        assert(nm =~= start + nm.skip(start.len() as int));
        assert(nm.skip(start.len() as int) + Seq::<SpecNode>::empty() =~= nm.skip(start.len() as int));
    }
    Ok(())
}

/// Parses a divert line; see `spec_parse_divert_line`.
pub fn parse_divert_line_chars(input: &[char]) -> (r: Result<Vec<Node>, CompilerError>)
    ensures
        agrees(r, spec_parse_divert_line(input@)),
{
    proof {
        reveal(spec_parse_divert_line);
    }
    let t = trim(input);
    let tr = vec!['-', '>', '-', '>'];
    assert(tr@ =~= tunnel_return());
    let ar = vec!['-', '>'];
    assert(ar@ =~= arrow());
    if crate::text::chars_eq(&t, &tr) {
        let mut v: Vec<Node> = Vec::new();
        v.push(Node::TunnelReturn);
        proof {
            lemma_nodes_model_push(Seq::empty(), Node::TunnelReturn);
            assert(v@ =~= Seq::<Node>::empty().push(Node::TunnelReturn));
        }
        assert(crate::ast::nodes_model(v@) =~= seq![SpecNode::TunnelReturn]);
        return Ok(v);
    }
    if let Some(r0) = strip_prefix(&t, &tr) {
        let rest = trim(&r0);
        if rest.len() > 0 && !crate::text::starts_with(&rest, &ar) && find_char(&rest, '(').is_some() {
            assert(r0@ =~= t@.skip(4));
            match parse_segment(&rest) {
                Err(e) => return Err(e),
                Ok((target, args)) => {
                    let mut v: Vec<Node> = Vec::new();
                    let node = Node::TunnelOnwardsWithTarget { target: string_of(&target), args };
                    v.push(node);
                    proof {
                        lemma_nodes_model_push(Seq::empty(), node);
                        assert(v@ =~= Seq::<Node>::empty().push(node));
                    }
                    assert(crate::ast::nodes_model(v@) =~= seq![crate::ast::node_model(node)]);
                    return Ok(v);
                },
            }
        }
    }
    let segs = split_top_level_divert_segments(&t);
    if segs.len() == 0 {
        return Err(CompilerError::invalid_source("expected divert target after '->'".to_owned()));
    }
    let mut nodes: Vec<Node> = Vec::new();
    let ghost sm = char_vecs_model(segs@);
    assert(crate::ast::nodes_model(nodes@) =~= Seq::<SpecNode>::empty());
    if crate::text::ends_with(&t, &tr) {
        assert(sm.take(segs.len() as int) =~= sm);
        match push_tunnels(&mut nodes, &segs, segs.len()) {
            Err(e) => return Err(e),
            Ok(()) => {},
        }
        let ghost before = nodes@;
        nodes.push(Node::TunnelReturn);
        proof {
            lemma_nodes_model_push(before, Node::TunnelReturn);
        }
        return Ok(nodes);
    }
    if crate::text::ends_with(&t, &ar) {
        assert(sm.take(segs.len() as int) =~= sm);
        match push_tunnels(&mut nodes, &segs, segs.len()) {
            Err(e) => return Err(e),
            Ok(()) => {},
        }
        assert(crate::ast::nodes_model(nodes@) =~= Seq::<SpecNode>::empty() + crate::ast::nodes_model(nodes@));
        return Ok(nodes);
    }
    if segs.len() > 1 {
        let last = segs.len() - 1;
        assert(sm.take(last as int) =~= sm.drop_last());
        match push_tunnels(&mut nodes, &segs, last) {
            Err(e) => return Err(e),
            Ok(()) => {},
        }
        assert(sm.last() == segs@[last as int]@);
        let d = match parse_segment(&segs[last]) {
            Err(e) => return Err(e),
            Ok((target, args)) => {
                if args.len() == 0 {
                    match parse_divert_chars(&segs[last]) {
                        Err(e) => return Err(e),
                        Ok(d) => d,
                    }
                } else {
                    Divert { target: string_of(&target), arguments: args }
                }
            },
        };
        let ghost before = nodes@;
        nodes.push(Node::Divert(d));
        proof {
            lemma_nodes_model_push(before, Node::Divert(d));
            assert(crate::ast::nodes_model(before) =~= Seq::<SpecNode>::empty() + crate::ast::nodes_model(before));
        }
        return Ok(nodes);
    }
    assert(sm[0] == segs@[0]@);
    match parse_divert_chars(&segs[0]) {
        Err(e) => Err(e),
        Ok(d) => {
            nodes.push(Node::Divert(d));
            proof {
                lemma_nodes_model_push(Seq::empty(), Node::Divert(d));
                assert(nodes@ =~= Seq::<Node>::empty().push(Node::Divert(d)));
            }
            assert(crate::ast::nodes_model(nodes@) =~= seq![SpecNode::Divert(crate::ast::divert_model(d))]);
            Ok(nodes)
        },
    }
}

/// Text before an inline `->` (trailing whitespace removed) and the divert
/// after it.
pub open spec fn spec_split_inline_choice_divert(input: Seq<char>) -> Result<(Seq<char>, Option<SpecDivert>), ErrorKind> {
    match spec_split_inline_divert(input) {
        Some((text, d)) => match spec_parse_divert(d) {
            Err(k) => Err(k),
            Ok(dv) => Ok((spec_trim_end(text), Some(dv))),
        },
        None => Ok((input, None)),
    }
}

pub open spec fn agrees_choice_divert(r: Result<(Vec<char>, Option<Divert>), CompilerError>, s: Result<(Seq<char>, Option<SpecDivert>), ErrorKind>) -> bool {
    match (r, s) {
        (Ok((t, None)), Ok((st, None))) => t@ == st,
        (Ok((t, Some(d))), Ok((st, Some(sd)))) => t@ == st && d.model() == sd,
        (Err(e), Err(k)) => e.kind == k,
        _ => false,
    }
}

pub fn split_inline_choice_divert_chars(input: &[char]) -> (r: Result<(Vec<char>, Option<Divert>), CompilerError>)
    ensures
        agrees_choice_divert(r, spec_split_inline_choice_divert(input@)),
{
    match split_inline_divert_chars(input) {
        Some((text, d)) => match parse_divert_chars(&d) {
            Err(e) => Err(e),
            Ok(dv) => Ok((trim_end(&text), Some(dv))),
        },
        None => Ok((crate::text::copy(input), None)),
    }
}

/// The pieces joined again with `|` between them.
pub open spec fn spec_join_pipes(parts: Seq<Seq<char>>) -> Seq<char>
    decreases parts.len(),
{
    if parts.len() == 0 {
        Seq::empty()
    } else if parts.len() == 1 {
        parts[0]
    } else {
        parts[0] + seq!['|'] + spec_join_pipes(parts.drop_first())
    }
}

proof fn lemma_pipe_scan_join(s: Seq<char>, i: int, start: int, depth: int)
    requires
        0 <= start <= i,
        start <= s.len(),
    ensures
        spec_join_pipes(spec_pipe_scan(s, i, start, depth)) == s.subrange(start, s.len() as int),
        spec_pipe_scan(s, i, start, depth).len() >= 1,
    decreases s.len() - i,
{
    if i < 0 || i >= s.len() {
    } else if s[i] == '\\' {
        lemma_pipe_scan_join(s, if i + 1 < s.len() { i + 2 } else { i + 1 }, start, depth);
    } else if s[i] == '{' || s[i] == '(' {
        lemma_pipe_scan_join(s, i + 1, start, depth + 1);
    } else if s[i] == '}' || s[i] == ')' {
        lemma_pipe_scan_join(s, i + 1, start, depth - 1);
    } else if s[i] == '|' && depth == 0 {
        lemma_pipe_scan_join(s, i + 1, i + 1, depth);
        let rest = spec_pipe_scan(s, i + 1, i + 1, depth);
        let all = seq![s.subrange(start, i)] + rest;
        assert(all.drop_first() =~= rest);
        assert(s.subrange(start, i) + seq!['|'] + s.subrange(i + 1, s.len() as int) =~= s.subrange(start, s.len() as int));
    } else {
        lemma_pipe_scan_join(s, i + 1, start, depth);
    }
}

/// The pieces between top-level `|` joined again with `|` give back the
/// text: splitting loses nothing.
pub proof fn law_pipe_pieces_rejoin(s: Seq<char>)
    ensures
        spec_join_pipes(spec_split_top_level_pipe(s)) == s,
{
    reveal(spec_split_top_level_pipe);
    lemma_pipe_scan_join(s, 0, 0, 0);
    assert(s.subrange(0, s.len() as int) =~= s);
}

/// Whether the pipe scan of `s` looks at position `k` (a `\` makes it skip
/// the character after it).
pub open spec fn pipe_visited(s: Seq<char>, k: int) -> bool
    decreases k,
{
    if k <= 0 {
        true
    } else {
        !(pipe_visited(s, k - 1) && s[k - 1] == '\\')
    }
}

/// The nesting of `{}` and `()` before position `k`, counting only the
/// characters the scan looks at.
pub open spec fn pipe_depth(s: Seq<char>, k: int) -> int
    decreases k,
{
    if k <= 0 {
        0
    } else {
        let c = s[k - 1];
        pipe_depth(s, k - 1) + if pipe_visited(s, k - 1) && (c == '{' || c == '(') {
            1int
        } else if pipe_visited(s, k - 1) && (c == '}' || c == ')') {
            -1int
        } else {
            0int
        }
    }
}

/// Position `k` of `s` holds a `|` that is not escaped and stands outside
/// all braces and parentheses.
pub open spec fn is_top_level_pipe(s: Seq<char>, k: int) -> bool {
    0 <= k < s.len() && pipe_visited(s, k) && s[k] == '|' && pipe_depth(s, k) == 0
}

/// No top-level `|` in `lo..hi`.
pub open spec fn no_top_level_pipe_in(s: Seq<char>, lo: int, hi: int) -> bool {
    forall|k: int| lo <= k < hi ==> !#[trigger] is_top_level_pipe(s, k)
}

/// Where piece `j` starts, the pieces being joined with `|`.
pub open spec fn pipe_offset(parts: Seq<Seq<char>>, j: int) -> int
    decreases j,
{
    if j <= 0 || parts.len() == 0 {
        0
    } else {
        parts[0].len() + 1 + pipe_offset(parts.drop_first(), j - 1)
    }
}

/// `parts`, laid out from `start` with a `|` between each two, hold no
/// top-level `|` of `s`, and each `|` between them is one.
pub open spec fn pipe_cuts_at(s: Seq<char>, start: int, parts: Seq<Seq<char>>) -> bool {
    &&& forall|j: int| 0 <= j < parts.len() ==>
        no_top_level_pipe_in(s, start + pipe_offset(parts, j), start + pipe_offset(parts, j) + (#[trigger] parts[j]).len())
    &&& forall|j: int| 0 <= j < parts.len() - 1 ==>
        is_top_level_pipe(s, start + pipe_offset(parts, j) + (#[trigger] parts[j]).len())
}

proof fn lemma_pipe_scan_cuts(s: Seq<char>, i: int, start: int, depth: int)
    requires
        0 <= start <= i <= s.len(),
        i < s.len() ==> pipe_visited(s, i),
        depth == pipe_depth(s, i),
        no_top_level_pipe_in(s, start, i),
    ensures
        pipe_cuts_at(s, start, spec_pipe_scan(s, i, start, depth)),
    decreases s.len() - i,
{
    let r = spec_pipe_scan(s, i, start, depth);
    if i >= s.len() {
        assert(r.len() == 1);
        assert(r[0].len() == s.len() - start);
        assert(pipe_offset(r, 0) == 0);
        assert(no_top_level_pipe_in(s, start + pipe_offset(r, 0), start + pipe_offset(r, 0) + r[0].len()));
        assert(pipe_cuts_at(s, start, r));
    } else if s[i] == '\\' {
        let i2 = if i + 1 < s.len() { i + 2 } else { i + 1 };
        assert(pipe_visited(s, i + 1) == false);
        assert(pipe_depth(s, i + 1) == depth);
        if i + 1 < s.len() {
            assert(pipe_visited(s, i + 2));
            assert(pipe_depth(s, i + 2) == depth);
        }
        assert forall|k: int| start <= k < i2 implies !#[trigger] is_top_level_pipe(s, k) by {
            if k < i {
                assert(!is_top_level_pipe(s, k));
            }
        }
        lemma_pipe_scan_cuts(s, i2, start, depth);
        assert(pipe_cuts_at(s, start, r));
    } else if s[i] == '{' || s[i] == '(' || s[i] == '}' || s[i] == ')' {
        let d2 = if s[i] == '{' || s[i] == '(' { depth + 1 } else { depth - 1 };
        assert(pipe_visited(s, i + 1));
        assert(pipe_depth(s, i + 1) == d2);
        assert forall|k: int| start <= k < i + 1 implies !#[trigger] is_top_level_pipe(s, k) by {
            if k < i {
                assert(!is_top_level_pipe(s, k));
            }
        }
        lemma_pipe_scan_cuts(s, i + 1, start, d2);
        assert(pipe_cuts_at(s, start, r));
    } else if s[i] == '|' && depth == 0 {
        assert(pipe_visited(s, i + 1));
        assert(pipe_depth(s, i + 1) == 0);
        lemma_pipe_scan_cuts(s, i + 1, i + 1, 0);
        let rest = spec_pipe_scan(s, i + 1, i + 1, 0);
        lemma_pipe_scan_join(s, i + 1, i + 1, 0);
        assert(r == seq![s.subrange(start, i)] + rest);
        assert(r.drop_first() =~= rest);
        assert(r[0].len() == i - start);
        assert(is_top_level_pipe(s, i));
        assert forall|j: int| 0 <= j < r.len() implies
            no_top_level_pipe_in(s, start + pipe_offset(r, j), start + pipe_offset(r, j) + (#[trigger] r[j]).len()) by {
            if j > 0 {
                assert(r[j] == rest[j - 1]);
                assert(pipe_offset(r, j) == i - start + 1 + pipe_offset(rest, j - 1));
            }
        }
        assert forall|j: int| 0 <= j < r.len() - 1 implies
            is_top_level_pipe(s, start + pipe_offset(r, j) + (#[trigger] r[j]).len()) by {
            if j > 0 {
                assert(r[j] == rest[j - 1]);
                assert(pipe_offset(r, j) == i - start + 1 + pipe_offset(rest, j - 1));
            }
        }
    } else {
        assert(pipe_visited(s, i + 1));
        assert(pipe_depth(s, i + 1) == depth);
        assert forall|k: int| start <= k < i + 1 implies !#[trigger] is_top_level_pipe(s, k) by {
            if k < i {
                assert(!is_top_level_pipe(s, k));
            }
        }
        lemma_pipe_scan_cuts(s, i + 1, start, depth);
        assert(pipe_cuts_at(s, start, r));
    }
}

/// Splitting on `|` cuts `s` exactly at its top-level, unescaped `|`: no
/// piece holds one, and each `|` between two pieces is one. There is
/// always at least one piece.
pub proof fn law_pipe_cuts_are_top_level_pipes(s: Seq<char>)
    ensures
        ({
            let r = spec_split_top_level_pipe(s);
            &&& r.len() >= 1
            &&& forall|j: int| 0 <= j < r.len() ==>
                no_top_level_pipe_in(s, pipe_offset(r, j), pipe_offset(r, j) + (#[trigger] r[j]).len())
            &&& forall|j: int| 0 <= j < r.len() - 1 ==>
                is_top_level_pipe(s, pipe_offset(r, j) + (#[trigger] r[j]).len())
        }),
{
    reveal(spec_split_top_level_pipe);
    lemma_pipe_scan_join(s, 0, 0, 0);
    lemma_pipe_scan_cuts(s, 0, 0, 0);
}

// ---------------------------------------------------------------------------
// The same operations on text.
// ---------------------------------------------------------------------------

/// The byte offset of the `}` closing the brace at byte offset `index` of
/// `input`; see `spec_find_matching_brace`, which counts in characters.
/// `index` is a character boundary of `input` (slicing there is what the
/// search starts with).
pub fn find_matching_brace(input: &str, index: usize) -> (r: Option<usize>)
    requires
        spec_byte_offset(input@, input@.len() as int) <= usize::MAX,
        spec_byte_offset(input@, spec_char_index(input@, index as int)) == index,
    ensures
        match spec_find_matching_brace(input@, spec_char_index(input@, index as int)) {
            Some(k) => r == Some(spec_byte_offset(input@, k) as usize),
            None => r is None,
        },
{
    let chars = crate::text::chars_of(input);
    let start = char_index(&chars, index);
    match find_matching_brace_chars(&chars, start) {
        Some(k) => Some(byte_offset(&chars, k)),
        None => None,
    }
}

/// The pieces of `input` between top-level `|`.
pub fn split_top_level_pipe(input: &str) -> (parts: Vec<String>)
    ensures
        crate::ast::strings_model(parts@) == spec_split_top_level_pipe(input@),
{
    let chars = crate::text::chars_of(input);
    let pieces = split_top_level_pipe_chars(&chars);
    let mut parts: Vec<String> = Vec::new();
    let mut i: usize = 0;
    while i < pieces.len()
        invariant
            i <= pieces.len(),
            crate::ast::strings_model(parts@) == char_vecs_model(pieces@).take(i as int),
        decreases pieces.len() - i,
    {
        let ghost pb = parts@;
        parts.push(string_of(&pieces[i]));
        proof {
            crate::ast::lemma_strings_model_push(pb, parts@.last());
            assert(char_vecs_model(pieces@).take(i + 1) =~= char_vecs_model(pieces@).take(i as int).push(pieces@[i as int]@));
        }
        i = i + 1;
    }
    assert(char_vecs_model(pieces@).take(i as int) =~= char_vecs_model(pieces@));
    parts
}

/// Content split at its last top-level `->`; see `spec_split_inline_divert`.
pub fn split_inline_divert(content: &str) -> (r: Option<(String, String)>)
    ensures
        r matches Some((a, b)) ==> spec_split_inline_divert(content@) == Some((a@, b@)),
        r is None ==> spec_split_inline_divert(content@) is None,
{
    let chars = crate::text::chars_of(content);
    match split_inline_divert_chars(&chars) {
        Some((a, b)) => Some((string_of(&a), string_of(&b))),
        None => None,
    }
}

/// The condition of a choice or conditional; see `spec_parse_condition`.
pub fn parse_condition(condition: &str) -> (r: Result<Condition, CompilerError>)
    ensures
        agrees(r, spec_parse_condition(condition@)),
{
    let chars = crate::text::chars_of(condition);
    parse_condition_chars(&chars)
}

/// `{condition: branch}`; see `spec_parse_inline_conditional`.
pub fn parse_inline_conditional(content: &str) -> (r: Result<Option<(Condition, String)>, CompilerError>)
    ensures
        match (r, spec_parse_inline_conditional(content@)) {
            (Ok(None), Ok(None)) => true,
            (Ok(Some((c, b))), Ok(Some((sc, sb)))) => c.model() == sc && b@ == sb,
            (Err(e), Err(k)) => e.kind == k,
            _ => false,
        },
{
    let chars = crate::text::chars_of(content);
    match parse_inline_conditional_chars(&chars) {
        Err(e) => Err(e),
        Ok(None) => Ok(None),
        Ok(Some((c, b))) => Ok(Some((c, string_of(&b)))),
    }
}

/// A divert target with optional arguments; see `spec_parse_divert`.
pub fn parse_divert(input: &str) -> (r: Result<Divert, CompilerError>)
    ensures
        agrees(r, spec_parse_divert(input@)),
{
    let chars = crate::text::chars_of(input);
    parse_divert_chars(&chars)
}

/// A line of diverts and tunnels; see `spec_parse_divert_line`.
pub fn parse_divert_line(input: &str) -> (r: Result<Vec<Node>, CompilerError>)
    ensures
        agrees(r, spec_parse_divert_line(input@)),
{
    let chars = crate::text::chars_of(input);
    parse_divert_line_chars(&chars)
}

/// Choice text and its inline divert; see `spec_split_inline_choice_divert`.
pub fn split_inline_choice_divert(input: &str) -> (r: Result<(String, Option<Divert>), CompilerError>)
    ensures
        match (r, spec_split_inline_choice_divert(input@)) {
            (Ok((t, None)), Ok((st, None))) => t@ == st,
            (Ok((t, Some(d))), Ok((st, Some(sd)))) => t@ == st && d.model() == sd,
            (Err(e), Err(k)) => e.kind == k,
            _ => false,
        },
{
    let chars = crate::text::chars_of(input);
    match split_inline_choice_divert_chars(&chars) {
        Err(e) => Err(e),
        Ok((t, d)) => Ok((string_of(&t), d)),
    }
}

} // verus!


verus! {

/// The tunnel calls of a list of segments are one `TunnelDivert` per
/// segment, in order.
proof fn lemma_tunnel_nodes_shape(segs: Seq<Seq<char>>)
    ensures
        spec_tunnel_nodes(segs) matches Ok(ns) ==> ns.len() == segs.len()
            && forall|i: int| 0 <= i < ns.len() ==> #[trigger] ns[i] is TunnelDivert,
    decreases segs.len(),
{
    if segs.len() > 0 {
        lemma_tunnel_nodes_shape(segs.drop_first());
    }
}

/// A divert line whose trimmed text ends in `->->` (other than `->->`
/// alone and `->-> target(args)`) is its tunnel calls followed by one
/// return from the current tunnel: the last node is `TunnelReturn`, and
/// every node before it is a tunnel call.
pub proof fn law_divert_line_ending_in_tunnel_return(input: Seq<char>)
    requires
        tunnel_return().is_suffix_of(spec_trim(input)),
        spec_trim(input) != tunnel_return(),
        !is_tunnel_onwards_with_args(spec_trim(input)),
    ensures
        spec_parse_divert_line(input) matches Ok(ns) ==> ns.len() >= 2
            && ns.last() == SpecNode::TunnelReturn
            && forall|i: int| 0 <= i < ns.len() - 1 ==> #[trigger] ns[i] is TunnelDivert,
{
    reveal(spec_parse_divert_line);
    let segs = spec_split_top_level_divert_segments(spec_trim(input));
    lemma_tunnel_nodes_shape(segs);
    if let Ok(ns) = spec_parse_divert_line(input) {
        let tn = spec_tunnel_nodes(segs)->Ok_0;
        assert(ns == tn.push(SpecNode::TunnelReturn));
        assert forall|i: int| 0 <= i < ns.len() - 1 implies #[trigger] ns[i] is TunnelDivert by {
            assert(ns[i] == tn[i]);
        }
    }
}

/// A divert line whose trimmed text ends in a single `->` (not `->->`, and
/// not `->-> target(args) ->`) is tunnel calls only: it never returns from
/// the current tunnel, so it differs from the same line ending in `->->`.
pub proof fn law_divert_line_ending_in_arrow(input: Seq<char>)
    requires
        arrow().is_suffix_of(spec_trim(input)),
        !tunnel_return().is_suffix_of(spec_trim(input)),
        !is_tunnel_onwards_with_args(spec_trim(input)),
    ensures
        spec_parse_divert_line(input) matches Ok(ns) ==> ns.len() >= 1
            && forall|i: int| 0 <= i < ns.len() ==> #[trigger] ns[i] is TunnelDivert,
{
    reveal(spec_parse_divert_line);
    let t = spec_trim(input);
    assert(t != tunnel_return()) by {
        if t == tunnel_return() {
            assert(tunnel_return().is_suffix_of(t)) by {
                assert(t.subrange(t.len() - 4, t.len() as int) =~= t);
            }
        }
    }
    lemma_tunnel_nodes_shape(spec_split_top_level_divert_segments(t));
}


/// A divert line whose trimmed text does not end in `->` (and is not
/// `->-> target(args)`) ends in a divert: its last node is a `Divert`, and
/// every node before it is a tunnel call (`-> a -> b` calls `a`, then goes
/// to `b`).
pub proof fn law_divert_line_ending_in_target(input: Seq<char>)
    requires
        !arrow().is_suffix_of(spec_trim(input)),
        !is_tunnel_onwards_with_args(spec_trim(input)),
    ensures
        spec_parse_divert_line(input) matches Ok(ns) ==> ns.len() >= 1
            && ns.last() is Divert
            && forall|i: int| 0 <= i < ns.len() - 1 ==> #[trigger] ns[i] is TunnelDivert,
{
    reveal(spec_parse_divert_line);
    let t = spec_trim(input);
    assert(!tunnel_return().is_suffix_of(t)) by {
        if tunnel_return().is_suffix_of(t) {
            assert(t.subrange(t.len() - 2, t.len() as int) =~= t.subrange(t.len() - 4, t.len() as int).subrange(2, 4));
            assert(arrow().is_suffix_of(t));
        }
    }
    assert(t != tunnel_return());
    let segs = spec_split_top_level_divert_segments(t);
    lemma_tunnel_nodes_shape(segs.drop_last());
    if let Ok(ns) = spec_parse_divert_line(input) {
        if segs.len() > 1 {
            let tn = spec_tunnel_nodes(segs.drop_last())->Ok_0;
            assert forall|i: int| 0 <= i < ns.len() - 1 implies #[trigger] ns[i] is TunnelDivert by {
                assert(ns[i] == tn[i]);
            }
        }
    }
}

} // verus!
