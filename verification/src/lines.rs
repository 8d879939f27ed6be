//! Splitting source text into lines, with comments and indentation.
use vstd::prelude::*;
use crate::ast::Model;
use crate::text::{
    chars_of, copy, lemma_find_char_first, lemma_find_char_none, slice_of, spec_find, spec_is_whitespace,
    spec_trim_end, take, trim_end,
};

verus! {

/// One physical line of source, comment-stripped.
#[derive(Debug, PartialEq)]
pub struct Line {
    pub content: Vec<char>,
    pub indent: usize,
    pub had_newline: bool,
}

pub struct SpecLine {
    pub content: Seq<char>,
    pub indent: nat,
    pub had_newline: bool,
}

impl Model for Line {
    type M = SpecLine;

    open spec fn model(&self) -> SpecLine {
        SpecLine { content: self.content@, indent: self.indent as nat, had_newline: self.had_newline }
    }
}

pub open spec fn lines_model(s: Seq<Line>) -> Seq<SpecLine> {
    s.map_values(|l: Line| l.model())
}

impl Model for Vec<Line> {
    type M = Seq<SpecLine>;

    open spec fn model(&self) -> Seq<SpecLine> {
        lines_model(self@)
    }
}

/// Tab stops for indentation are every four columns.
pub open spec fn tab_advance(cols: nat) -> nat {
    (4 - cols % 4) as nat
}

/// Indentation width of `s[i..]` given `cols` columns already counted: spaces
/// count one column and tabs move to the next multiple of four.
pub open spec fn spec_indent_from(s: Seq<char>, i: int, cols: nat) -> nat
    decreases s.len() - i,
{
    if i < 0 || i >= s.len() {
        cols
    } else if s[i] == ' ' {
        spec_indent_from(s, i + 1, cols + 1)
    } else if s[i] == '\t' {
        spec_indent_from(s, i + 1, cols + tab_advance(cols))
    } else {
        cols
    }
}

pub open spec fn spec_indent(s: Seq<char>) -> nat {
    spec_indent_from(s, 0, 0)
}

proof fn lemma_indent_bound(s: Seq<char>, i: int, cols: nat)
    requires
        0 <= i <= s.len(),
    ensures
        spec_indent_from(s, i, cols) <= cols + 4 * (s.len() - i),
    decreases s.len() - i,
{
    if i < s.len() {
        if s[i] == ' ' {
            lemma_indent_bound(s, i + 1, cols + 1);
        } else if s[i] == '\t' {
            lemma_indent_bound(s, i + 1, cols + tab_advance(cols));
        }
    }
}

proof fn lemma_indent_grows(s: Seq<char>, i: int, cols: nat)
    ensures
        cols <= spec_indent_from(s, i, cols),
    decreases s.len() - i,
{
    if 0 <= i < s.len() {
        if s[i] == ' ' {
            lemma_indent_grows(s, i + 1, cols + 1);
        } else if s[i] == '\t' {
            lemma_indent_grows(s, i + 1, cols + tab_advance(cols));
        }
    }
}

/// Indentation width of a line's leading spaces and tabs. The width fits
/// in a `usize` (counting it would overflow otherwise).
pub fn count_indent_columns(content: &[char]) -> (n: usize)
    requires
        spec_indent(content@) <= usize::MAX,
    ensures
        n == spec_indent(content@),
{
    let mut columns: usize = 0;
    let mut i: usize = 0;
    while i < content.len() && (content[i] == ' ' || content[i] == '\t')
        invariant
            i <= content.len(),
            spec_indent(content@) <= usize::MAX,
            spec_indent(content@) == spec_indent_from(content@, i as int, columns as nat),
        decreases content.len() - i,
    {
        proof {
            if content@[i as int] == ' ' {
                lemma_indent_grows(content@, i + 1, (columns + 1) as nat);
            } else {
                lemma_indent_grows(content@, i + 1, (columns as nat + tab_advance(columns as nat)) as nat);
            }
        }
        if content[i] == ' ' {
            columns = columns + 1;
        } else {
            let offset = columns % 4;
            columns = columns + (4 - offset);
        }
        i = i + 1;
    }
    columns
}

/// The line with a trailing `// comment` removed (outside string literals),
/// scanning from index `i` with `in_string` telling whether a `"` is open.
pub open spec fn spec_comment_scan(s: Seq<char>, i: int, in_string: bool) -> Seq<char>
    decreases s.len() - i,
{
    if i < 0 || i >= s.len() {
        s
    } else if s[i] == '"' {
        spec_comment_scan(s, i + 1, !in_string)
    } else if s[i] == '/' && !in_string && i + 1 < s.len() && s[i + 1] == '/' {
        spec_trim_end(s.take(i))
    } else {
        spec_comment_scan(s, i + 1, in_string)
    }
}

pub open spec fn spec_strip_inline_comment(s: Seq<char>) -> Seq<char> {
    spec_comment_scan(s, 0, false)
}

/// Strips a trailing `// comment`, respecting string literals.
pub fn strip_inline_comment(line: &[char]) -> (r: Vec<char>)
    ensures
        r@ == spec_strip_inline_comment(line@),
{
    let mut in_string = false;
    let mut i: usize = 0;
    while i < line.len()
        invariant
            i <= line.len(),
            spec_strip_inline_comment(line@) == spec_comment_scan(line@, i as int, in_string),
        decreases line.len() - i,
    {
        if line[i] == '"' {
            in_string = !in_string;
        } else if line[i] == '/' && !in_string && i + 1 < line.len() && line[i + 1] == '/' {
            let head = take(line, i);
            return trim_end(&head);
        }
        i = i + 1;
    }
    copy(line)
}

/// First index `t >= j` just past a closing `*/`, or the end of `s`.
pub open spec fn spec_comment_end(s: Seq<char>, j: int) -> int
    decreases s.len() - j,
{
    if j < 0 || j >= s.len() {
        s.len() as int
    } else if s[j] == '*' && j + 1 < s.len() && s[j + 1] == '/' {
        j + 2
    } else {
        spec_comment_end(s, j + 1)
    }
}

pub proof fn lemma_comment_end_bounds(s: Seq<char>, j: int)
    requires
        0 <= j,
    ensures
        spec_comment_end(s, j) <= s.len(),
        j <= s.len() ==> j <= spec_comment_end(s, j),
    decreases s.len() - j,
{
    if j < s.len() && !(s[j] == '*' && j + 1 < s.len() && s[j + 1] == '/') {
        lemma_comment_end_bounds(s, j + 1);
    }
}

/// `s[i..]` with every `/* ... */` block comment removed.
pub open spec fn spec_strip_block_from(s: Seq<char>, i: int) -> Seq<char>
    decreases s.len() - i,
{
    if i < 0 || i >= s.len() {
        Seq::empty()
    } else if s[i] == '/' && i + 1 < s.len() && s[i + 1] == '*' {
        proof {
            lemma_comment_end_bounds(s, i + 2);
        }
        spec_strip_block_from(s, spec_comment_end(s, i + 2))
    } else {
        seq![s[i]] + spec_strip_block_from(s, i + 1)
    }
}

pub open spec fn spec_strip_block_comments(s: Seq<char>) -> Seq<char> {
    spec_strip_block_from(s, 0)
}

/// Removes all `/* ... */` block comments.
pub fn strip_block_comments(s: &[char]) -> (r: Vec<char>)
    ensures
        r@ == spec_strip_block_comments(s@),
{
    let mut result: Vec<char> = Vec::new();
    let mut i: usize = 0;
    let n = s.len();
    while i < n
        invariant
            n == s.len(),
            i <= n,
            result@ + spec_strip_block_from(s@, i as int) == spec_strip_block_comments(s@),
        decreases n - i,
    {
        if s[i] == '/' && i + 1 < n && s[i + 1] == '*' {
            let mut j = i + 2;
            proof {
                lemma_comment_end_bounds(s@, j as int);
            }
            while j < n && !(s[j] == '*' && j + 1 < n && s[j + 1] == '/')
                invariant
                    n == s.len(),
                    i + 2 <= j <= n,
                    spec_comment_end(s@, i + 2) == spec_comment_end(s@, j as int),
                decreases n - j,
            {
                j = j + 1;
            }
            let end = if j < n { j + 2 } else { n };
            proof {
                lemma_comment_end_bounds(s@, i + 2);
            }
            i = end;
        } else {
            let ghost before = result@;
            result.push(s[i]);
            assert(result@ + spec_strip_block_from(s@, i + 1) =~= before + (seq![s@[i as int]]
                + spec_strip_block_from(s@, i + 1)));
            i = i + 1;
        }
    }
    assert(result@ + spec_strip_block_from(s@, i as int) =~= result@);
    result
}

/// A line built from its raw text: comment stripped, indentation measured.
pub open spec fn spec_make_line(raw: Seq<char>, had_newline: bool) -> SpecLine {
    let content = spec_strip_inline_comment(raw);
    SpecLine { content, indent: spec_indent(content), had_newline }
}

/// The lines of `s`: the pieces of `s` ended by `'\n'` (the last one may
/// lack it), each stripped of its `// comment` and measured.  A final piece
/// without a newline counts as ending one unless it is empty once stripped.
pub open spec fn spec_split_lines(s: Seq<char>) -> Seq<SpecLine>
    decreases s.len(),
{
    if s.len() == 0 {
        Seq::empty()
    } else {
        match spec_find(s, seq!['\n']) {
            Some(k) => if 0 <= k < s.len() {
                seq![spec_make_line(s.take(k), true)] + spec_split_lines(s.skip(k + 1))
            } else {
                Seq::empty()
            },
            None => {
                let content = spec_strip_inline_comment(s);
                seq![SpecLine { content, indent: spec_indent(content), had_newline: content.len() > 0 }]
            },
        }
    }
}

proof fn lemma_strip_comment_len(s: Seq<char>, i: int, in_string: bool)
    ensures
        spec_comment_scan(s, i, in_string).len() <= s.len(),
    decreases s.len() - i,
{
    if i < 0 || i >= s.len() {
    } else if s[i] == '"' {
        lemma_strip_comment_len(s, i + 1, !in_string);
    } else if s[i] == '/' && !in_string && i + 1 < s.len() && s[i + 1] == '/' {
        lemma_trim_end_len(s.take(i));
    } else {
        lemma_strip_comment_len(s, i + 1, in_string);
    }
}

pub proof fn lemma_trim_end_len(s: Seq<char>)
    ensures
        spec_trim_end(s).len() <= s.len(),
    decreases s.len(),
{
    if s.len() > 0 && spec_is_whitespace(s.last()) {
        lemma_trim_end_len(s.drop_last());
    }
}

fn make_line(raw: &[char], had_newline: bool) -> (l: Line)
    requires
        spec_make_line(raw@, had_newline).indent <= usize::MAX,
    ensures
        l.model() == spec_make_line(raw@, had_newline),
{
    let content = strip_inline_comment(raw);
    proof {
        lemma_strip_comment_len(raw@, 0, false);
    }
    let indent = count_indent_columns(&content);
    Line { content, indent, had_newline }
}

/// Every line of `s` is indented by a width that fits in a `usize`.
pub open spec fn spec_indents_fit(s: Seq<char>) -> bool {
    forall|k: int| 0 <= k < spec_split_lines(s).len() ==> #[trigger] spec_split_lines(s)[k].indent <= usize::MAX
}

/// The lines of a source given as characters.
pub fn split_line_chars(source: &[char]) -> (lines: Vec<Line>)
    requires
        spec_indents_fit(source@),
    ensures
        lines.model() == spec_split_lines(source@),
{
    let mut lines: Vec<Line> = Vec::new();
    let mut start: usize = 0;
    let n = source.len();
    assert(source@.skip(0) =~= source@);
    while start < n
        invariant
            n == source.len(),
            spec_indents_fit(source@),
            start <= n,
            lines.model() + spec_split_lines(source@.skip(start as int)) == spec_split_lines(
                source@,
            ),
        decreases n - start,
    {
        let ghost rest = source@.skip(start as int);
        let mut j = start;
        while j < n && source[j] != '\n'
            invariant
                start <= j <= n == source.len(),
                forall|t: int| start <= t < j ==> source@[t] != '\n',
            decreases n - j,
        {
            j = j + 1;
        }
        let raw = slice_of(source, start, j);
        let ghost before = lines.model();
        if j < n {
            proof {
                lemma_find_char_first(rest, '\n', 0, j - start);
                assert(raw@ =~= rest.take(j - start));
                assert(rest.skip(j - start + 1) =~= source@.skip(j + 1));
                let sl = spec_split_lines(rest);
                assert(sl[0] == spec_make_line(raw@, true));
                assert((lines.model() + sl)[lines.model().len() as int] == sl[0]);
                assert(spec_split_lines(source@)[lines.model().len() as int].indent <= usize::MAX);
            }
            let line = make_line(&raw, true);
            lines.push(line);
            assert(lines.model() =~= before.push(line.model()));
            assert(lines.model() + spec_split_lines(source@.skip(j + 1)) =~= before + (seq![
                line.model(),
            ] + spec_split_lines(rest.skip(j - start + 1))));
            start = j + 1;
        } else {
            proof {
                lemma_find_char_none(rest, '\n', 0);
                assert(raw@ =~= rest);
                lemma_strip_comment_len(raw@, 0, false);
                let sl = spec_split_lines(rest);
                assert(sl[0].indent == spec_indent(spec_strip_inline_comment(raw@)));
                assert((lines.model() + sl)[lines.model().len() as int] == sl[0]);
                assert(spec_split_lines(source@)[lines.model().len() as int].indent <= usize::MAX);
            }
            let content = strip_inline_comment(&raw);
            let indent = count_indent_columns(&content);
            let had_newline = content.len() > 0;
            let line = Line { content, indent, had_newline };
            lines.push(line);
            assert(lines.model() =~= before.push(line.model()));
            assert(source@.skip(n as int) =~= Seq::<char>::empty());
            start = n;
        }
    }
    assert(source@.skip(n as int) =~= Seq::<char>::empty());
    assert(lines.model() + spec_split_lines(source@.skip(n as int)) =~= lines.model());
    lines
}

/// Splits source text into lines (see `spec_split_lines`).
pub fn split_lines(source: &str) -> (lines: Vec<Line>)
    requires
        spec_indents_fit(source@),
    ensures
        lines.model() == spec_split_lines(source@),
{
    let chars = chars_of(source);
    split_line_chars(&chars)
}

} // verus!
