//! The text of a choice line: `* (label) {cond} start [choice only] end -> target`.
use vstd::prelude::*;
use crate::ast::{
    agrees, conditions_model, dynamic_strings_model, Condition, Divert, DynamicString, Model,
    SpecCondition, SpecDivert, SpecDynamicString,
};
use crate::content::{spec_split_text_and_tags, split_text_and_tags_chars};
use crate::error::{CompilerError, ErrorKind};
use crate::inline::{
    arrow, parse_condition_chars, parse_divert_chars, spec_parse_condition,
    spec_parse_divert, spec_split_inline_choice_divert, spec_split_inline_divert,
    split_inline_choice_divert_chars, split_inline_divert_chars,
};
use crate::text::{
    chars_of, concat, copy, find, find_char, is_ascii_punctuation, is_whitespace, skip, slice_of,
    spec_find, spec_is_ascii_punctuation, spec_is_whitespace, spec_strip_prefix, spec_trim,
    spec_trim_end, spec_trim_start, starts_with, string_of, strip_prefix, take, trim, trim_end,
    trim_start,
};

verus! {

/// What the text of a choice line says: the text shown as the choice, the
/// text printed once it is chosen, the parts before and inside `[...]`, an
/// inline divert target and the tags of each part.
#[derive(Debug, PartialEq)]
pub struct ParsedChoiceText {
    pub display_text: String,
    pub selected_text: Option<String>,
    pub start_text: String,
    pub choice_only_text: String,
    pub has_start_content: bool,
    pub has_choice_only_content: bool,
    pub inline_target: Option<Divert>,
    pub start_tags: Vec<DynamicString>,
    pub choice_only_tags: Vec<DynamicString>,
    pub selected_tags: Vec<DynamicString>,
}

pub struct SpecChoiceText {
    pub display_text: Seq<char>,
    pub selected_text: Option<Seq<char>>,
    pub start_text: Seq<char>,
    pub choice_only_text: Seq<char>,
    pub has_start_content: bool,
    pub has_choice_only_content: bool,
    pub inline_target: Option<SpecDivert>,
    pub start_tags: Seq<SpecDynamicString>,
    pub choice_only_tags: Seq<SpecDynamicString>,
    pub selected_tags: Seq<SpecDynamicString>,
}

impl Model for ParsedChoiceText {
    type M = SpecChoiceText;

    open spec fn model(&self) -> SpecChoiceText {
        SpecChoiceText {
            display_text: self.display_text@,
            selected_text: match self.selected_text {
                Some(t) => Some(t@),
                None => None,
            },
            start_text: self.start_text@,
            choice_only_text: self.choice_only_text@,
            has_start_content: self.has_start_content,
            has_choice_only_content: self.has_choice_only_content,
            inline_target: match self.inline_target {
                Some(d) => Some(d.model()),
                None => None,
            },
            start_tags: dynamic_strings_model(self.start_tags@),
            choice_only_tags: dynamic_strings_model(self.choice_only_tags@),
            selected_tags: dynamic_strings_model(self.selected_tags@),
        }
    }
}

/// The divert after a leading `->`, none when nothing follows it.
pub open spec fn spec_target_after(target: Seq<char>) -> Result<Option<SpecDivert>, ErrorKind> {
    let tt = spec_trim(target);
    if tt.len() == 0 {
        Ok(None)
    } else {
        match spec_parse_divert(tt) {
            Err(k) => Err(k),
            Ok(d) => Ok(Some(d)),
        }
    }
}

/// `* -> target`: a choice with no text.
pub open spec fn spec_choice_text_target(target: Seq<char>) -> Result<SpecChoiceText, ErrorKind> {
    match spec_target_after(target) {
        Err(k) => Err(k),
        Ok(it) => Ok(SpecChoiceText {
            display_text: Seq::empty(),
            selected_text: None,
            start_text: Seq::empty(),
            choice_only_text: Seq::empty(),
            has_start_content: false,
            has_choice_only_content: false,
            inline_target: it,
            start_tags: Seq::empty(),
            choice_only_tags: Seq::empty(),
            selected_tags: Seq::empty(),
        }),
    }
}

/// `* [choice only] after`, given the text after the `[`.
pub open spec fn spec_choice_text_bracketed(choice_only: Seq<char>) -> Result<SpecChoiceText, ErrorKind> {
    match spec_find(choice_only, seq![']']) {
        None => Err(ErrorKind::InvalidSource),
        Some(end) => {
            let label = spec_trim(choice_only.take(end));
            let after = spec_trim_start(choice_only.skip(end + 1));
            match spec_split_text_and_tags(label) {
                Err(k) => Err(k),
                Ok((cot, cotags)) => if after.len() == 0 || arrow().is_prefix_of(after) {
                    let it = match spec_strip_prefix(after, arrow()) {
                        Some(x) => match spec_parse_divert(spec_trim(x)) {
                            Err(k) => Err(k),
                            Ok(d) => Ok(Some(d)),
                        },
                        None => Ok(None),
                    };
                    match it {
                        Err(k) => Err(k),
                        Ok(it) => Ok(SpecChoiceText {
                            display_text: cot,
                            selected_text: None,
                            start_text: Seq::empty(),
                            choice_only_text: cot,
                            has_start_content: false,
                            has_choice_only_content: true,
                            inline_target: it,
                            start_tags: Seq::empty(),
                            choice_only_tags: cotags,
                            selected_tags: Seq::empty(),
                        }),
                    }
                } else {
                    match spec_split_inline_choice_divert(after) {
                        Err(k) => Err(k),
                        Ok((sel, it)) => match spec_split_text_and_tags(sel) {
                            Err(k) => Err(k),
                            Ok((st, stags)) => Ok(SpecChoiceText {
                                display_text: cot,
                                selected_text: Some(st),
                                start_text: Seq::empty(),
                                choice_only_text: cot,
                                has_start_content: false,
                                has_choice_only_content: true,
                                inline_target: it,
                                start_tags: Seq::empty(),
                                choice_only_tags: cotags,
                                selected_tags: stags,
                            }),
                        },
                    }
                },
            }
        },
    }
}

/// Whether a suffix is glued to the text before it: it starts with ASCII
/// punctuation other than the characters listed.
pub open spec fn glued(s: Seq<char>, also_not: Seq<char>) -> bool {
    s.len() > 0 && spec_is_ascii_punctuation(s[0]) && s[0] != '"' && s[0] != '\'' && !also_not.contains(s[0])
}

/// `* start [] suffix`: the choice text with its selected text.
pub open spec fn spec_choice_text_suppressed(before: Seq<char>, after: Seq<char>) -> Result<SpecChoiceText, ErrorKind> {
    let display = spec_trim_end(before);
    let raw = spec_trim_start(after);
    let had_space = match spec_split_inline_divert(raw) {
        Some((text, _)) => text.len() > 0 && spec_is_whitespace(text.last()),
        None => false,
    };
    match spec_split_inline_choice_divert(raw) {
        Err(k) => Err(k),
        Ok((suffix0, it)) => {
            let suffix = if it is Some && had_space { suffix0.push(' ') } else { suffix0 };
            match spec_split_text_and_tags(display) {
                Err(k) => Err(k),
                Ok((start_text, start_tags)) => {
                    let selected = if suffix.len() == 0 {
                        display
                    } else if glued(suffix, Seq::empty()) {
                        display + suffix
                    } else {
                        display + seq![' '] + suffix
                    };
                    match spec_split_text_and_tags(selected) {
                        Err(k) => Err(k),
                        Ok((sel_text, sel_tags)) => Ok(SpecChoiceText {
                            display_text: start_text,
                            selected_text: Some(sel_text),
                            start_text: start_text,
                            choice_only_text: Seq::empty(),
                            has_start_content: true,
                            has_choice_only_content: false,
                            inline_target: it,
                            start_tags: start_tags,
                            choice_only_tags: Seq::empty(),
                            selected_tags: sel_tags,
                        }),
                    }
                },
            }
        },
    }
}

/// The closing quotes and brackets among the ASCII punctuation that `s`
/// starts with.
pub open spec fn spec_closing_punct(s: Seq<char>) -> Seq<char>
    decreases s.len(),
{
    if s.len() == 0 || !spec_is_ascii_punctuation(s[0]) {
        Seq::empty()
    } else if s[0] == '\'' || s[0] == '"' || s[0] == ')' || s[0] == ']' {
        seq![s[0]] + spec_closing_punct(s.drop_first())
    } else {
        spec_closing_punct(s.drop_first())
    }
}

/// `* start [choice only] end`, with `[` at `open` and `]` at `close`.
pub open spec fn spec_choice_text_inner(t: Seq<char>, open: int, close: int) -> Result<SpecChoiceText, ErrorKind> {
    let start = t.take(open);
    let choice_only = spec_trim(t.subrange(open + 1, close));
    let end0 = spec_trim_start(t.skip(close + 1));
    match spec_split_inline_choice_divert(end0) {
        Err(k) => Err(k),
        Ok((end, it)) => match spec_split_text_and_tags(start) {
            Err(k) => Err(k),
            Ok((start_text, start_tags)) => match spec_split_text_and_tags(choice_only) {
                Err(k) => Err(k),
                Ok((cot0, cotags)) => match spec_split_text_and_tags(end) {
                    Err(k) => Err(k),
                    Ok((end_text, end_tags)) => {
                        let ts = spec_trim_start(end);
                        let suffix = if !(ts.len() > 0 && ts[0] == '{') { spec_closing_punct(end_text) } else { Seq::empty() };
                        let cot = cot0 + suffix;
                        let sel = if end_text.len() == 0 {
                            spec_trim_end(start_text)
                        } else if spec_trim(start_text).len() == 0 {
                            end_text
                        } else if glued(end_text, seq!['{']) {
                            spec_trim_end(start_text) + end_text
                        } else {
                            spec_trim_end(start_text) + seq![' '] + end_text
                        };
                        Ok(SpecChoiceText {
                            display_text: start_text + cot,
                            selected_text: Some(sel),
                            start_text: start_text,
                            choice_only_text: cot,
                            has_start_content: spec_trim(start).len() > 0,
                            has_choice_only_content: true,
                            inline_target: it,
                            start_tags: start_tags,
                            choice_only_tags: cotags,
                            selected_tags: start_tags + end_tags,
                        })
                    },
                },
            },
        },
    }
}

/// `* text -> target`: plain choice text.
pub open spec fn spec_choice_text_plain(t: Seq<char>) -> Result<SpecChoiceText, ErrorKind> {
    match spec_split_inline_choice_divert(t) {
        Err(k) => Err(k),
        Ok((tt, it)) => match spec_split_text_and_tags(tt) {
            Err(k) => Err(k),
            Ok((st, stags)) => Ok(SpecChoiceText {
                display_text: st,
                selected_text: if st.len() == 0 { None } else { Some(st) },
                start_text: st,
                choice_only_text: Seq::empty(),
                has_start_content: st.len() > 0,
                has_choice_only_content: false,
                inline_target: it,
                start_tags: stags,
                choice_only_tags: Seq::empty(),
                selected_tags: Seq::empty(),
            }),
        },
    }
}

/// The text of a choice after its markers, label and conditions; a leading
/// `\ ` is dropped.
#[verifier::opaque]
pub open spec fn spec_parse_choice_text(input: Seq<char>) -> Result<SpecChoiceText, ErrorKind> {
    let t0 = spec_trim(input);
    let t = match spec_strip_prefix(t0, seq!['\\', ' ']) {
        Some(r) => spec_trim_start(r),
        None => t0,
    };
    match spec_strip_prefix(t, arrow()) {
        Some(target) => spec_choice_text_target(target),
        None => if t.len() > 0 && t[0] == '[' {
            spec_choice_text_bracketed(t.skip(1))
        } else {
            match spec_find(t, seq!['[', ']']) {
                Some(k) => spec_choice_text_suppressed(t.take(k), t.skip(k + 2)),
                None => match spec_find(t, seq!['[']) {
                    Some(open) => match spec_find(t.skip(open + 1), seq![']']) {
                        Some(cr) => spec_choice_text_inner(t, open, open + 1 + cr),
                        None => spec_choice_text_plain(t),
                    },
                    None => spec_choice_text_plain(t),
                },
            }
        },
    }
}

/// What a choice text shows: its start text followed by its choice-only
/// text. A choice with no selected text has no start text either.
pub open spec fn choice_text_shape(t: SpecChoiceText) -> bool {
    &&& t.display_text == t.start_text + t.choice_only_text
    &&& t.selected_text is None ==> t.start_text.len() == 0
}

/// A choice's display text is its start text followed by its choice-only
/// text (e.g. `Hello [back] you` shows `Hello back`, starts with `Hello `,
/// offers `back`); when it has no selected text it has no start text.
pub proof fn law_choice_display_is_start_then_choice_only(input: Seq<char>)
    ensures
        spec_parse_choice_text(input) matches Ok(t) ==> choice_text_shape(t),
{
    reveal(spec_parse_choice_text);
    let t0 = spec_trim(input);
    let t = match spec_strip_prefix(t0, seq!['\\', ' ']) {
        Some(r) => spec_trim_start(r),
        None => t0,
    };
    match spec_strip_prefix(t, arrow()) {
        Some(target) => {
            assert(Seq::<char>::empty() + Seq::<char>::empty() =~= Seq::<char>::empty());
        },
        None => if t.len() > 0 && t[0] == '[' {
            if let Ok(ct) = spec_choice_text_bracketed(t.skip(1)) {
                assert(Seq::<char>::empty() + ct.choice_only_text =~= ct.choice_only_text);
            }
        } else {
            match spec_find(t, seq!['[', ']']) {
                Some(k) => {
                    if let Ok(ct) = spec_choice_text_suppressed(t.take(k), t.skip(k + 2)) {
                        assert(ct.start_text + Seq::<char>::empty() =~= ct.start_text);
                    }
                },
                None => {
                    if let Ok(ct) = spec_choice_text_plain(t) {
                        assert(ct.start_text + Seq::<char>::empty() =~= ct.start_text);
                    }
                },
            }
        },
    }
}

fn no_tags() -> (v: Vec<DynamicString>)
    ensures
        dynamic_strings_model(v@) == Seq::<SpecDynamicString>::empty(),
{
    let v: Vec<DynamicString> = Vec::new();
    assert(dynamic_strings_model(v@) =~= Seq::<SpecDynamicString>::empty());
    v
}

fn target_after(target: &[char]) -> (r: Result<Option<Divert>, CompilerError>)
    ensures
        match (r, spec_target_after(target@)) {
            (Ok(None), Ok(None)) => true,
            (Ok(Some(d)), Ok(Some(sd))) => d.model() == sd,
            (Err(e), Err(k)) => e.kind == k,
            _ => false,
        },
{
    let tt = trim(target);
    if tt.len() == 0 {
        Ok(None)
    } else {
        match parse_divert_chars(&tt) {
            Err(e) => Err(e),
            Ok(d) => Ok(Some(d)),
        }
    }
}

fn choice_text_target(target: &[char]) -> (r: Result<ParsedChoiceText, CompilerError>)
    ensures
        agrees(r, spec_choice_text_target(target@)),
{
    let it = match target_after(target) {
        Err(e) => return Err(e),
        Ok(it) => it,
    };
    Ok(ParsedChoiceText {
        display_text: String::new(),
        selected_text: None,
        start_text: String::new(),
        choice_only_text: String::new(),
        has_start_content: false,
        has_choice_only_content: false,
        inline_target: it,
        start_tags: no_tags(),
        choice_only_tags: no_tags(),
        selected_tags: no_tags(),
    })
}

fn choice_text_bracketed(choice_only: &[char]) -> (r: Result<ParsedChoiceText, CompilerError>)
    ensures
        agrees(r, spec_choice_text_bracketed(choice_only@)),
{
    let end = match find_char(choice_only, ']') {
        None => return Err(CompilerError::invalid_source("choice label is missing closing ']'".to_owned())),
        Some(e) => e,
    };
    proof {
        crate::text::lemma_find_from_bounds(choice_only@, seq![']'], 0);
    }
    let label = trim(&take(choice_only, end));
    let after = trim_start(&skip(choice_only, end + 1));
    let (cot, cotags) = match split_text_and_tags_chars(&label) {
        Err(e) => return Err(e),
        Ok(p) => p,
    };
    let arrow_v = vec!['-', '>'];
    assert(arrow_v@ =~= arrow());
    if after.len() == 0 || starts_with(&after, &arrow_v) {
        let it = match strip_prefix(&after, &arrow_v) {
            Some(x) => match parse_divert_chars(&trim(&x)) {
                Err(e) => return Err(e),
                Ok(d) => Some(d),
            },
            None => None,
        };
        return Ok(ParsedChoiceText {
            display_text: string_of(&cot),
            selected_text: None,
            start_text: String::new(),
            choice_only_text: string_of(&cot),
            has_start_content: false,
            has_choice_only_content: true,
            inline_target: it,
            start_tags: no_tags(),
            choice_only_tags: cotags,
            selected_tags: no_tags(),
        });
    }
    let (sel, it) = match split_inline_choice_divert_chars(&after) {
        Err(e) => return Err(e),
        Ok(p) => p,
    };
    let (st, stags) = match split_text_and_tags_chars(&sel) {
        Err(e) => return Err(e),
        Ok(p) => p,
    };
    Ok(ParsedChoiceText {
        display_text: string_of(&cot),
        selected_text: Some(string_of(&st)),
        start_text: String::new(),
        choice_only_text: string_of(&cot),
        has_start_content: false,
        has_choice_only_content: true,
        inline_target: it,
        start_tags: no_tags(),
        choice_only_tags: cotags,
        selected_tags: stags,
    })
}

fn is_glued(s: &[char], brace_too: bool) -> (r: bool)
    ensures
        brace_too ==> r == glued(s@, seq!['{']),
        !brace_too ==> r == glued(s@, Seq::empty()),
{
    if s.len() == 0 {
        return false;
    }
    let c = s[0];
    proof {
        if brace_too {
            assert(seq!['{'].contains(c) <==> c == '{') by {
                if c == '{' {
                    assert(seq!['{'][0] == c);
                }
            }
        } else {
            assert(!Seq::<char>::empty().contains(c));
        }
    }
    is_ascii_punctuation(c) && c != '"' && c != '\'' && !(brace_too && c == '{')
}

fn choice_text_suppressed(before: &[char], after: &[char]) -> (r: Result<ParsedChoiceText, CompilerError>)
    ensures
        agrees(r, spec_choice_text_suppressed(before@, after@)),
{
    let display = trim_end(before);
    let raw = trim_start(after);
    let had_space = match split_inline_divert_chars(&raw) {
        Some((text, _)) => text.len() > 0 && is_whitespace(text[text.len() - 1]),
        None => false,
    };
    let (suffix0, it) = match split_inline_choice_divert_chars(&raw) {
        Err(e) => return Err(e),
        Ok(p) => p,
    };
    let ghost s0 = suffix0@;
    let mut suffix = suffix0;
    if it.is_some() && had_space {
        suffix.push(' ');
    }
    assert(suffix@ == if it is Some && had_space { s0.push(' ') } else { s0 });
    let (start_text, start_tags) = match split_text_and_tags_chars(&display) {
        Err(e) => return Err(e),
        Ok(p) => p,
    };
    let selected = if suffix.len() == 0 {
        copy(&display)
    } else if is_glued(&suffix, false) {
        concat(&display, &suffix)
    } else {
        let mut d = copy(&display);
        d.push(' ');
        assert(d@ =~= display@ + seq![' ']);
        concat(&d, &suffix)
    };
    let (sel_text, sel_tags) = match split_text_and_tags_chars(&selected) {
        Err(e) => return Err(e),
        Ok(p) => p,
    };
    Ok(ParsedChoiceText {
        display_text: string_of(&start_text),
        selected_text: Some(string_of(&sel_text)),
        start_text: string_of(&start_text),
        choice_only_text: String::new(),
        has_start_content: true,
        has_choice_only_content: false,
        inline_target: it,
        start_tags,
        choice_only_tags: no_tags(),
        selected_tags: sel_tags,
    })
}

/// The closing quotes and brackets among the punctuation `s` starts with.
fn closing_punct(s: &[char]) -> (r: Vec<char>)
    ensures
        r@ == spec_closing_punct(s@),
{
    let mut r: Vec<char> = Vec::new();
    let mut i: usize = 0;
    assert(s@.skip(0) =~= s@);
    while i < s.len() && is_ascii_punctuation(s[i])
        invariant
            i <= s.len(),
            r@ + spec_closing_punct(s@.skip(i as int)) == spec_closing_punct(s@),
        decreases s.len() - i,
    {
        let c = s[i];
        let ghost rb = r@;
        assert(s@.skip(i as int).drop_first() =~= s@.skip(i + 1));
        if c == '\'' || c == '"' || c == ')' || c == ']' {
            r.push(c);
            assert(rb + (seq![c] + spec_closing_punct(s@.skip(i + 1))) =~= r@ + spec_closing_punct(s@.skip(i + 1)));
        }
        i = i + 1;
    }
    assert(spec_closing_punct(s@.skip(i as int)) =~= Seq::<char>::empty());
    assert(r@ + Seq::<char>::empty() =~= r@);
    r
}

fn choice_text_inner(t: &[char], open: usize, close: usize) -> (r: Result<ParsedChoiceText, CompilerError>)
    requires
        open < close < t.len(),
    ensures
        agrees(r, spec_choice_text_inner(t@, open as int, close as int)),
{
    let start = take(t, open);
    let choice_only = trim(&slice_of(t, open + 1, close));
    let end0 = trim_start(&skip(t, close + 1));
    let (end, it) = match split_inline_choice_divert_chars(&end0) {
        Err(e) => return Err(e),
        Ok(p) => p,
    };
    let (start_text, start_tags) = match split_text_and_tags_chars(&start) {
        Err(e) => return Err(e),
        Ok(p) => p,
    };
    let (cot0, cotags) = match split_text_and_tags_chars(&choice_only) {
        Err(e) => return Err(e),
        Ok(p) => p,
    };
    let (end_text, end_tags) = match split_text_and_tags_chars(&end) {
        Err(e) => return Err(e),
        Ok(p) => p,
    };
    let ts = trim_start(&end);
    let suffix = if !(ts.len() > 0 && ts[0] == '{') {
        closing_punct(&end_text)
    } else {
        Vec::new()
    };
    assert(!(ts@.len() > 0 && ts@[0] == '{') || suffix@ =~= Seq::<char>::empty());
    let cot = concat(&cot0, &suffix);
    let ste = trim_end(&start_text);
    let sel = if end_text.len() == 0 {
        ste
    } else if trim(&start_text).len() == 0 {
        end_text
    } else if is_glued(&end_text, true) {
        concat(&ste, &end_text)
    } else {
        let ghost sv = ste@;
        let mut d = ste;
        d.push(' ');
        assert(d@ =~= sv + seq![' ']);
        concat(&d, &end_text)
    };
    let has_start = trim(&start).len() > 0;
    let display = concat(&start_text, &cot);
    let (_, start_tags_again) = match split_text_and_tags_chars(&start) {
        Err(e) => return Err(e),
        Ok(p) => p,
    };
    let mut selected_tags = start_tags_again;
    let ghost sb = selected_tags@;
    let ghost eb = end_tags@;
    let mut end_tags = end_tags;
    selected_tags.append(&mut end_tags);
    proof {
        assert(selected_tags@ =~= sb + eb);
        lemma_dynamic_strings_concat(sb, eb);
    }
    Ok(ParsedChoiceText {
        display_text: string_of(&display),
        selected_text: Some(string_of(&sel)),
        start_text: string_of(&start_text),
        choice_only_text: string_of(&cot),
        has_start_content: has_start,
        has_choice_only_content: true,
        inline_target: it,
        start_tags,
        choice_only_tags: cotags,
        selected_tags,
    })
}

proof fn lemma_dynamic_strings_concat(a: Seq<DynamicString>, b: Seq<DynamicString>)
    ensures
        dynamic_strings_model(a + b) == dynamic_strings_model(a) + dynamic_strings_model(b),
    decreases b.len(),
{
    if b.len() == 0 {
        assert(a + b =~= a);
        assert(dynamic_strings_model(a) + dynamic_strings_model(b) =~= dynamic_strings_model(a));
    } else {
        lemma_dynamic_strings_concat(a, b.drop_last());
        assert((a + b).drop_last() =~= a + b.drop_last());
        assert((a + b).last() == b.last());
        assert(dynamic_strings_model(a) + dynamic_strings_model(b) =~= (dynamic_strings_model(a) + dynamic_strings_model(b.drop_last())).push(crate::ast::dynamic_string_model(b.last())));
    }
}

fn choice_text_plain(t: &[char]) -> (r: Result<ParsedChoiceText, CompilerError>)
    ensures
        agrees(r, spec_choice_text_plain(t@)),
{
    let (tt, it) = match split_inline_choice_divert_chars(t) {
        Err(e) => return Err(e),
        Ok(p) => p,
    };
    let (st, stags) = match split_text_and_tags_chars(&tt) {
        Err(e) => return Err(e),
        Ok(p) => p,
    };
    Ok(ParsedChoiceText {
        display_text: string_of(&st),
        selected_text: if st.len() == 0 { None } else { Some(string_of(&st)) },
        start_text: string_of(&st),
        choice_only_text: String::new(),
        has_start_content: st.len() > 0,
        has_choice_only_content: false,
        inline_target: it,
        start_tags: stags,
        choice_only_tags: no_tags(),
        selected_tags: no_tags(),
    })
}

/// Parses the text of a choice; see `spec_parse_choice_text`.
pub fn parse_choice_text_chars(input: &[char]) -> (r: Result<ParsedChoiceText, CompilerError>)
    ensures
        agrees(r, spec_parse_choice_text(input@)),
{
    proof {
        reveal(spec_parse_choice_text);
    }
    let t0 = trim(input);
    let esc = vec!['\\', ' '];
    assert(esc@ =~= seq!['\\', ' ']);
    let t = match strip_prefix(&t0, &esc) {
        Some(r) => trim_start(&r),
        None => t0,
    };
    let arrow_v = vec!['-', '>'];
    assert(arrow_v@ =~= arrow());
    if let Some(target) = strip_prefix(&t, &arrow_v) {
        return choice_text_target(&target);
    }
    if t.len() > 0 && t[0] == '[' {
        return choice_text_bracketed(&skip(&t, 1));
    }
    let empty_brackets = vec!['[', ']'];
    assert(empty_brackets@ =~= seq!['[', ']']);
    if let Some(k) = find(&t, &empty_brackets) {
        proof {
            crate::text::lemma_find_from_bounds(t@, seq!['[', ']'], 0);
        }
        return choice_text_suppressed(&take(&t, k), &skip(&t, k + 2));
    }
    if let Some(open) = find_char(&t, '[') {
        proof {
            crate::text::lemma_find_from_bounds(t@, seq!['['], 0);
        }
        let rest = skip(&t, open + 1);
        if let Some(cr) = find_char(&rest, ']') {
            proof {
                crate::text::lemma_find_from_bounds(rest@, seq![']'], 0);
            }
            return choice_text_inner(&t, open, open + 1 + cr);
        }
    }
    choice_text_plain(&t)
}

/// Parses the text of a choice line.
pub fn parse_choice_text(input: &str) -> (r: Result<ParsedChoiceText, CompilerError>)
    ensures
        agrees(r, spec_parse_choice_text(input@)),
{
    let chars = chars_of(input);
    parse_choice_text_chars(&chars)
}

// ---------------------------------------------------------------------------
// Label and conditions.
// ---------------------------------------------------------------------------

/// The `{condition}` prefixes of `rem`, and the text after them.
pub open spec fn spec_choice_conditions(rem: Seq<char>) -> Result<(Seq<SpecCondition>, Seq<char>), ErrorKind>
    decreases rem.len(),
{
    if rem.len() > 0 && rem[0] == '{' {
        let after = rem.skip(1);
        match spec_find(after, seq!['}']) {
            None => Err(ErrorKind::InvalidSource),
            Some(end) => if 0 <= end < after.len() {
                match spec_parse_condition(spec_trim(after.take(end))) {
                    Err(k) => Err(k),
                    Ok(c) => {
                        let next = spec_trim_start(after.skip(end + 1));
                        if next.len() < rem.len() {
                            match spec_choice_conditions(next) {
                                Err(k) => Err(k),
                                Ok((cs, r)) => Ok((seq![c] + cs, r)),
                            }
                        } else {
                            Err(ErrorKind::InvalidSource)
                        }
                    },
                }
            } else {
                Err(ErrorKind::InvalidSource)
            },
        }
    } else {
        Ok((Seq::empty(), rem))
    }
}

/// A choice's `(label)` and `{condition}` prefixes, and the text after
/// them.
#[verifier::opaque]
pub open spec fn spec_parse_choice_prefixes(input: Seq<char>) -> Result<(Option<Seq<char>>, Seq<SpecCondition>, Seq<char>), ErrorKind> {
    let r0 = spec_trim_start(input);
    let labelled: Result<(Option<Seq<char>>, Seq<char>), ErrorKind> = if r0.len() > 0 && r0[0] == '(' {
        let after = r0.skip(1);
        match spec_find(after, seq![')']) {
            None => Err(ErrorKind::InvalidSource),
            Some(end) => Ok((Some(spec_trim(after.take(end))), spec_trim_start(after.skip(end + 1)))),
        }
    } else {
        Ok((None, r0))
    };
    match labelled {
        Err(k) => Err(k),
        Ok((label, rem)) => match spec_choice_conditions(rem) {
            Err(k) => Err(k),
            Ok((cs, r)) => Ok((label, cs, r)),
        },
    }
}

proof fn lemma_trim_start_shorter(s: Seq<char>)
    ensures
        spec_trim_start(s).len() <= s.len(),
    decreases s.len(),
{
    crate::inline::lemma_trim_start_len(s);
}

/// Parses a choice's `(label)` and `{condition}` prefixes.
pub fn parse_choice_prefixes_chars(input: &[char]) -> (r: Result<(Option<String>, Vec<Condition>, Vec<char>), CompilerError>)
    ensures
        match (r, spec_parse_choice_prefixes(input@)) {
            (Ok((l, cs, rest)), Ok((sl, scs, srest))) => (match l {
                Some(x) => sl == Some(x@),
                None => sl is None,
            }) && conditions_model(cs@) == scs && rest@ == srest,
            (Err(e), Err(k)) => e.kind == k,
            _ => false,
        },
{
    proof {
        reveal(spec_parse_choice_prefixes);
    }
    let mut remainder = trim_start(input);
    let mut label: Option<String> = None;
    if remainder.len() > 0 && remainder[0] == '(' {
        let after = skip(&remainder, 1);
        let end = match find_char(&after, ')') {
            None => return Err(CompilerError::invalid_source("choice label is missing ')'".to_owned())),
            Some(e) => e,
        };
        proof {
            crate::text::lemma_find_from_bounds(after@, seq![')'], 0);
        }
        label = Some(string_of(&trim(&take(&after, end))));
        remainder = trim_start(&skip(&after, end + 1));
    }
    let ghost start = remainder@;
    let ghost lm: Option<Seq<char>> = crate::ast::opt_string_model(label);
    assert(spec_parse_choice_prefixes(input@) == match spec_choice_conditions(start) {
        Err(k) => Err(k),
        Ok((cs, r)) => Ok((lm, cs, r)),
    });
    let mut conditions: Vec<Condition> = Vec::new();
    assert(conditions_model(conditions@) =~= Seq::<SpecCondition>::empty());
    loop
        invariant
            lm == crate::ast::opt_string_model(label),
            spec_parse_choice_prefixes(input@) == match spec_choice_conditions(start) {
                Err(k) => Err(k),
                Ok((cs, r)) => Ok((lm, cs, r)),
            },
            spec_choice_conditions(start) == match spec_choice_conditions(remainder@) {
                Err(k) => Err(k),
                Ok((cs, r)) => Ok((conditions_model(conditions@) + cs, r)),
            },
        decreases remainder@.len(),
    {
        if !(remainder.len() > 0 && remainder[0] == '{') {
            assert(conditions_model(conditions@) + Seq::<SpecCondition>::empty() =~= conditions_model(conditions@));
            return Ok((label, conditions, remainder));
        }
        let after = skip(&remainder, 1);
        let end = match find_char(&after, '}') {
            None => return Err(CompilerError::invalid_source("choice condition is missing '}'".to_owned())),
            Some(e) => e,
        };
        proof {
            crate::text::lemma_find_from_bounds(after@, seq!['}'], 0);
        }
        let c = match parse_condition_chars(&trim(&take(&after, end))) {
            Err(e) => return Err(e),
            Ok(c) => c,
        };
        let ghost cb = conditions@;
        conditions.push(c);
        let next = trim_start(&skip(&after, end + 1));
        proof {
            crate::ast::lemma_conditions_model_push(cb, c);
            lemma_trim_start_shorter(after@.skip(end + 1));
            match spec_choice_conditions(next@) {
                Ok((cs, r)) => {
                    assert(conditions_model(cb) + (seq![crate::ast::condition_model(c)] + cs) =~= conditions_model(conditions@) + cs);
                },
                Err(_) => {},
            }
        }
        remainder = next;
    }
}

/// Parses a choice's `(label)` and `{condition}` prefixes.
pub fn parse_choice_prefixes(input: &str) -> (r: Result<(Option<String>, Vec<Condition>, String), CompilerError>)
    ensures
        match (r, spec_parse_choice_prefixes(input@)) {
            (Ok((l, cs, rest)), Ok((sl, scs, srest))) => (match l {
                Some(x) => sl == Some(x@),
                None => sl is None,
            }) && conditions_model(cs@) == scs && rest@ == srest,
            (Err(e), Err(k)) => e.kind == k,
            _ => false,
        },
{
    let chars = chars_of(input);
    match parse_choice_prefixes_chars(&chars) {
        Err(e) => Err(e),
        Ok((l, cs, rest)) => Ok((l, cs, string_of(&rest))),
    }
}

// ---------------------------------------------------------------------------
// Gathers.
// ---------------------------------------------------------------------------

pub open spec fn spec_gather_dashes(s: Seq<char>) -> nat
    decreases s.len(),
{
    if s.len() > 0 && s[0] == '-' {
        let next = spec_trim_start(s.drop_first());
        if arrow().is_prefix_of(next) || !(next.len() > 0 && next[0] == '-') {
            1
        } else {
            if next.len() < s.len() {
                1 + spec_gather_dashes(next)
            } else {
                1
            }
        }
    } else {
        0
    }
}

/// How deep a gather line is (`- x` is 1, `- - x` is 2); 0 when the line
/// is no gather (a divert `->` is none).
pub open spec fn spec_gather_nesting_level(t: Seq<char>) -> nat {
    if arrow().is_prefix_of(t) {
        0
    } else {
        spec_gather_dashes(t)
    }
}

/// How deep a gather line is; see `spec_gather_nesting_level`.
pub fn gather_nesting_level(trimmed: &[char]) -> (n: usize)
    ensures
        n == spec_gather_nesting_level(trimmed@),
{
    let arrow_v = vec!['-', '>'];
    assert(arrow_v@ =~= arrow());
    if starts_with(trimmed, &arrow_v) {
        return 0;
    }
    let mut s = copy(trimmed);
    let mut level: usize = 0;
    while s.len() > 0 && s[0] == '-'
        invariant
            !arrow().is_prefix_of(trimmed@),
            arrow_v@ == arrow(),
            level + spec_gather_dashes(s@) == spec_gather_dashes(trimmed@),
            level + s@.len() <= trimmed.len(),
        decreases s@.len(),
    {
        let rest = skip(&s, 1);
        assert(rest@ =~= s@.drop_first());
        let next = trim_start(&rest);
        proof {
            lemma_trim_start_shorter(rest@);
        }
        level = level + 1;
        if starts_with(&next, &arrow_v) || !(next.len() > 0 && next[0] == '-') {
            return level;
        }
        s = next;
    }
    level
}

} // verus!

verus! {

/// With no `>` left to read, the arrow scan finds no further `->`.
proof fn lemma_arrow_scan_no_gt(s: Seq<char>, i: int, depth: nat, last: Option<int>)
    requires
        0 <= i,
        !s.contains('>'),
    ensures
        crate::inline::spec_arrow_scan(s, i, depth, last) == last,
    decreases s.len() - i,
{
    if i < s.len() {
        if s[i] == '-' && i + 1 < s.len() {
            assert(s[i + 1] != '>');
        }
        let d2: nat = if s[i] == '{' || s[i] == '(' {
            depth + 1
        } else if (s[i] == '}' || s[i] == ')') && depth > 0 {
            (depth - 1) as nat
        } else if s[i] == '}' || s[i] == ')' {
            0
        } else {
            depth
        };
        lemma_arrow_scan_no_gt(s, i + 1, d2, last);
    }
}

/// Whitespace in front of text that starts with no whitespace is all that
/// `spec_trim_start` removes.
proof fn lemma_trim_start_gap(gap: Seq<char>, body: Seq<char>)
    requires
        forall|i: int| 0 <= i < gap.len() ==> spec_is_whitespace(#[trigger] gap[i]),
        body.len() > 0,
        !spec_is_whitespace(body[0]),
    ensures
        spec_trim_start(gap + body) == body,
    decreases gap.len(),
{
    if gap.len() == 0 {
        assert(gap + body =~= body);
    } else {
        assert((gap + body).drop_first() =~= gap.drop_first() + body);
        lemma_trim_start_gap(gap.drop_first(), body);
    }
}

/// A choice `[label] text` prints `text` once taken: for a label with no
/// `]` or tag, whitespace after the `]`, and text with no tag, divert or
/// surrounding whitespace, the choice shows and offers the trimmed label,
/// has no start text, no divert and no tags, and its selected text is the
/// text.
pub proof fn law_bracketed_choice_selects_what_follows(label: Seq<char>, gap: Seq<char>, body: Seq<char>)
    requires
        !label.contains(']'),
        !label.contains('#'),
        forall|i: int| 0 <= i < gap.len() ==> spec_is_whitespace(#[trigger] gap[i]),
        body.len() > 0,
        !spec_is_whitespace(body[0]),
        !spec_is_whitespace(body.last()),
        !body.contains('#'),
        !body.contains('>'),
    ensures
        spec_parse_choice_text(seq!['['] + label + seq![']'] + gap + body) matches Ok(ct)
            && ct.selected_text == Some(body)
            && ct.display_text == spec_trim(label)
            && ct.choice_only_text == spec_trim(label)
            && ct.start_text.len() == 0
            && ct.inline_target is None
            && ct.has_choice_only_content
            && !ct.has_start_content
            && ct.start_tags.len() == 0
            && ct.choice_only_tags.len() == 0
            && ct.selected_tags.len() == 0,
{
    reveal(spec_parse_choice_text);
    let input = seq!['['] + label + seq![']'] + gap + body;
    let t = input;
    assert(input[0] == '[');
    assert(input.last() == body.last());
    assert(spec_trim_start(input) == input);
    assert(spec_trim(input) == t);
    assert(!seq!['\\', ' '].is_prefix_of(t)) by {
        assert(t[0] != seq!['\\', ' '][0]);
    }
    assert(!arrow().is_prefix_of(t)) by {
        assert(t[0] != arrow()[0]);
    }
    let co = t.skip(1);
    let e = label.len() as int;
    assert(co[e] == ']');
    assert forall|j: int| 0 <= j < e implies co[j] != ']' by {
        assert(co[j] == label[j]);
    }
    crate::text::lemma_find_char_first(co, ']', 0, e);
    assert(co.take(e) =~= label);
    assert(co.skip(e + 1) =~= gap + body);
    lemma_trim_start_gap(gap, body);
    let after = body;
    assert(!arrow().is_prefix_of(after)) by {
        if arrow().is_prefix_of(after) {
            assert(after[1] == arrow()[1]);
        }
    }
    lemma_arrow_scan_no_gt(body, 0, 0, None);
    crate::text::lemma_find_char_props(body, '#', 0);
    let tl = spec_trim(label);
    crate::inline::lemma_trim_start_len(label);
    crate::inline::lemma_trim_end_len(spec_trim_start(label));
    assert(!tl.contains('#')) by {
        if tl.contains('#') {
            let j = choose|j: int| 0 <= j < tl.len() && tl[j] == '#';
            let m = label.len() - spec_trim_start(label).len();
            assert(tl[j] == spec_trim_start(label)[j]);
            assert(spec_trim_start(label)[j] == label[j + m]);
        }
    }
    crate::text::lemma_find_char_props(tl, '#', 0);
}

} // verus!
