//! Recognising sequence blocks: `{stopping: ...}` and friends, and their
//! `- branch` lines.
use vstd::prelude::*;
use crate::ast::SequenceMode;
use crate::error::{CompilerError, ErrorKind};
use crate::text::{
    chars_eq, chars_of, concat, contains_char, spec_contains, spec_split_once, spec_trim,
    split_once_char, starts_with_char, string_of, trim,
};

verus! {

pub open spec fn stopping_word() -> Seq<char> {
    seq!['s', 't', 'o', 'p', 'p', 'i', 'n', 'g']
}

pub open spec fn once_word() -> Seq<char> {
    seq!['o', 'n', 'c', 'e']
}

pub open spec fn cycle_word() -> Seq<char> {
    seq!['c', 'y', 'c', 'l', 'e']
}

pub open spec fn shuffle_word() -> Seq<char> {
    seq!['s', 'h', 'u', 'f', 'f', 'l', 'e']
}

/// The mode a sequence block's header names: `stopping`, `once`, `cycle`,
/// `shuffle`, `shuffle once` or `stopping shuffle`.
pub open spec fn spec_sequence_mode(s: Seq<char>) -> Option<SequenceMode> {
    if s == stopping_word() {
        Some(SequenceMode::Stopping)
    } else if s == once_word() {
        Some(SequenceMode::Once)
    } else if s == cycle_word() {
        Some(SequenceMode::Cycle)
    } else if s == shuffle_word() {
        Some(SequenceMode::Shuffle)
    } else if s == shuffle_word() + seq![' '] + once_word() {
        Some(SequenceMode::ShuffleOnce)
    } else if s == stopping_word() + seq![' '] + shuffle_word() {
        Some(SequenceMode::ShuffleStopping)
    } else {
        None
    }
}

/// The mode named by `input`; any other text is an unsupported mode.
pub fn parse_sequence_mode_chars(input: &[char]) -> (r: Result<SequenceMode, CompilerError>)
    ensures
        match (r, spec_sequence_mode(input@)) {
            (Ok(m), Some(sm)) => m == sm,
            (Err(e), None) => e.kind == ErrorKind::UnsupportedFeature,
            _ => false,
        },
{
    let stopping = vec!['s', 't', 'o', 'p', 'p', 'i', 'n', 'g'];
    let once = vec!['o', 'n', 'c', 'e'];
    let cycle = vec!['c', 'y', 'c', 'l', 'e'];
    let shuffle = vec!['s', 'h', 'u', 'f', 'f', 'l', 'e'];
    let shuffle_once = vec!['s', 'h', 'u', 'f', 'f', 'l', 'e', ' ', 'o', 'n', 'c', 'e'];
    let stopping_shuffle = vec!['s', 't', 'o', 'p', 'p', 'i', 'n', 'g', ' ', 's', 'h', 'u', 'f', 'f', 'l', 'e'];
    assert(stopping@ =~= stopping_word());
    assert(once@ =~= once_word());
    assert(cycle@ =~= cycle_word());
    assert(shuffle@ =~= shuffle_word());
    assert(shuffle_once@ =~= shuffle_word() + seq![' '] + once_word());
    assert(stopping_shuffle@ =~= stopping_word() + seq![' '] + shuffle_word());
    if chars_eq(input, &stopping) {
        Ok(SequenceMode::Stopping)
    } else if chars_eq(input, &once) {
        Ok(SequenceMode::Once)
    } else if chars_eq(input, &cycle) {
        Ok(SequenceMode::Cycle)
    } else if chars_eq(input, &shuffle) {
        Ok(SequenceMode::Shuffle)
    } else if chars_eq(input, &shuffle_once) {
        Ok(SequenceMode::ShuffleOnce)
    } else if chars_eq(input, &stopping_shuffle) {
        Ok(SequenceMode::ShuffleStopping)
    } else {
        let head = vec!['u', 'n', 's', 'u', 'p', 'p', 'o', 'r', 't', 'e', 'd', ' ', 's', 'e', 'q', 'u', 'e', 'n', 'c', 'e', ' ', 'm', 'o', 'd', 'e', ' ', '\''];
        let tail = vec!['\''];
        let message = concat(&concat(&head, input), &tail);
        Err(CompilerError::unsupported_feature(string_of(&message)))
    }
}

/// The sequence mode named by `input`.
pub fn parse_sequence_mode(input: &str) -> (r: Result<SequenceMode, CompilerError>)
    ensures
        match (r, spec_sequence_mode(input@)) {
            (Ok(m), Some(sm)) => m == sm,
            (Err(e), None) => e.kind == ErrorKind::UnsupportedFeature,
            _ => false,
        },
{
    let chars = chars_of(input);
    parse_sequence_mode_chars(&chars)
}

/// Whether a line opens a sequence block: `{`, a mode, then `:`.
pub open spec fn spec_looks_like_sequence(content: Seq<char>) -> bool {
    &&& content.len() > 0
    &&& content[0] == '{'
    &&& spec_contains(content, seq![':'])
    &&& match spec_split_once(content.drop_first(), seq![':']) {
        Some((head, _)) => spec_sequence_mode(spec_trim(head)) is Some,
        None => false,
    }
}

pub fn looks_like_sequence_chars(content: &[char]) -> (r: bool)
    ensures
        r == spec_looks_like_sequence(content@),
{
    if !starts_with_char(content, '{') || !contains_char(content, ':') {
        return false;
    }
    let inner = crate::text::skip(content, 1);
    assert(inner@ =~= content@.drop_first());
    match split_once_char(&inner, ':') {
        None => false,
        Some((head, _)) => parse_sequence_mode_chars(&trim(&head)).is_ok(),
    }
}

/// Whether a line opens a sequence block.
pub fn looks_like_sequence(content: &str) -> (r: bool)
    ensures
        r == spec_looks_like_sequence(content@),
{
    let chars = chars_of(content);
    looks_like_sequence_chars(&chars)
}

/// Whether a trimmed line starts a branch: `-`, but not a divert `->`.
pub open spec fn spec_is_sequence_branch_header(t: Seq<char>) -> bool {
    t.len() > 0 && t[0] == '-' && !(t.len() > 1 && t[1] == '>')
}

pub fn is_sequence_branch_header_chars(trimmed: &[char]) -> (r: bool)
    ensures
        r == spec_is_sequence_branch_header(trimmed@),
{
    trimmed.len() > 0 && trimmed[0] == '-' && !(trimmed.len() > 1 && trimmed[1] == '>')
}

/// Whether a trimmed line starts a sequence branch.
pub fn is_sequence_branch_header(trimmed: &str) -> (r: bool)
    ensures
        r == spec_is_sequence_branch_header(trimmed@),
{
    let chars = chars_of(trimmed);
    is_sequence_branch_header_chars(&chars)
}

/// The name a sequence block gives to a mode.
pub open spec fn mode_name(m: SequenceMode) -> Seq<char> {
    match m {
        SequenceMode::Stopping => stopping_word(),
        SequenceMode::Once => once_word(),
        SequenceMode::Cycle => cycle_word(),
        SequenceMode::Shuffle => shuffle_word(),
        SequenceMode::ShuffleOnce => shuffle_word() + seq![' '] + once_word(),
        SequenceMode::ShuffleStopping => stopping_word() + seq![' '] + shuffle_word(),
    }
}

/// Every mode has exactly one name, and reading the name gives the mode
/// back.
pub proof fn law_mode_names_round_trip(m: SequenceMode)
    ensures
        spec_sequence_mode(mode_name(m)) == Some(m),
{
    assert(stopping_word().len() == 8);
    assert(once_word().len() == 4);
    assert(cycle_word().len() == 5);
    assert(shuffle_word().len() == 7);
    assert((shuffle_word() + seq![' '] + once_word()).len() == 12);
    assert((stopping_word() + seq![' '] + shuffle_word()).len() == 16);
}

} // verus!
