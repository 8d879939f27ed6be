//! Statistics of a parsed story.
use vstd::prelude::*;
use crate::ast::Node;
use crate::story::ParsedStory;
use crate::text::chars_of;

verus! {

/// Counts of a story's words and structures.
#[derive(Debug, Default, Clone, PartialEq, Eq)]
pub struct Stats {
    pub words: usize,
    pub knots: usize,
    pub stitches: usize,
    pub functions: usize,
    pub choices: usize,
    pub gathers: usize,
    pub diverts: usize,
}

/// Whether `c` separates words: a space, tab, line feed or carriage return.
pub open spec fn is_word_separator(c: char) -> bool {
    c == ' ' || c == '\t' || c == '\n' || c == '\r'
}

/// The words of `s`: runs of characters that are not separators;
/// `after_separator` says whether what came before `s` ended a word.
pub open spec fn spec_word_count(s: Seq<char>, after_separator: bool) -> nat
    decreases s.len(),
{
    if s.len() == 0 {
        0
    } else if is_word_separator(s[0]) {
        spec_word_count(s.drop_first(), true)
    } else if after_separator {
        1 + spec_word_count(s.drop_first(), false)
    } else {
        spec_word_count(s.drop_first(), false)
    }
}

proof fn lemma_word_count_le(s: Seq<char>, after: bool)
    ensures
        spec_word_count(s, after) <= s.len(),
    decreases s.len(),
{
    if s.len() > 0 {
        lemma_word_count_le(s.drop_first(), true);
        lemma_word_count_le(s.drop_first(), false);
    }
}

/// Adds the number of words of `text` to `count`.
pub fn count_words_in_str(text: &str, count: &mut usize)
    requires
        *old(count) + spec_word_count(text@, true) <= usize::MAX,
    ensures
        *final(count) == *old(count) + spec_word_count(text@, true),
{
    let chars = chars_of(text);
    let mut was_whitespace = true;
    let mut i: usize = 0;
    assert(chars@.skip(0) =~= chars@);
    while i < chars.len()
        invariant
            i <= chars.len(),
            chars@ == text@,
            *old(count) + spec_word_count(text@, true) <= usize::MAX,
            *count + spec_word_count(chars@.skip(i as int), was_whitespace) == *old(count) + spec_word_count(text@, true),
        decreases chars.len() - i,
    {
        let c = chars[i];
        assert(chars@.skip(i as int).drop_first() =~= chars@.skip(i + 1));
        proof {
            lemma_word_count_le(chars@.skip(i + 1), false);
        }
        if c == ' ' || c == '\t' || c == '\n' || c == '\r' {
            was_whitespace = true;
        } else if was_whitespace {
            *count = *count + 1;
            was_whitespace = false;
        }
        i = i + 1;
    }
}

/// The words of the text nodes among `nodes`, each text counted by itself.
pub open spec fn spec_text_words(nodes: Seq<Node>) -> nat
    decreases nodes.len(),
{
    if nodes.len() == 0 {
        0
    } else {
        spec_text_words(nodes.drop_last()) + match nodes.last() {
            Node::Text(t) => spec_word_count(t@, true),
            _ => 0,
        }
    }
}

impl Stats {
    /// The statistics of a story: the words of its top-level text; a story's
    /// own flow is no knot, stitch or function, so those counts are zero.
    pub fn generate_from_parsed(story: &ParsedStory) -> (s: Stats)
        requires
            spec_text_words(story.root@) <= usize::MAX,
        ensures
            s.words == spec_text_words(story.root@),
            s.knots == 0 && s.stitches == 0 && s.functions == 0,
            s.choices == 0 && s.gathers == 0 && s.diverts == 0,
    {
        let mut words: usize = 0;
        let mut i: usize = 0;
        while i < story.root.len()
            invariant
                i <= story.root.len(),
                spec_text_words(story.root@) <= usize::MAX,
                words == spec_text_words(story.root@.take(i as int)),
            decreases story.root.len() - i,
        {
            proof {
                assert(story.root@.take(i + 1).drop_last() =~= story.root@.take(i as int));
                lemma_text_words_prefix(story.root@, i + 1);
            }
            match &story.root[i] {
                Node::Text(t) => count_words_in_str(t, &mut words),
                _ => {},
            }
            i = i + 1;
        }
        assert(story.root@.take(i as int) =~= story.root@);
        Stats { words, knots: 0, stitches: 0, functions: 0, choices: 0, gathers: 0, diverts: 0 }
    }
}

proof fn lemma_text_words_prefix(nodes: Seq<Node>, k: int)
    requires
        0 <= k <= nodes.len(),
    ensures
        spec_text_words(nodes.take(k)) <= spec_text_words(nodes),
    decreases nodes.len() - k,
{
    if k < nodes.len() {
        lemma_text_words_prefix(nodes, k + 1);
        assert(nodes.take(k + 1).drop_last() =~= nodes.take(k));
    } else {
        assert(nodes.take(k) =~= nodes);
    }
}

/// A text has at most as many words as characters.
pub proof fn law_words_at_most_chars(s: Seq<char>)
    ensures
        spec_word_count(s, true) <= s.len(),
{
    lemma_word_count_le(s, true);
}

} // verus!
