//! Text and lists of content in the parsed hierarchy: a list's texts, and
//! the trimming of inline whitespace at its end.
use vstd::prelude::*;
use crate::text::{chars_of, string_of};

verus! {

/// A piece of text in the parsed hierarchy.
#[derive(Debug, Clone)]
pub struct Text {
    text: String,
}

/// `s` without the spaces and tabs at its end.
pub open spec fn spec_trim_inline_end(s: Seq<char>) -> Seq<char>
    decreases s.len(),
{
    if s.len() > 0 && (s.last() == ' ' || s.last() == '\t') {
        spec_trim_inline_end(s.drop_last())
    } else {
        s
    }
}

impl Text {
    pub closed spec fn spec_text(&self) -> Seq<char> {
        self.text@
    }

    pub fn new(text: &str) -> (t: Text)
        ensures
            t.spec_text() == text@,
    {
        Text { text: string_of(&chars_of(text)) }
    }

    pub fn text(&self) -> (r: &str)
        ensures
            r@ == self.spec_text(),
    {
        self.text.as_str()
    }

    /// Drops the spaces and tabs at the end of the text.
    pub fn trim_end_inline_whitespace(&mut self)
        ensures
            final(self).spec_text() == spec_trim_inline_end(old(self).spec_text()),
    {
        let chars = chars_of(self.text.as_str());
        let mut n = chars.len();
        assert(chars@.take(chars.len() as int) =~= chars@);
        while n > 0 && (chars[n - 1] == ' ' || chars[n - 1] == '\t')
            invariant
                n <= chars.len(),
                spec_trim_inline_end(chars@.take(n as int)) == spec_trim_inline_end(chars@),
            decreases n,
        {
            assert(chars@.take(n as int).drop_last() =~= chars@.take(n - 1));
            n = n - 1;
        }
        let kept = crate::text::take(&chars, n);
        self.text = string_of(&kept);
    }

    pub fn is_empty(&self) -> (r: bool)
        ensures
            r == (self.spec_text().len() == 0),
    {
        chars_of(self.text.as_str()).len() == 0
    }
}

/// What a content list holds.
#[derive(Debug, Clone)]
pub enum Content {
    Text(Text),
}

/// A list of content, and whether it must stay a container of its own.
#[derive(Debug, Clone)]
pub struct ContentList {
    content: Vec<Content>,
    dont_flatten: bool,
}

/// The texts of a list of content.
pub open spec fn contents_model(c: Seq<Content>) -> Seq<Seq<char>> {
    c.map_values(|x: Content| match x {
        Content::Text(t) => t.spec_text(),
    })
}

/// The texts of a list once inline whitespace is trimmed from its end:
/// trailing texts left empty are dropped, and the last text that is not
/// keeps what trimming leaves of it.
pub open spec fn spec_trim_trailing(s: Seq<Seq<char>>) -> Seq<Seq<char>>
    decreases s.len(),
{
    if s.len() == 0 {
        s
    } else if spec_trim_inline_end(s.last()).len() == 0 {
        spec_trim_trailing(s.drop_last())
    } else {
        s.drop_last().push(spec_trim_inline_end(s.last()))
    }
}

impl ContentList {
    pub closed spec fn spec_content(&self) -> Seq<Seq<char>> {
        contents_model(self.content@)
    }

    pub closed spec fn spec_dont_flatten(&self) -> bool {
        self.dont_flatten
    }

    /// An empty list.
    pub fn new() -> (l: ContentList)
        ensures
            l.spec_content() == Seq::<Seq<char>>::empty(),
            !l.spec_dont_flatten(),
    {
        let l = ContentList { content: Vec::new(), dont_flatten: false };
        assert(l.spec_content() =~= Seq::<Seq<char>>::empty());
        l
    }

    pub fn content(&self) -> (r: &[Content])
        ensures
            contents_model(r@) == self.spec_content(),
    {
        self.content.as_slice()
    }

    pub fn dont_flatten(&self) -> (r: bool)
        ensures
            r == self.spec_dont_flatten(),
    {
        self.dont_flatten
    }

    pub fn set_dont_flatten(&mut self, value: bool)
        ensures
            final(self).spec_dont_flatten() == value,
            final(self).spec_content() == old(self).spec_content(),
    {
        self.dont_flatten = value;
    }

    /// Adds a text at the end.
    pub fn push_text(&mut self, text: &str)
        ensures
            final(self).spec_content() == old(self).spec_content().push(text@),
            final(self).spec_dont_flatten() == old(self).spec_dont_flatten(),
    {
        let ghost before = self.content@;
        self.content.push(Content::Text(Text::new(text)));
        assert(contents_model(self.content@) =~= contents_model(before).push(text@));
    }

    /// Trims spaces and tabs from the end of the list: texts left empty are
    /// removed, up to the first text that keeps something.
    pub fn trim_trailing_whitespace(&mut self)
        ensures
            final(self).spec_content() == spec_trim_trailing(old(self).spec_content()),
            final(self).spec_dont_flatten() == old(self).spec_dont_flatten(),
    {
        let ghost goal = spec_trim_trailing(self.spec_content());
        loop
            invariant_except_break
                spec_trim_trailing(self.spec_content()) == goal,
            invariant
                self.dont_flatten == old(self).dont_flatten,
            ensures
                self.spec_content() == goal,
                self.dont_flatten == old(self).dont_flatten,
            decreases self.content.len(),
        {
            let n = self.content.len();
            if n == 0 {
                break;
            }
            let ghost before = self.content@;
            let last = self.content.pop().unwrap();
            assert(self.content@ =~= before.drop_last());
            assert(contents_model(self.content@) =~= contents_model(before).drop_last());
            let mut text = match last {
                Content::Text(t) => t,
            };
            text.trim_end_inline_whitespace();
            if text.is_empty() {
                continue;
            }
            let ghost mid = self.content@;
            self.content.push(Content::Text(text));
            assert(contents_model(self.content@) =~= contents_model(mid).push(text.spec_text()));
            break;
        }
    }
}

proof fn lemma_trim_inline_end_twice(s: Seq<char>)
    ensures
        spec_trim_inline_end(spec_trim_inline_end(s)) == spec_trim_inline_end(s),
    decreases s.len(),
{
    if s.len() > 0 && (s.last() == ' ' || s.last() == '\t') {
        lemma_trim_inline_end_twice(s.drop_last());
    }
}

/// Trimming the end of a list a second time changes nothing.
pub proof fn law_trim_trailing_twice(s: Seq<Seq<char>>)
    ensures
        spec_trim_trailing(spec_trim_trailing(s)) == spec_trim_trailing(s),
    decreases s.len(),
{
    if s.len() > 0 {
        if spec_trim_inline_end(s.last()).len() == 0 {
            law_trim_trailing_twice(s.drop_last());
        } else {
            let t = s.drop_last().push(spec_trim_inline_end(s.last()));
            lemma_trim_inline_end_twice(s.last());
            assert(t.drop_last() =~= s.drop_last());
        }
    }
}

} // verus!
