//! Expression nodes of the parsed hierarchy that carry plain values: a
//! reference to a variable by its dotted path, and a string expression.
use vstd::prelude::*;
use crate::content_list::{Content, ContentList};
use crate::text::{chars_of, concat, string_of};

verus! {

/// `parts` joined with `.` between each two.
pub open spec fn spec_join_dotted(parts: Seq<Seq<char>>) -> Seq<char>
    decreases parts.len(),
{
    if parts.len() == 0 {
        Seq::empty()
    } else if parts.len() == 1 {
        parts[0]
    } else {
        spec_join_dotted(parts.drop_last()) + seq!['.'] + parts.last()
    }
}

pub open spec fn strings_view(v: Seq<String>) -> Seq<Seq<char>> {
    v.map_values(|s: String| s@)
}

/// A reference to a variable, a read count or a list, by its path.
#[derive(Debug, Clone)]
pub struct VariableReference {
    path: Vec<String>,
}

impl VariableReference {
    pub closed spec fn spec_path(&self) -> Seq<Seq<char>> {
        strings_view(self.path@)
    }

    pub fn new(path: Vec<String>) -> (r: VariableReference)
        ensures
            r.spec_path() == strings_view(path@),
    {
        VariableReference { path }
    }

    pub fn path(&self) -> (r: &[String])
        ensures
            strings_view(r@) == self.spec_path(),
    {
        self.path.as_slice()
    }

    /// The path's segments joined with `.`.
    pub fn name(&self) -> (r: String)
        ensures
            r@ == spec_join_dotted(self.spec_path()),
    {
        let mut out: Vec<char> = Vec::new();
        let mut i: usize = 0;
        while i < self.path.len()
            invariant
                i <= self.path.len(),
                out@ == spec_join_dotted(strings_view(self.path@).take(i as int)),
            decreases self.path.len() - i,
        {
            let ghost parts = strings_view(self.path@).take(i + 1);
            assert(parts.drop_last() =~= strings_view(self.path@).take(i as int));
            if i > 0 {
                out.push('.');
            }
            let seg = chars_of(self.path[i].as_str());
            let joined = concat(&out, &seg);
            proof {
                if i == 0 {
                    assert(out@ =~= Seq::<char>::empty());
                    assert(joined@ =~= parts[0]);
                }
            }
            out = joined;
            i = i + 1;
        }
        assert(strings_view(self.path@).take(self.path.len() as int) =~= strings_view(self.path@));
        string_of(&out)
    }
}

/// A string expression: a list of content in quotes.
#[derive(Debug, Clone)]
pub struct StringExpression {
    content: ContentList,
}

/// The content is one text with no line break in it.
pub open spec fn spec_is_single_string(texts: Seq<Seq<char>>) -> bool {
    texts.len() == 1 && !texts[0].contains('\n')
}

impl StringExpression {
    pub closed spec fn spec_content(&self) -> Seq<Seq<char>> {
        self.content.spec_content()
    }

    pub fn new(content: ContentList) -> (e: StringExpression)
        ensures
            e.spec_content() == content.spec_content(),
    {
        StringExpression { content }
    }

    pub fn content(&self) -> (r: &ContentList)
        ensures
            r.spec_content() == self.spec_content(),
    {
        &self.content
    }

    /// Whether the content is a single string: one text, on one line.
    pub fn is_single_string(&self) -> (r: bool)
        ensures
            r == spec_is_single_string(self.spec_content()),
    {
        let items = self.content.content();
        if items.len() != 1 {
            return false;
        }
        match &items[0] {
            Content::Text(t) => {
                let c = chars_of(t.text());
                let has_newline = has_char(&c, '\n');
                !has_newline
            },
        }
    }
}

/// Whether `c` occurs in `s`.
fn has_char(s: &[char], c: char) -> (r: bool)
    ensures
        r == s@.contains(c),
{
    let mut i: usize = 0;
    while i < s.len()
        invariant
            i <= s.len(),
            forall|j: int| 0 <= j < i ==> s@[j] != c,
        decreases s.len() - i,
    {
        if s[i] == c {
            assert(s@[i as int] == c);
            return true;
        }
        i = i + 1;
    }
    false
}

} // verus!
