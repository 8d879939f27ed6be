//! The newer compiler front end, in its early form: its entry points, its
//! content lists and the pieces of its object hierarchy.
use vstd::prelude::*;
use crate::ast::{Node, SpecNode};
use crate::error::{CompilerError, ErrorKind};
use crate::object::ParsedObjectRef;
use crate::text::{chars_eq, chars_of, string_of};

verus! {

/// Compiles ink source to the runtime's JSON; the backend does not exist
/// yet, so every source is refused as unsupported.
pub fn compile(source: &str) -> (r: Result<String, CompilerError>)
    ensures
        r matches Err(e) && e.kind == ErrorKind::UnsupportedFeature,
{
    Err(CompilerError::unsupported_feature("ported compiler backend is not implemented yet".to_owned()))
}

/// The newer parser's entry point.
pub struct InkParser;

impl InkParser {
    /// Parses ink source; not implemented yet, so every source is refused
    /// as unsupported.
    pub fn parse(source: &str) -> (r: Result<(), CompilerError>)
        ensures
            r matches Err(e) && e.kind == ErrorKind::UnsupportedFeature,
    {
        Err(CompilerError::unsupported_feature("ported InkParser is not implemented yet".to_owned()))
    }
}

/// What every parsed object has: its parent, if it has one.
#[derive(Debug, PartialEq)]
pub struct ParsedBase {
    pub parent: Option<ParsedObjectRef>,
}

impl ParsedBase {
    /// An object without a parent.
    pub fn new() -> (b: ParsedBase)
        ensures
            b.parent is None,
    {
        ParsedBase { parent: None }
    }
}

/// A path of identifiers, such as `knot.stitch`.
#[derive(Debug, PartialEq)]
pub struct Path {
    pub components: Vec<String>,
}

/// One item of story content in the newer front end.
#[derive(Debug, Clone, PartialEq, Eq)]
pub enum ContentItem {
    Text(String),
    Newline,
    Divert(String),
    End,
    Done,
}

pub enum SpecContentItem {
    Text(Seq<char>),
    Newline,
    Divert(Seq<char>),
    End,
    Done,
}

pub open spec fn item_model(i: ContentItem) -> SpecContentItem {
    match i {
        ContentItem::Text(t) => SpecContentItem::Text(t@),
        ContentItem::Newline => SpecContentItem::Newline,
        ContentItem::Divert(t) => SpecContentItem::Divert(t@),
        ContentItem::End => SpecContentItem::End,
        ContentItem::Done => SpecContentItem::Done,
    }
}

pub open spec fn items_model(s: Seq<ContentItem>) -> Seq<SpecContentItem> {
    s.map_values(|i: ContentItem| item_model(i))
}

/// A list of content items.
#[derive(Debug, PartialEq)]
pub struct ContentList {
    pub items: Vec<ContentItem>,
}

pub open spec fn end_word() -> Seq<char> {
    seq!['E', 'N', 'D']
}

pub open spec fn done_word() -> Seq<char> {
    seq!['D', 'O', 'N', 'E']
}

/// The item a node stands for: text, a line break, or a divert without
/// arguments (`END` and `DONE` being the story's own ends); nothing else.
pub open spec fn spec_item_of(n: SpecNode) -> Option<SpecContentItem> {
    match n {
        SpecNode::Text(t) => Some(SpecContentItem::Text(t)),
        SpecNode::Newline => Some(SpecContentItem::Newline),
        SpecNode::Divert(d) => if d.arguments.len() == 0 {
            if d.target == end_word() {
                Some(SpecContentItem::End)
            } else if d.target == done_word() {
                Some(SpecContentItem::Done)
            } else {
                Some(SpecContentItem::Divert(d.target))
            }
        } else {
            None
        },
        _ => None,
    }
}

/// The items of `nodes`, or an unsupported node.
pub open spec fn spec_items_of(nodes: Seq<SpecNode>) -> Option<Seq<SpecContentItem>>
    decreases nodes.len(),
{
    if nodes.len() == 0 {
        Some(Seq::empty())
    } else {
        match (spec_items_of(nodes.drop_last()), spec_item_of(nodes.last())) {
            (Some(v), Some(i)) => Some(v.push(i)),
            _ => None,
        }
    }
}

impl ContentList {
    pub fn new(items: Vec<ContentItem>) -> (l: ContentList)
        ensures
            l.items@ == items@,
    {
        ContentList { items }
    }

    /// Adds a text item.
    pub fn push_text(&mut self, text: &str)
        ensures
            items_model(final(self).items@) == items_model(old(self).items@).push(SpecContentItem::Text(text@)),
    {
        let t = string_of(&chars_of(text));
        let ghost before = self.items@;
        self.items.push(ContentItem::Text(t));
        assert(items_model(self.items@) =~= items_model(before).push(SpecContentItem::Text(text@)));
    }

    /// The content list of earlier-parsed nodes: text, line breaks and
    /// diverts without arguments; any other node is unsupported.
    pub fn from_legacy_nodes(nodes: &[Node]) -> (r: Result<ContentList, CompilerError>)
        ensures
            match (r, spec_items_of(crate::ast::nodes_model(nodes@))) {
                (Ok(l), Some(v)) => items_model(l.items@) == v,
                (Err(e), None) => e.kind == ErrorKind::UnsupportedFeature,
                _ => false,
            },
    {
        let mut items: Vec<ContentItem> = Vec::new();
        let mut i: usize = 0;
        let end_v = vec!['E', 'N', 'D'];
        let done_v = vec!['D', 'O', 'N', 'E'];
        assert(end_v@ =~= end_word());
        assert(done_v@ =~= done_word());
        assert(items_model(items@) =~= Seq::<SpecContentItem>::empty());
        while i < nodes.len()
            invariant
                i <= nodes.len(),
                end_v@ == end_word(),
                done_v@ == done_word(),
                spec_items_of(crate::ast::nodes_model(nodes@.take(i as int))) == Some(items_model(items@)),
            decreases nodes.len() - i,
        {
            let ghost ib = items@;
            proof {
                assert(nodes@.take(i + 1).drop_last() =~= nodes@.take(i as int));
                crate::ast::lemma_nodes_model_push(nodes@.take(i as int), nodes@[i as int]);
                assert(nodes@.take(i + 1) =~= nodes@.take(i as int).push(nodes@[i as int]));
            }
            let item = match &nodes[i] {
                Node::Text(t) => ContentItem::Text(string_of(&chars_of(t))),
                Node::Newline => ContentItem::Newline,
                Node::Divert(d) => {
                    if d.arguments.len() == 0 {
                        let target = chars_of(&d.target);
                        if chars_eq(&target, &end_v) {
                            ContentItem::End
                        } else if chars_eq(&target, &done_v) {
                            ContentItem::Done
                        } else {
                            ContentItem::Divert(string_of(&target))
                        }
                    } else {
                        proof {
                            lemma_items_of_none(nodes@, i as int);
                        }
                        return Err(CompilerError::unsupported_feature("ported choice adapter currently supports only text, newline, and simple divert content".to_owned()));
                    }
                },
                _ => {
                    proof {
                        lemma_items_of_none(nodes@, i as int);
                    }
                    return Err(CompilerError::unsupported_feature("ported choice adapter currently supports only text, newline, and simple divert content".to_owned()));
                },
            };
            items.push(item);
            proof {
                assert(items_model(items@) =~= items_model(ib).push(item_model(item)));
                let nm = crate::ast::nodes_model(nodes@.take(i + 1));
                assert(nm.drop_last() =~= crate::ast::nodes_model(nodes@.take(i as int)));
                assert(nm.last() == crate::ast::node_model(nodes@[i as int]));
            }
            i = i + 1;
        }
        assert(nodes@.take(i as int) =~= nodes@);
        Ok(ContentList { items })
    }
}

proof fn lemma_items_of_none(nodes: Seq<Node>, i: int)
    requires
        0 <= i < nodes.len(),
        spec_item_of(crate::ast::node_model(nodes[i])) is None,
    ensures
        spec_items_of(crate::ast::nodes_model(nodes)) is None,
    decreases nodes.len(),
{
    crate::ast::lemma_nodes_model_push(nodes.drop_last(), nodes.last());
    assert(nodes.drop_last().push(nodes.last()) =~= nodes);
    assert(crate::ast::nodes_model(nodes).drop_last() =~= crate::ast::nodes_model(nodes.drop_last()));
    if i < nodes.len() - 1 {
        lemma_items_of_none(nodes.drop_last(), i);
    }
}

} // verus!
