//! A node of the parse tree: its identity, parent, content, source
//! position, and the errors and warnings reported against it.
use vstd::prelude::*;
use crate::hierarchy::DebugMetadata;
use crate::object::{spec_first_of_kind, ObjectKind, ParsedObjectIndex, ParsedObjectRef};
use crate::text::{chars_eq, chars_of, string_of};

verus! {

/// The texts of `v`.
pub open spec fn messages_model(v: Seq<String>) -> Seq<Seq<char>> {
    v.map_values(|s: String| s@)
}

/// No message occurs twice.
pub open spec fn messages_unique(m: Seq<Seq<char>>) -> bool {
    forall|i: int, j: int| 0 <= i < j < m.len() ==> m[i] != m[j]
}

/// `m` with `message` added at the end unless it is already there.
pub open spec fn spec_add_message(m: Seq<Seq<char>>, message: Seq<char>) -> Seq<Seq<char>> {
    if m.contains(message) {
        m
    } else {
        m.push(message)
    }
}

/// A parsed object. Its identity is the one it is made with: the caller
/// hands out identities, one per object.
#[derive(Debug)]
pub struct ParsedObject {
    id: usize,
    kind: ObjectKind,
    parent: Option<ParsedObjectRef>,
    content: Vec<ParsedObjectRef>,
    debug_metadata: Option<DebugMetadata>,
    error_messages: Vec<String>,
    warning_messages: Vec<String>,
    visits_should_be_counted: bool,
    turn_index_should_be_counted: bool,
}

impl ParsedObject {
    #[verifier::type_invariant]
    spec fn messages_stay_unique(self) -> bool {
        &&& messages_unique(messages_model(self.error_messages@))
        &&& messages_unique(messages_model(self.warning_messages@))
    }

    pub closed spec fn spec_id(&self) -> usize {
        self.id
    }

    pub closed spec fn spec_kind(&self) -> ObjectKind {
        self.kind
    }

    pub closed spec fn spec_parent(&self) -> Option<ParsedObjectRef> {
        self.parent
    }

    pub closed spec fn spec_content(&self) -> Seq<ParsedObjectRef> {
        self.content@
    }

    pub closed spec fn spec_errors(&self) -> Seq<Seq<char>> {
        messages_model(self.error_messages@)
    }

    pub closed spec fn spec_warnings(&self) -> Seq<Seq<char>> {
        messages_model(self.warning_messages@)
    }

    pub closed spec fn spec_debug_metadata(&self) -> Option<DebugMetadata> {
        self.debug_metadata
    }

    /// Whether the runtime is to count visits to this object, and turns
    /// since it was visited.
    pub closed spec fn spec_counting(&self) -> (bool, bool) {
        (self.visits_should_be_counted, self.turn_index_should_be_counted)
    }

    /// A fresh object of `kind` with identity `id`: no parent, no content,
    /// no position, nothing reported.
    pub fn new(id: usize, kind: ObjectKind) -> (o: ParsedObject)
        ensures
            o.spec_id() == id,
            o.spec_kind() == kind,
            o.spec_parent() is None,
            o.spec_content() == Seq::<ParsedObjectRef>::empty(),
            o.spec_debug_metadata() is None,
            o.spec_errors() == Seq::<Seq<char>>::empty(),
            o.spec_warnings() == Seq::<Seq<char>>::empty(),
            o.spec_counting() == (false, false),
    {
        let o = ParsedObject {
            id,
            kind,
            parent: None,
            content: Vec::new(),
            debug_metadata: None,
            error_messages: Vec::new(),
            warning_messages: Vec::new(),
            visits_should_be_counted: false,
            turn_index_should_be_counted: false,
        };
        proof {
            assert(messages_model(o.error_messages@) =~= Seq::<Seq<char>>::empty());
            assert(messages_model(o.warning_messages@) =~= Seq::<Seq<char>>::empty());
        }
        o
    }

    pub fn id(&self) -> (r: usize)
        ensures
            r == self.spec_id(),
    {
        self.id
    }

    pub fn kind(&self) -> (r: ObjectKind)
        ensures
            r == self.spec_kind(),
    {
        self.kind
    }

    /// The reference naming this object.
    pub fn reference(&self) -> (r: ParsedObjectRef)
        ensures
            r == self.reference_model(),
            r.spec_id() == self.spec_id(),
            r.spec_kind() == self.spec_kind(),
    {
        let r = ParsedObjectRef::new(self.id, self.kind);
        proof {
            lemma_reference_model(self, r);
        }
        r
    }

    pub fn parent_id(&self) -> (r: Option<usize>)
        ensures
            r == (match self.spec_parent() {
                Some(p) => Some(p.spec_id()),
                None => None::<usize>,
            }),
    {
        match self.parent {
            Some(p) => Some(p.id()),
            None => None,
        }
    }

    pub fn parent_ref(&self) -> (r: Option<ParsedObjectRef>)
        ensures
            r == self.spec_parent(),
    {
        self.parent
    }

    /// Sets the parent by identity alone; its kind is taken to be a flow.
    pub fn set_parent_id(&mut self, parent_id: usize)
        ensures
            final(self).spec_parent() matches Some(p) && p.spec_id() == parent_id
                && p.spec_kind() == ObjectKind::FlowBase,
            final(self).spec_id() == old(self).spec_id(),
            final(self).spec_counting() == old(self).spec_counting(),
            final(self).spec_kind() == old(self).spec_kind(),
            final(self).spec_content() == old(self).spec_content(),
            final(self).spec_errors() == old(self).spec_errors(),
            final(self).spec_warnings() == old(self).spec_warnings(),
            final(self).spec_debug_metadata() == old(self).spec_debug_metadata(),
    {
        proof {
            use_type_invariant(&*self);
        }
        self.parent = Some(ParsedObjectRef::new(parent_id, ObjectKind::FlowBase));
    }

    pub fn set_parent(&mut self, parent: &ParsedObject)
        ensures
            final(self).spec_parent() matches Some(p) && p.spec_id() == parent.spec_id()
                && p.spec_kind() == parent.spec_kind(),
            final(self).spec_id() == old(self).spec_id(),
            final(self).spec_counting() == old(self).spec_counting(),
            final(self).spec_kind() == old(self).spec_kind(),
            final(self).spec_content() == old(self).spec_content(),
            final(self).spec_errors() == old(self).spec_errors(),
            final(self).spec_warnings() == old(self).spec_warnings(),
            final(self).spec_debug_metadata() == old(self).spec_debug_metadata(),
    {
        proof {
            use_type_invariant(&*self);
        }
        self.parent = Some(parent.reference());
    }

    pub fn set_parent_ref(&mut self, parent: ParsedObjectRef)
        ensures
            final(self).spec_parent() == Some(parent),
            final(self).spec_id() == old(self).spec_id(),
            final(self).spec_counting() == old(self).spec_counting(),
            final(self).spec_kind() == old(self).spec_kind(),
            final(self).spec_content() == old(self).spec_content(),
            final(self).spec_errors() == old(self).spec_errors(),
            final(self).spec_warnings() == old(self).spec_warnings(),
            final(self).spec_debug_metadata() == old(self).spec_debug_metadata(),
    {
        proof {
            use_type_invariant(&*self);
        }
        self.parent = Some(parent);
    }

    pub fn content(&self) -> (r: &[ParsedObjectRef])
        ensures
            r@ == self.spec_content(),
    {
        self.content.as_slice()
    }

    pub fn add_content_ref(&mut self, child: ParsedObjectRef)
        ensures
            final(self).spec_content() == old(self).spec_content().push(child),
            final(self).spec_id() == old(self).spec_id(),
            final(self).spec_counting() == old(self).spec_counting(),
            final(self).spec_kind() == old(self).spec_kind(),
            final(self).spec_parent() == old(self).spec_parent(),
            final(self).spec_errors() == old(self).spec_errors(),
            final(self).spec_warnings() == old(self).spec_warnings(),
            final(self).spec_debug_metadata() == old(self).spec_debug_metadata(),
    {
        proof {
            use_type_invariant(&*self);
        }
        let mut c: Vec<ParsedObjectRef> = Vec::new();
        std::mem::swap(&mut c, &mut self.content);
        c.push(child);
        self.content = c;
    }

    /// The first direct child of `kind`.
    pub fn find_child_by_kind(&self, kind: ObjectKind) -> (r: Option<ParsedObjectRef>)
        ensures
            r == spec_first_of_kind(self.spec_content(), kind),
    {
        let mut i: usize = 0;
        assert(self.content@.skip(0) =~= self.content@);
        while i < self.content.len()
            invariant
                i <= self.content.len(),
                spec_first_of_kind(self.content@.skip(i as int), kind) == spec_first_of_kind(self.content@, kind),
            decreases self.content.len() - i,
        {
            assert(self.content@.skip(i as int).drop_first() =~= self.content@.skip(i + 1));
            if self.content[i].kind() == kind {
                return Some(self.content[i]);
            }
            i = i + 1;
        }
        None
    }

    /// Every direct child of `kind`, in order.
    pub fn find_all_children_by_kind(&self, kind: ObjectKind) -> (r: Vec<ParsedObjectRef>)
        ensures
            r@ == self.spec_content().filter(|c: ParsedObjectRef| c.spec_kind() == kind),
    {
        let mut found: Vec<ParsedObjectRef> = Vec::new();
        let mut i: usize = 0;
        while i < self.content.len()
            invariant
                i <= self.content.len(),
                found@ == self.content@.take(i as int).filter(|c: ParsedObjectRef| c.spec_kind() == kind),
            decreases self.content.len() - i,
        {
            let c = self.content[i];
            proof {
                reveal(Seq::filter);
                assert(self.content@.take(i + 1).drop_last() =~= self.content@.take(i as int));
            }
            if c.kind() == kind {
                found.push(c);
            }
            i = i + 1;
        }
        assert(self.content@.take(self.content.len() as int) =~= self.content@);
        found
    }

    /// The first descendant of `kind`, breadth first, as `index` records
    /// the tree.
    pub fn find(&self, index: &ParsedObjectIndex, kind: ObjectKind) -> (r: Option<ParsedObjectRef>)
        requires
            index.content_walk_ends(self.spec_id()),
        ensures
            r == index.spec_first_descendant(self.reference_model(), kind),
    {
        index.find_descendant(self.reference(), kind)
    }

    /// Every descendant of `kind`, breadth first, as `index` records the
    /// tree.
    pub fn find_all(&self, index: &ParsedObjectIndex, kind: ObjectKind) -> (r: Vec<ParsedObjectRef>)
        requires
            index.content_walk_ends(self.spec_id()),
        ensures
            r@ == index.spec_descendants(self.reference_model(), kind),
    {
        index.find_all_descendants(self.reference(), kind)
    }

    /// The reference naming this object, as a value.
    pub open spec fn reference_model(&self) -> ParsedObjectRef {
        choose|r: ParsedObjectRef| r.spec_id() == self.spec_id() && r.spec_kind() == self.spec_kind()
    }

    pub fn debug_metadata(&self) -> (r: Option<&DebugMetadata>)
        ensures
            r matches Some(d) ==> self.spec_debug_metadata() == Some(*d),
            r is None ==> self.spec_debug_metadata() is None,
    {
        match &self.debug_metadata {
            Some(d) => Some(d),
            None => None,
        }
    }

    pub fn set_debug_metadata(&mut self, debug_metadata: DebugMetadata)
        ensures
            final(self).spec_debug_metadata() == Some(debug_metadata),
            final(self).spec_id() == old(self).spec_id(),
            final(self).spec_counting() == old(self).spec_counting(),
            final(self).spec_kind() == old(self).spec_kind(),
            final(self).spec_parent() == old(self).spec_parent(),
            final(self).spec_content() == old(self).spec_content(),
            final(self).spec_errors() == old(self).spec_errors(),
            final(self).spec_warnings() == old(self).spec_warnings(),
    {
        proof {
            use_type_invariant(&*self);
        }
        self.debug_metadata = Some(debug_metadata);
    }

    pub fn has_own_debug_metadata(&self) -> (r: bool)
        ensures
            r == self.spec_debug_metadata() is Some,
    {
        self.debug_metadata.is_some()
    }

    /// Marks that the runtime is to count visits to this object.
    pub fn mark_visits_should_be_counted(&mut self)
        ensures
            final(self).spec_counting() == (true, old(self).spec_counting().1),
            final(self).spec_id() == old(self).spec_id(),
            final(self).spec_kind() == old(self).spec_kind(),
            final(self).spec_parent() == old(self).spec_parent(),
            final(self).spec_content() == old(self).spec_content(),
            final(self).spec_errors() == old(self).spec_errors(),
            final(self).spec_warnings() == old(self).spec_warnings(),
            final(self).spec_debug_metadata() == old(self).spec_debug_metadata(),
    {
        proof {
            use_type_invariant(&*self);
        }
        self.visits_should_be_counted = true;
    }

    /// Marks that the runtime is to count turns since this object was
    /// visited.
    pub fn mark_turn_index_should_be_counted(&mut self)
        ensures
            final(self).spec_counting() == (old(self).spec_counting().0, true),
            final(self).spec_id() == old(self).spec_id(),
            final(self).spec_kind() == old(self).spec_kind(),
            final(self).spec_parent() == old(self).spec_parent(),
            final(self).spec_content() == old(self).spec_content(),
            final(self).spec_errors() == old(self).spec_errors(),
            final(self).spec_warnings() == old(self).spec_warnings(),
            final(self).spec_debug_metadata() == old(self).spec_debug_metadata(),
    {
        proof {
            use_type_invariant(&*self);
        }
        self.turn_index_should_be_counted = true;
    }

    /// The counting flags of the container this object becomes: bit 0
    /// visits (always counted when `default_visits`), bit 1 turns, bit 2
    /// counting only at the container's start.
    pub fn count_flags(&self, default_visits: bool, counting_at_start_only: bool) -> (r: i32)
        ensures
            r == (if default_visits || self.spec_counting().0 { 1int } else { 0 })
                + (if self.spec_counting().1 { 2int } else { 0 })
                + (if counting_at_start_only { 4int } else { 0 }),
    {
        let mut r: i32 = 0;
        if default_visits || self.visits_should_be_counted {
            r = r + 1;
        }
        if self.turn_index_should_be_counted {
            r = r + 2;
        }
        if counting_at_start_only {
            r = r + 4;
        }
        r
    }

    /// Reports an error against this object, once per message.
    pub fn error(&mut self, message: &str)
        ensures
            final(self).spec_errors() == spec_add_message(old(self).spec_errors(), message@),
            final(self).spec_warnings() == old(self).spec_warnings(),
            final(self).spec_id() == old(self).spec_id(),
            final(self).spec_counting() == old(self).spec_counting(),
            final(self).spec_kind() == old(self).spec_kind(),
            final(self).spec_parent() == old(self).spec_parent(),
            final(self).spec_content() == old(self).spec_content(),
            final(self).spec_debug_metadata() == old(self).spec_debug_metadata(),
    {
        proof {
            use_type_invariant(&*self);
        }
        if !contains_message(&self.error_messages, message) {
            let m = string_of(&chars_of(message));
            proof {
                lemma_push_unique(messages_model(self.error_messages@), message@);
                assert(messages_model(self.error_messages@.push(m)) =~= messages_model(self.error_messages@).push(message@));
            }
            let mut v: Vec<String> = Vec::new();
            std::mem::swap(&mut v, &mut self.error_messages);
            v.push(m);
            self.error_messages = v;
        }
    }

    /// Reports a warning against this object, once per message.
    pub fn warning(&mut self, message: &str)
        ensures
            final(self).spec_warnings() == spec_add_message(old(self).spec_warnings(), message@),
            final(self).spec_errors() == old(self).spec_errors(),
            final(self).spec_id() == old(self).spec_id(),
            final(self).spec_counting() == old(self).spec_counting(),
            final(self).spec_kind() == old(self).spec_kind(),
            final(self).spec_parent() == old(self).spec_parent(),
            final(self).spec_content() == old(self).spec_content(),
            final(self).spec_debug_metadata() == old(self).spec_debug_metadata(),
    {
        proof {
            use_type_invariant(&*self);
        }
        if !contains_message(&self.warning_messages, message) {
            let m = string_of(&chars_of(message));
            proof {
                lemma_push_unique(messages_model(self.warning_messages@), message@);
                assert(messages_model(self.warning_messages@.push(m)) =~= messages_model(self.warning_messages@).push(message@));
            }
            let mut v: Vec<String> = Vec::new();
            std::mem::swap(&mut v, &mut self.warning_messages);
            v.push(m);
            self.warning_messages = v;
        }
    }

    /// The errors reported, each once, in the order first reported.
    pub fn errors(&self) -> (r: &[String])
        ensures
            messages_model(r@) == self.spec_errors(),
            messages_unique(self.spec_errors()),
    {
        proof {
            use_type_invariant(self);
        }
        self.error_messages.as_slice()
    }

    /// The warnings reported, each once, in the order first reported.
    pub fn warnings(&self) -> (r: &[String])
        ensures
            messages_model(r@) == self.spec_warnings(),
            messages_unique(self.spec_warnings()),
    {
        proof {
            use_type_invariant(self);
        }
        self.warning_messages.as_slice()
    }

    pub fn had_error(&self) -> (r: bool)
        ensures
            r == (self.spec_errors().len() > 0),
    {
        self.error_messages.len() > 0
    }

    pub fn had_warning(&self) -> (r: bool)
        ensures
            r == (self.spec_warnings().len() > 0),
    {
        self.warning_messages.len() > 0
    }

}

/// Whether `message` is among `v`.
fn contains_message(v: &Vec<String>, message: &str) -> (r: bool)
    ensures
        r == messages_model(v@).contains(message@),
{
    let key = chars_of(message);
    let mut i: usize = 0;
    while i < v.len()
        invariant
            i <= v.len(),
            key@ == message@,
            forall|j: int| 0 <= j < i ==> v@[j]@ != message@,
        decreases v.len() - i,
    {
        if chars_eq(&chars_of(v[i].as_str()), &key) {
            proof {
                assert(messages_model(v@)[i as int] == message@);
            }
            return true;
        }
        i = i + 1;
    }
    proof {
        if messages_model(v@).contains(message@) {
            let j = choose|j: int| 0 <= j < messages_model(v@).len() && messages_model(v@)[j] == message@;
            assert(v@[j]@ == message@);
        }
    }
    false
}

proof fn lemma_push_unique(m: Seq<Seq<char>>, message: Seq<char>)
    requires
        messages_unique(m),
        !m.contains(message),
    ensures
        messages_unique(m.push(message)),
{
    let p = m.push(message);
    assert forall|i: int, j: int| 0 <= i < j < p.len() implies p[i] != p[j] by {
        if j == m.len() {
            assert(p[i] == m[i]);
        }
    }
}

/// Reporting the same message twice leaves what reporting it once leaves,
/// and a reported message is always among those reported.
pub proof fn law_report_once(m: Seq<Seq<char>>, message: Seq<char>)
    ensures
        spec_add_message(spec_add_message(m, message), message) == spec_add_message(m, message),
        spec_add_message(m, message).contains(message),
        messages_unique(m) ==> messages_unique(spec_add_message(m, message)),
{
    if !m.contains(message) {
        assert(m.push(message)[m.len() as int] == message);
        if messages_unique(m) {
            lemma_push_unique(m, message);
        }
    }
}

impl ParsedObjectIndex {
    /// Records `object` with its parent and content.
    pub fn register(&mut self, object: &ParsedObject)
        ensures
            final(self).spec_objects() == old(self).spec_objects().insert(
                object.spec_id(),
                crate::object::IndexedObject {
                    reference: object.reference_model(),
                    parent: object.spec_parent(),
                    content: final(self).spec_objects()[object.spec_id()].content,
                },
            ),
            final(self).spec_objects()[object.spec_id()].content@ == object.spec_content(),
    {
        let r = object.reference();
        let mut content: Vec<ParsedObjectRef> = Vec::new();
        let mut i: usize = 0;
        while i < object.content.len()
            invariant
                i <= object.content.len(),
                content@ == object.content@.take(i as int),
            decreases object.content.len() - i,
        {
            content.push(object.content[i]);
            i = i + 1;
            assert(content@ =~= object.content@.take(i as int));
        }
        assert(object.content@.take(object.content.len() as int) =~= object.content@);
        self.register_ref(r, object.parent, content);
    }
}

proof fn lemma_reference_model(object: &ParsedObject, r: ParsedObjectRef)
    requires
        r.spec_id() == object.spec_id(),
        r.spec_kind() == object.spec_kind(),
    ensures
        object.reference_model() == r,
{
    assert(r.spec_id() == object.spec_id() && r.spec_kind() == object.spec_kind());
    let c = object.reference_model();
    ParsedObjectRef::lemma_same_ref(c, r);
}

} // verus!
