//! Identities of parsed objects and an index of the parse tree.
use vstd::prelude::*;
use std::collections::BTreeMap;

verus! {

broadcast use vstd::std_specs::btree::group_btree_axioms;

/// The kind of a node of the parse tree.
#[derive(PartialEq, Eq, Structural, Clone, Copy, Debug)]
pub enum ObjectKind {
    Story,
    ContentList,
    Text,
    Expression,
    Number,
    StringExpression,
    VariableReference,
    VariableAssignment,
    List,
    ListDefinition,
    ListElementDefinition,
    DivertTarget,
    FunctionCall,
    Return,
    IncludedFile,
    TunnelOnwards,
    Conditional,
    ConditionalBranch,
    Sequence,
    Tag,
    AuthorWarning,
    ConstDeclaration,
    ExternalDeclaration,
    FlowBase,
    Knot,
    Stitch,
    Choice,
    Gather,
    Weave,
}

/// A reference to a parsed object: its identity and its kind.
#[derive(PartialEq, Eq, Structural, Clone, Copy, Debug)]
pub struct ParsedObjectRef {
    id: usize,
    kind: ObjectKind,
}

impl ParsedObjectRef {
    pub closed spec fn spec_id(&self) -> usize {
        self.id
    }

    pub closed spec fn spec_kind(&self) -> ObjectKind {
        self.kind
    }

    pub fn new(id: usize, kind: ObjectKind) -> (r: ParsedObjectRef)
        ensures
            r.spec_id() == id,
            r.spec_kind() == kind,
    {
        ParsedObjectRef { id, kind }
    }

    /// Two references with the same identity and kind are the same.
    pub proof fn lemma_same_ref(a: ParsedObjectRef, b: ParsedObjectRef)
        requires
            a.spec_id() == b.spec_id(),
            a.spec_kind() == b.spec_kind(),
        ensures
            a == b,
    {
    }

    pub fn id(&self) -> (r: usize)
        ensures
            r == self.spec_id(),
    {
        self.id
    }

    pub fn kind(&self) -> (r: ObjectKind)
        ensures
            r == self.spec_kind(),
    {
        self.kind
    }
}

/// What the index records of one object.
#[derive(Debug)]
pub struct IndexedObject {
    pub reference: ParsedObjectRef,
    pub parent: Option<ParsedObjectRef>,
    pub content: Vec<ParsedObjectRef>,
}

/// An index of parsed objects by identity, recording each one's parent and
/// content.
#[derive(Debug)]
pub struct ParsedObjectIndex {
    objects: BTreeMap<usize, IndexedObject>,
}

/// The parent recorded for `id`, if any.
pub open spec fn spec_parent_of(m: Map<usize, IndexedObject>, id: usize) -> Option<ParsedObjectRef> {
    if m.contains_key(id) {
        m[id].parent
    } else {
        None
    }
}

/// The content recorded for `id` (empty when `id` is not indexed).
pub open spec fn spec_content_of(m: Map<usize, IndexedObject>, id: usize) -> Seq<ParsedObjectRef> {
    if m.contains_key(id) {
        m[id].content@
    } else {
        Seq::empty()
    }
}

/// The parents of `id`, nearest first, following at most `fuel` links.
pub open spec fn spec_parent_chain(m: Map<usize, IndexedObject>, id: usize, fuel: nat) -> Seq<ParsedObjectRef>
    decreases fuel,
{
    if fuel == 0 {
        Seq::empty()
    } else {
        match spec_parent_of(m, id) {
            None => Seq::empty(),
            Some(p) => seq![p] + spec_parent_chain(m, p.spec_id(), (fuel - 1) as nat),
        }
    }
}

/// Following parents from `id` reaches an object without a parent within
/// `fuel` steps.
pub open spec fn spec_reaches_root(m: Map<usize, IndexedObject>, id: usize, fuel: nat) -> bool
    decreases fuel,
{
    match spec_parent_of(m, id) {
        None => true,
        Some(p) => fuel > 0 && spec_reaches_root(m, p.spec_id(), (fuel - 1) as nat),
    }
}

/// The first object of `kind` met by a breadth-first walk from `queue`: the
/// walk stops there.
pub open spec fn spec_walk_first(m: Map<usize, IndexedObject>, queue: Seq<ParsedObjectRef>, kind: ObjectKind, fuel: nat) -> Option<ParsedObjectRef>
    decreases fuel,
{
    if queue.len() == 0 || fuel == 0 {
        None
    } else if queue[0].spec_kind() == kind {
        Some(queue[0])
    } else {
        spec_walk_first(m, queue.drop_first() + spec_content_of(m, queue[0].spec_id()), kind, (fuel - 1) as nat)
    }
}

/// A breadth-first walk of the content graph, starting from `queue`,
/// empties its queue within `fuel` steps.
pub open spec fn spec_walk_ends(m: Map<usize, IndexedObject>, queue: Seq<ParsedObjectRef>, fuel: nat) -> bool
    decreases fuel,
{
    queue.len() == 0 || (fuel > 0 && spec_walk_ends(
        m,
        queue.drop_first() + spec_content_of(m, queue[0].spec_id()),
        (fuel - 1) as nat,
    ))
}

/// The objects of `kind` met by a breadth-first walk from `queue`, in the
/// order they are met.
pub open spec fn spec_walk_found(m: Map<usize, IndexedObject>, queue: Seq<ParsedObjectRef>, kind: ObjectKind, fuel: nat) -> Seq<ParsedObjectRef>
    decreases fuel,
{
    if queue.len() == 0 || fuel == 0 {
        Seq::empty()
    } else {
        let head = queue[0];
        let rest = spec_walk_found(
            m,
            queue.drop_first() + spec_content_of(m, head.spec_id()),
            kind,
            (fuel - 1) as nat,
        );
        if head.spec_kind() == kind {
            seq![head] + rest
        } else {
            rest
        }
    }
}

proof fn lemma_chain_fuel(m: Map<usize, IndexedObject>, id: usize, n: nat, k: nat)
    requires
        spec_reaches_root(m, id, n),
        n <= k,
    ensures
        spec_parent_chain(m, id, k) == spec_parent_chain(m, id, (n + 1) as nat),
        spec_reaches_root(m, id, k),
    decreases n,
{
    match spec_parent_of(m, id) {
        None => {},
        Some(p) => {
            lemma_chain_fuel(m, p.spec_id(), (n - 1) as nat, (k - 1) as nat);
        },
    }
}

impl ParsedObjectIndex {
    pub closed spec fn spec_objects(&self) -> Map<usize, IndexedObject> {
        self.objects@
    }

    /// The parents of `object`, outermost first.
    pub open spec fn spec_ancestry(&self, id: usize) -> Seq<ParsedObjectRef> {
        let n = choose|n: nat| spec_reaches_root(self.spec_objects(), id, n);
        spec_parent_chain(self.spec_objects(), id, n + 1).reverse()
    }

    /// The parent chain of `id` ends.
    pub open spec fn ancestry_ends(&self, id: usize) -> bool {
        exists|n: nat| spec_reaches_root(self.spec_objects(), id, n)
    }

    /// A breadth-first walk of the content below `id` ends.
    pub open spec fn content_walk_ends(&self, id: usize) -> bool {
        exists|n: nat| spec_walk_ends(self.spec_objects(), spec_content_of(self.spec_objects(), id), n)
    }

    /// The first descendant of `root` of `kind`, the walk stopping there.
    pub open spec fn spec_first_descendant(&self, root: ParsedObjectRef, kind: ObjectKind) -> Option<ParsedObjectRef> {
        let q = spec_content_of(self.spec_objects(), root.spec_id());
        let n = choose|n: nat| spec_walk_ends(self.spec_objects(), q, n);
        spec_walk_first(self.spec_objects(), q, kind, n)
    }

    /// The descendants of `root` of `kind`, in breadth-first order.
    pub open spec fn spec_descendants(&self, root: ParsedObjectRef, kind: ObjectKind) -> Seq<ParsedObjectRef> {
        let q = spec_content_of(self.spec_objects(), root.spec_id());
        let n = choose|n: nat| spec_walk_ends(self.spec_objects(), q, n);
        spec_walk_found(self.spec_objects(), q, kind, n)
    }

    pub fn new() -> (r: ParsedObjectIndex)
        ensures
            r.spec_objects() == Map::<usize, IndexedObject>::empty(),
    {
        ParsedObjectIndex { objects: BTreeMap::new() }
    }

    /// Records `reference` with its parent and content, replacing any earlier
    /// record of the same identity.
    pub fn register_ref(&mut self, reference: ParsedObjectRef, parent: Option<ParsedObjectRef>, content: Vec<ParsedObjectRef>)
        ensures
            final(self).spec_objects() == old(self).spec_objects().insert(
                reference.spec_id(),
                IndexedObject { reference, parent, content },
            ),
    {
        proof {
            broadcast use vstd::laws_cmp::group_laws_cmp;
        }
        self.objects.insert(reference.id(), IndexedObject { reference, parent, content });
    }

    pub fn resolve(&self, id: usize) -> (r: Option<ParsedObjectRef>)
        ensures
            r == (if self.spec_objects().contains_key(id) {
                Some(self.spec_objects()[id].reference)
            } else {
                None
            }),
    {
        proof {
            broadcast use vstd::laws_cmp::group_laws_cmp;
        }
        match self.objects.get(&id) {
            Some(o) => Some(o.reference),
            None => None,
        }
    }

    pub fn parent_of(&self, id: usize) -> (r: Option<ParsedObjectRef>)
        ensures
            r == spec_parent_of(self.spec_objects(), id),
    {
        proof {
            broadcast use vstd::laws_cmp::group_laws_cmp;
        }
        match self.objects.get(&id) {
            Some(o) => o.parent,
            None => None,
        }
    }

    pub fn content_of(&self, id: usize) -> (r: &[ParsedObjectRef])
        ensures
            r@ == spec_content_of(self.spec_objects(), id),
    {
        proof {
            broadcast use vstd::laws_cmp::group_laws_cmp;
        }
        match self.objects.get(&id) {
            Some(o) => o.content.as_slice(),
            None => {
                let empty: &[ParsedObjectRef] = &[];
                assert(empty@ =~= Seq::<ParsedObjectRef>::empty());
                empty
            },
        }
    }

    /// The ancestors of `object`, from the outermost to its parent.
    pub fn ancestry_of(&self, object: ParsedObjectRef) -> (r: Vec<ParsedObjectRef>)
        requires
            self.ancestry_ends(object.spec_id()),
        ensures
            r@ == self.spec_ancestry(object.spec_id()),
    {
        let ghost m = self.spec_objects();
        let ghost n = choose|n: nat| spec_reaches_root(m, object.spec_id(), n);
        let mut chain: Vec<ParsedObjectRef> = Vec::new();
        let mut next = self.parent_of(object.id());
        let ghost mut cur: usize = object.spec_id();
        let ghost mut fuel: nat = n;
        proof {
            lemma_chain_fuel(m, cur, n, n + 1);
        }
        while next.is_some()
            invariant
                m == self.spec_objects(),
                spec_reaches_root(m, cur, fuel),
                next == spec_parent_of(m, cur),
                chain@ + spec_parent_chain(m, cur, fuel + 1) == spec_parent_chain(m, object.spec_id(), n + 1),
            decreases fuel,
        {
            let parent = next.unwrap();
            proof {
                lemma_chain_fuel(m, parent.spec_id(), (fuel - 1) as nat, fuel);
            }
            let ghost before = chain@;
            chain.push(parent);
            assert(chain@ + spec_parent_chain(m, parent.spec_id(), fuel) =~= before + (seq![parent]
                + spec_parent_chain(m, parent.spec_id(), fuel)));
            proof {
                cur = parent.spec_id();
                fuel = (fuel - 1) as nat;
            }
            next = self.parent_of(parent.id());
        }
        assert(chain@ =~= chain@ + spec_parent_chain(m, cur, fuel + 1));
        let mut result: Vec<ParsedObjectRef> = Vec::new();
        let mut i = chain.len();
        while i > 0
            invariant
                i <= chain.len(),
                result@ == chain@.skip(i as int).reverse(),
            decreases i,
        {
            i = i - 1;
            result.push(chain[i]);
            assert(result@ =~= chain@.skip(i as int).reverse());
        }
        assert(chain@.skip(0) =~= chain@);
        result
    }

    /// The outermost `Story` among `object` and its ancestors.
    pub fn story_for(&self, object: ParsedObjectRef) -> (r: Option<ParsedObjectRef>)
        requires
            self.ancestry_ends(object.spec_id()),
        ensures
            object.spec_kind() == ObjectKind::Story ==> r == Some(object),
            object.spec_kind() != ObjectKind::Story ==> r == spec_first_of_kind(
                self.spec_ancestry(object.spec_id()),
                ObjectKind::Story,
            ),
    {
        if object.kind() == ObjectKind::Story {
            return Some(object);
        }
        let ancestry = self.ancestry_of(object);
        let mut i: usize = 0;
        assert(ancestry@.skip(0) =~= ancestry@);
        while i < ancestry.len()
            invariant
                i <= ancestry.len(),
                spec_first_of_kind(ancestry@, ObjectKind::Story) == spec_first_of_kind(ancestry@.skip(i as int), ObjectKind::Story),
                ancestry@ == self.spec_ancestry(object.spec_id()),
                object.spec_kind() != ObjectKind::Story,
            decreases ancestry.len() - i,
        {
            assert(ancestry@.skip(i as int)[0] == ancestry@[i as int]);
            if ancestry[i].kind() == ObjectKind::Story {
                return Some(ancestry[i]);
            }
            assert(ancestry@.skip(i as int).drop_first() =~= ancestry@.skip(i + 1));
            i = i + 1;
        }
        None
    }

    /// The nearest ancestor of `object` that is a story, a flow, a knot or a
    /// stitch.
    pub fn closest_flow_base_for(&self, object: ParsedObjectRef) -> (r: Option<ParsedObjectRef>)
        requires
            self.ancestry_ends(object.spec_id()),
        ensures
            r == spec_last_flow_base(self.spec_ancestry(object.spec_id())),
    {
        let ancestry = self.ancestry_of(object);
        let mut i: usize = ancestry.len();
        assert(ancestry@.take(i as int) =~= ancestry@);
        while i > 0
            invariant
                i <= ancestry.len(),
                spec_last_flow_base(ancestry@) == spec_last_flow_base(ancestry@.take(i as int)),
                ancestry@ == self.spec_ancestry(object.spec_id()),
            decreases i,
        {
            let k = ancestry[i - 1].kind();
            assert(ancestry@.take(i as int).drop_last() =~= ancestry@.take(i - 1));
            assert(ancestry@.take(i as int).last() == ancestry@[i - 1]);
            if k == ObjectKind::Story || k == ObjectKind::FlowBase || k == ObjectKind::Knot || k
                == ObjectKind::Stitch {
                return Some(ancestry[i - 1]);
            }
            i = i - 1;
        }
        None
    }

    fn walk(&self, root: ParsedObjectRef, kind: ObjectKind, first_only: bool) -> (r: Vec<ParsedObjectRef>)
        requires
            self.content_walk_ends(root.spec_id()),
        ensures
            !first_only ==> r@ == self.spec_descendants(root, kind),
            first_only ==> r@ == self.spec_descendants(root, kind).take(
                if self.spec_descendants(root, kind).len() > 0 { 1int } else { 0int },
            ),
    {
        let ghost m = self.spec_objects();
        let start = self.content_of(root.id());
        let ghost q0 = start@;
        let ghost n = choose|n: nat| spec_walk_ends(self.spec_objects(), spec_content_of(self.spec_objects(), root.spec_id()), n);
        assert(spec_walk_ends(m, q0, n));
        let mut queue: Vec<ParsedObjectRef> = Vec::new();
        let mut k: usize = 0;
        while k < start.len()
            invariant
                k <= start.len(),
                queue@ == start@.take(k as int),
            decreases start.len() - k,
        {
            queue.push(start[k]);
            k = k + 1;
            assert(queue@ =~= start@.take(k as int));
        }
        assert(start@.take(k as int) =~= start@);
        let mut head: usize = 0;
        let mut found: Vec<ParsedObjectRef> = Vec::new();
        assert(self.spec_descendants(root, kind) == spec_walk_found(m, q0, kind, n));
        let ghost mut fuel: nat = n;
        assert(queue@.skip(0) =~= queue@);
        while head < queue.len()
            invariant
                m == self.spec_objects(),
                head <= queue.len(),
                spec_walk_ends(m, queue@.skip(head as int), fuel),
                found@ + spec_walk_found(m, queue@.skip(head as int), kind, fuel) == spec_walk_found(m, q0, kind, n),
                first_only ==> found@.len() == 0,
                self.spec_descendants(root, kind) == spec_walk_found(m, q0, kind, n),
            decreases fuel,
        {
            let candidate = queue[head];
            let ghost q = queue@.skip(head as int);
            assert(q[0] == candidate);
            let children = self.content_of(candidate.id());
            let mut c: usize = 0;
            let ghost base = queue@;
            while c < children.len()
                invariant
                    c <= children.len(),
                    queue@ == base + children@.take(c as int),
                decreases children.len() - c,
            {
                queue.push(children[c]);
                c = c + 1;
                assert(queue@ =~= base + children@.take(c as int));
            }
            assert(children@.take(c as int) =~= children@);
            assert(queue@.skip(head + 1) =~= q.drop_first() + spec_content_of(m, candidate.spec_id()));
            let ghost before = found@;
            if candidate.kind() == kind {
                found.push(candidate);
                assert(found@ + spec_walk_found(m, queue@.skip(head + 1), kind, (fuel - 1) as nat) =~= before + (seq![candidate] + spec_walk_found(m, queue@.skip(head + 1), kind, (fuel - 1) as nat)));
                if first_only {
                    assert(spec_walk_found(m, q0, kind, n) =~= seq![candidate] + spec_walk_found(m, queue@.skip(head + 1), kind, (fuel - 1) as nat));
                    assert(found@ =~= spec_walk_found(m, q0, kind, n).take(1));
                    return found;
                }
            }
            head = head + 1;
            proof {
                fuel = (fuel - 1) as nat;
            }
        }
        assert(queue@.skip(head as int).len() == 0);
        assert(found@ + Seq::<ParsedObjectRef>::empty() =~= found@);
        found
    }

    /// The first descendant of `root` of `kind`, breadth first.
    pub fn find_descendant(&self, root: ParsedObjectRef, kind: ObjectKind) -> (r: Option<ParsedObjectRef>)
        requires
            self.content_walk_ends(root.spec_id()),
        ensures
            r == self.spec_first_descendant(root, kind),
    {
        proof {
            law_first_descendant_is_first_found(*self, root, kind);
        }
        let found = self.walk(root, kind, true);
        if found.len() > 0 {
            Some(found[0])
        } else {
            None
        }
    }

    /// Every descendant of `root` of `kind`, breadth first.
    pub fn find_all_descendants(&self, root: ParsedObjectRef, kind: ObjectKind) -> (r: Vec<ParsedObjectRef>)
        requires
            self.content_walk_ends(root.spec_id()),
        ensures
            r@ == self.spec_descendants(root, kind),
    {
        self.walk(root, kind, false)
    }
}

/// The first reference of `kind` in `s`.
pub open spec fn spec_first_of_kind(s: Seq<ParsedObjectRef>, kind: ObjectKind) -> Option<ParsedObjectRef>
    decreases s.len(),
{
    if s.len() == 0 {
        None
    } else if s[0].spec_kind() == kind {
        Some(s[0])
    } else {
        spec_first_of_kind(s.drop_first(), kind)
    }
}

pub open spec fn is_flow_base_kind(k: ObjectKind) -> bool {
    k == ObjectKind::Story || k == ObjectKind::FlowBase || k == ObjectKind::Knot || k == ObjectKind::Stitch
}

/// The last reference in `s` that is a story, a flow, a knot or a stitch.
pub open spec fn spec_last_flow_base(s: Seq<ParsedObjectRef>) -> Option<ParsedObjectRef>
    decreases s.len(),
{
    if s.len() == 0 {
        None
    } else if is_flow_base_kind(s.last().spec_kind()) {
        Some(s.last())
    } else {
        spec_last_flow_base(s.drop_last())
    }
}

/// Registering an object records it under its identity: looking it up
/// gives back the reference, its parent and its content, and every other
/// identity is looked up as before.
pub proof fn law_register_then_lookup(m: Map<usize, IndexedObject>, reference: ParsedObjectRef, parent: Option<ParsedObjectRef>, content: Vec<ParsedObjectRef>, other: usize)
    requires
        other != reference.spec_id(),
    ensures
        ({
            let m2 = m.insert(reference.spec_id(), IndexedObject { reference, parent, content });
            &&& m2.contains_key(reference.spec_id()) && m2[reference.spec_id()].reference == reference
            &&& spec_parent_of(m2, reference.spec_id()) == parent
            &&& spec_content_of(m2, reference.spec_id()) == content@
            &&& spec_parent_of(m2, other) == spec_parent_of(m, other)
            &&& spec_content_of(m2, other) == spec_content_of(m, other)
        }),
{
}

proof fn lemma_chain_links(m: Map<usize, IndexedObject>, id: usize, n: nat)
    requires
        spec_reaches_root(m, id, n),
    ensures
        ({
            let c = spec_parent_chain(m, id, n + 1);
            &&& (c.len() == 0 <==> spec_parent_of(m, id) is None)
            &&& c.len() > 0 ==> spec_parent_of(m, id) == Some(c[0])
            &&& c.len() > 0 ==> spec_parent_of(m, c.last().spec_id()) is None
            &&& forall|j: int| 0 <= j < c.len() - 1 ==> spec_parent_of(m, #[trigger] c[j].spec_id()) == Some(c[j + 1])
        }),
    decreases n,
{
    match spec_parent_of(m, id) {
        None => {},
        Some(p) => {
            let n1 = (n - 1) as nat;
            lemma_chain_links(m, p.spec_id(), n1);
            let c = spec_parent_chain(m, id, n + 1);
            let c1 = spec_parent_chain(m, p.spec_id(), n1 + 1);
            assert(n == n1 + 1);
            assert(c == seq![p] + c1);
            assert forall|j: int| 0 <= j < c.len() - 1 implies spec_parent_of(m, #[trigger] c[j].spec_id()) == Some(c[j + 1]) by {
                if j > 0 {
                    assert(c[j] == c1[j - 1]);
                    assert(c[j + 1] == c1[j]);
                }
            }
        },
    }
}

/// Ancestry is the chain of parents, root first: the first element has no
/// parent, each element is the parent of the one after it, and the last is
/// the object's own parent (the ancestry is empty when it has none).
pub proof fn law_ancestry_is_parent_chain(index: ParsedObjectIndex, id: usize)
    requires
        index.ancestry_ends(id),
    ensures
        ({
            let m = index.spec_objects();
            let a = index.spec_ancestry(id);
            &&& (a.len() == 0 <==> spec_parent_of(m, id) is None)
            &&& a.len() > 0 ==> spec_parent_of(m, id) == Some(a.last())
            &&& a.len() > 0 ==> spec_parent_of(m, a[0].spec_id()) is None
            &&& forall|i: int| 0 <= i < a.len() - 1 ==> spec_parent_of(m, #[trigger] a[i + 1].spec_id()) == Some(a[i])
        }),
{
    let m = index.spec_objects();
    let n = choose|n: nat| spec_reaches_root(m, id, n);
    lemma_chain_links(m, id, n);
    let c = spec_parent_chain(m, id, n + 1);
    let a = index.spec_ancestry(id);
    assert(a == c.reverse());
    assert forall|i: int| 0 <= i < a.len() - 1 implies spec_parent_of(m, #[trigger] a[i + 1].spec_id()) == Some(a[i]) by {
        let j = c.len() - 2 - i;
        assert(a[i + 1] == c[j]);
        assert(a[i] == c[j + 1]);
        assert(spec_parent_of(m, c[j].spec_id()) == Some(c[j + 1]));
    }
    if a.len() > 0 {
        assert(a[0] == c.last());
        assert(a.last() == c[0]);
    }
}

proof fn lemma_walk_found_kind(m: Map<usize, IndexedObject>, q: Seq<ParsedObjectRef>, kind: ObjectKind, fuel: nat)
    ensures
        forall|i: int| 0 <= i < spec_walk_found(m, q, kind, fuel).len() ==> (#[trigger] spec_walk_found(m, q, kind, fuel)[i]).spec_kind() == kind,
    decreases fuel,
{
    if q.len() > 0 && fuel > 0 {
        let rest_q = q.drop_first() + spec_content_of(m, q[0].spec_id());
        lemma_walk_found_kind(m, rest_q, kind, (fuel - 1) as nat);
        let rest = spec_walk_found(m, rest_q, kind, (fuel - 1) as nat);
        if q[0].spec_kind() == kind {
            assert forall|i: int| 0 <= i < (seq![q[0]] + rest).len() implies (#[trigger] (seq![q[0]] + rest)[i]).spec_kind() == kind by {
                if i > 0 {
                    assert((seq![q[0]] + rest)[i] == rest[i - 1]);
                }
            }
        }
    }
}

/// Every descendant found for a kind has that kind.  (`find_descendant`
/// gives the first of them, `find_all_descendants` all of them, in the
/// order of a breadth-first walk.)
pub proof fn law_descendants_have_kind(index: ParsedObjectIndex, root: ParsedObjectRef, kind: ObjectKind)
    ensures
        forall|i: int| 0 <= i < index.spec_descendants(root, kind).len() ==> (#[trigger] index.spec_descendants(root, kind)[i]).spec_kind() == kind,
{
    let q = spec_content_of(index.spec_objects(), root.spec_id());
    let n = choose|n: nat| spec_walk_ends(index.spec_objects(), q, n);
    lemma_walk_found_kind(index.spec_objects(), q, kind, n);
}

proof fn lemma_walk_first_found(m: Map<usize, IndexedObject>, q: Seq<ParsedObjectRef>, kind: ObjectKind, fuel: nat)
    ensures
        spec_walk_first(m, q, kind, fuel) == (if spec_walk_found(m, q, kind, fuel).len() > 0 {
            Some(spec_walk_found(m, q, kind, fuel)[0])
        } else {
            None
        }),
    decreases fuel,
{
    if q.len() > 0 && fuel > 0 && q[0].spec_kind() != kind {
        lemma_walk_first_found(m, q.drop_first() + spec_content_of(m, q[0].spec_id()), kind, (fuel - 1) as nat);
    }
}

/// The first descendant found by a walk that stops at it is the first of
/// all the descendants of that kind (what `find_descendant` and
/// `find_all_descendants` give).
pub proof fn law_first_descendant_is_first_found(index: ParsedObjectIndex, root: ParsedObjectRef, kind: ObjectKind)
    ensures
        index.spec_first_descendant(root, kind) == (if index.spec_descendants(root, kind).len() > 0 {
            Some(index.spec_descendants(root, kind)[0])
        } else {
            None
        }),
{
    let q = spec_content_of(index.spec_objects(), root.spec_id());
    let n = choose|n: nat| spec_walk_ends(index.spec_objects(), q, n);
    lemma_walk_first_found(index.spec_objects(), q, kind, n);
}

} // verus!
