//! The structure of a weave: its nodes grouped into content runs, choices
//! and gathers at the weave's own depth, with deeper choices and gathers
//! gathered into nested weaves.
//!
//! A node is seen through what structuring reads of it: whether it is a
//! choice or a gather, and then at what depth. Entries name nodes by their
//! index in the slice that was structured.
use vstd::prelude::*;
use vstd::multiset::Multiset;

verus! {

/// A node of a weave, as structuring sees it.
#[derive(Debug, Clone, Copy, PartialEq, Eq)]
pub enum WeaveNode {
    /// A choice, at its indentation depth.
    Choice(usize),
    /// A gather, at its indentation depth.
    Gather(usize),
    /// Any other node.
    Other,
}

/// What an entry of a structured weave holds.
#[derive(Debug, Clone, PartialEq, Eq)]
pub enum StructuredWeaveEntryKind {
    /// A run of nodes that are neither choices nor gathers.
    Content(Vec<usize>),
    Choice(usize),
    Gather(usize),
}

/// An entry of a structured weave, with the deeper weave that follows it.
#[derive(Debug)]
pub struct StructuredWeaveEntry {
    kind: StructuredWeaveEntryKind,
    nested: Option<Box<StructuredWeave>>,
}

/// A weave: its depth and its entries.
#[derive(Debug)]
pub struct StructuredWeave {
    base_depth: usize,
    entries: Vec<StructuredWeaveEntry>,
}

pub enum SpecEntryKind {
    Content(Seq<int>),
    Choice(int),
    Gather(int),
}

pub struct SpecEntry {
    pub kind: SpecEntryKind,
    pub nested: Option<SpecWeave>,
}

pub struct SpecWeave {
    pub base_depth: int,
    pub entries: Seq<SpecEntry>,
}

/// The indices of `v`, as integers.
pub open spec fn indices_model(v: Seq<usize>) -> Seq<int> {
    v.map_values(|i: usize| i as int)
}

pub open spec fn kind_model(k: StructuredWeaveEntryKind) -> SpecEntryKind {
    match k {
        StructuredWeaveEntryKind::Content(v) => SpecEntryKind::Content(indices_model(v@)),
        StructuredWeaveEntryKind::Choice(i) => SpecEntryKind::Choice(i as int),
        StructuredWeaveEntryKind::Gather(i) => SpecEntryKind::Gather(i as int),
    }
}

pub closed spec fn weave_model(w: StructuredWeave) -> SpecWeave
    decreases w,
{
    SpecWeave { base_depth: w.base_depth as int, entries: entries_model(w.entries@) }
}

pub closed spec fn entries_model(s: Seq<StructuredWeaveEntry>) -> Seq<SpecEntry>
    decreases s,
{
    if s.len() == 0 {
        Seq::empty()
    } else {
        entries_model(s.drop_last()).push(entry_model(s.last()))
    }
}

pub closed spec fn entry_model(e: StructuredWeaveEntry) -> SpecEntry
    decreases e,
{
    SpecEntry {
        kind: kind_model(e.kind),
        nested: match e.nested {
            Some(b) => Some(weave_model(*b)),
            None => None,
        },
    }
}

/// The depth of a choice or a gather.
pub open spec fn spec_depth(n: WeaveNode) -> Option<int> {
    match n {
        WeaveNode::Choice(d) => Some(d as int),
        WeaveNode::Gather(d) => Some(d as int),
        WeaveNode::Other => None,
    }
}

/// The least depth among the nodes in `lo..hi`.
pub open spec fn spec_min_depth(items: Seq<WeaveNode>, lo: int, hi: int) -> Option<int>
    decreases hi - lo,
{
    if hi <= lo {
        None
    } else {
        let rest = spec_min_depth(items, lo, hi - 1);
        match (rest, spec_depth(items[hi - 1])) {
            (Some(a), Some(b)) => Some(if b < a { b } else { a }),
            (Some(a), None) => Some(a),
            (None, b) => b,
        }
    }
}

/// The depth of the weave made of `lo..hi`: the least depth of its choices
/// and gathers, 1 when it has none.
pub open spec fn spec_base_depth(items: Seq<WeaveNode>, lo: int, hi: int) -> int {
    match spec_min_depth(items, lo, hi) {
        Some(d) => d,
        None => 1,
    }
}

/// Where the deeper part that starts before `j` ends: at the first node
/// from `j` on back at depth `base` or above, else at `hi`.
pub open spec fn spec_nested_end(items: Seq<WeaveNode>, base: int, j: int, hi: int) -> int
    decreases hi - j,
{
    if j >= hi {
        hi
    } else if spec_depth(items[j]) matches Some(d) && d <= base {
        j
    } else {
        spec_nested_end(items, base, j + 1, hi)
    }
}

/// `entries` with a content entry for `pending` added, if it holds any node.
pub open spec fn spec_flush(entries: Seq<SpecEntry>, pending: Seq<int>) -> Seq<SpecEntry> {
    if pending.len() > 0 {
        entries.push(SpecEntry { kind: SpecEntryKind::Content(pending), nested: None })
    } else {
        entries
    }
}

/// The weave made of the nodes in `lo..hi`.
pub open spec fn spec_structure(items: Seq<WeaveNode>, lo: int, hi: int) -> SpecWeave
    decreases hi - lo, hi - lo + 1,
{
    let base = spec_base_depth(items, lo, hi);
    if lo <= hi {
        SpecWeave { base_depth: base, entries: spec_entries(items, lo, hi, base, lo, Seq::empty(), Seq::empty()) }
    } else {
        SpecWeave { base_depth: base, entries: Seq::empty() }
    }
}

/// The entries of the weave made of `lo..hi`, at depth `base`, once the
/// nodes before `index` gave `entries` and the content run `pending`.
pub open spec fn spec_entries(
    items: Seq<WeaveNode>,
    lo: int,
    hi: int,
    base: int,
    index: int,
    entries: Seq<SpecEntry>,
    pending: Seq<int>,
) -> Seq<SpecEntry>
    decreases hi - lo, hi - index,
{
    if index < lo || index >= hi {
        spec_flush(entries, pending)
    } else if spec_depth(items[index]) matches Some(d) && d > base {
        let end = spec_nested_end(items, base, index + 1, hi);
        if index < end && end <= hi && end - index < hi - lo {
            let nested = spec_structure(items, index, end);
            if entries.len() == 0 {
                spec_entries(
                    items, lo, hi, base, end,
                    seq![SpecEntry { kind: SpecEntryKind::Content(Seq::empty()), nested: Some(nested) }],
                    pending,
                )
            } else {
                spec_entries(
                    items, lo, hi, base, end,
                    entries.drop_last().push(SpecEntry { kind: entries.last().kind, nested: Some(nested) }),
                    pending,
                )
            }
        } else {
            entries
        }
    } else {
        match items[index] {
            WeaveNode::Choice(_) => spec_entries(
                items, lo, hi, base, index + 1,
                spec_flush(entries, pending).push(SpecEntry { kind: SpecEntryKind::Choice(index), nested: None }),
                Seq::empty(),
            ),
            WeaveNode::Gather(_) => spec_entries(
                items, lo, hi, base, index + 1,
                spec_flush(entries, pending).push(SpecEntry { kind: SpecEntryKind::Gather(index), nested: None }),
                Seq::empty(),
            ),
            WeaveNode::Other => spec_entries(items, lo, hi, base, index + 1, entries, pending.push(index)),
        }
    }
}


/// The nodes an entry kind names itself.
pub open spec fn own_nodes(k: SpecEntryKind) -> Seq<int> {
    match k {
        SpecEntryKind::Content(v) => v,
        SpecEntryKind::Choice(i) => seq![i],
        SpecEntryKind::Gather(i) => seq![i],
    }
}

/// Every node a weave names, its entries in order, each entry's own
/// nodes before those of the weave nested under it.
pub open spec fn flat_weave(w: SpecWeave) -> Seq<int>
    decreases w,
{
    flat_entries(w.entries)
}

pub open spec fn flat_entries(es: Seq<SpecEntry>) -> Seq<int>
    decreases es,
{
    if es.len() == 0 {
        Seq::empty()
    } else {
        flat_entries(es.drop_last()) + flat_entry(es.last())
    }
}

pub open spec fn flat_entry(e: SpecEntry) -> Seq<int>
    decreases e,
{
    own_nodes(e.kind) + match e.nested {
        Some(w) => flat_weave(w),
        None => Seq::empty(),
    }
}

/// The indices `lo..hi`.
pub open spec fn spec_range(lo: int, hi: int) -> Seq<int> {
    Seq::new((hi - lo) as nat, |k: int| lo + k)
}

/// When the last entry already has a deeper part under it, the node at
/// `index` is not deeper than the weave.
pub open spec fn last_entry_closed(items: Seq<WeaveNode>, hi: int, base: int, entries: Seq<SpecEntry>, index: int) -> bool {
    entries.len() > 0 && entries.last().nested is Some ==> (index >= hi || (spec_depth(items[index]) matches Some(d) && d <= base))
}

proof fn lemma_flat_push(es: Seq<SpecEntry>, e: SpecEntry)
    ensures
        flat_entries(es.push(e)) == flat_entries(es) + flat_entry(e),
{
    assert(es.push(e).drop_last() =~= es);
}

proof fn lemma_range_split(lo: int, mid: int, hi: int)
    requires
        lo <= mid <= hi,
    ensures
        spec_range(lo, mid) + spec_range(mid, hi) =~= spec_range(lo, hi),
{
}

proof fn lemma_entries_keep_nodes(
    items: Seq<WeaveNode>,
    lo: int,
    hi: int,
    base: int,
    index: int,
    entries: Seq<SpecEntry>,
    pending: Seq<int>,
)
    requires
        0 <= lo <= index <= hi <= items.len(),
        base == spec_base_depth(items, lo, hi),
        last_entry_closed(items, hi, base, entries, index),
    ensures
        flat_entries(spec_entries(items, lo, hi, base, index, entries, pending)).to_multiset()
            =~= flat_entries(entries).to_multiset().add(pending.to_multiset()).add(spec_range(index, hi).to_multiset()),
    decreases hi - lo, hi - index,
{
    broadcast use vstd::seq_lib::lemma_multiset_commutative;
    broadcast use vstd::multiset::group_multiset_axioms;
    let result = flat_entries(spec_entries(items, lo, hi, base, index, entries, pending)).to_multiset();
    let goal = flat_entries(entries).to_multiset().add(pending.to_multiset()).add(spec_range(index, hi).to_multiset());
    if index >= hi {
        assert(spec_range(index, hi) =~= Seq::<int>::empty());
        lemma_empty_multiset();
        if pending.len() > 0 {
            let e = SpecEntry { kind: SpecEntryKind::Content(pending), nested: None };
            lemma_flat_push(entries, e);
            assert(flat_entry(e) =~= pending);
        } else {
            assert(pending =~= Seq::<int>::empty());
        }
        assert(result =~= goal);
    } else if spec_depth(items[index]) matches Some(d) && d > base {
        let end = spec_nested_end(items, base, index + 1, hi);
        lemma_nested_end_bounds(items, base, index + 1, hi);
        lemma_min_depth_bounds(items, lo, hi);
        if index == lo && end == hi {
            let k = choose|k: int| lo <= k < hi && spec_depth(items[k]) == Some(base);
            assert(k != index);
        }
        assert(index < end && end <= hi && end - index < hi - lo);
        let nested = spec_structure(items, index, end);
        law_structure_keeps_nodes(items, index, end);
        let next = if entries.len() == 0 {
            seq![SpecEntry { kind: SpecEntryKind::Content(Seq::empty()), nested: Some(nested) }]
        } else {
            entries.drop_last().push(SpecEntry { kind: entries.last().kind, nested: Some(nested) })
        };
        if entries.len() == 0 {
            lemma_flat_push(Seq::empty(), next[0]);
            assert(Seq::<SpecEntry>::empty().push(next[0]) =~= next);
            assert(flat_entries(Seq::<SpecEntry>::empty()) =~= Seq::<int>::empty());
            assert(flat_entry(next[0]) =~= flat_weave(nested));
            assert(flat_entries(next) =~= flat_weave(nested));
        } else {
            let last = entries.last();
            assert(last.nested is None);
            lemma_flat_push(entries.drop_last(), last);
            assert(entries.drop_last().push(last) =~= entries);
            lemma_flat_push(entries.drop_last(), next.last());
            assert(next =~= entries.drop_last().push(next.last()));
            assert(flat_entry(last) =~= own_nodes(last.kind));
            assert(flat_entry(next.last()) =~= own_nodes(last.kind) + flat_weave(nested));
            assert(flat_entries(next) =~= flat_entries(entries) + flat_weave(nested));
        }
        assert(flat_entries(next) =~= flat_entries(entries) + flat_weave(nested));
        lemma_entries_keep_nodes(items, lo, hi, base, end, next, pending);
        lemma_range_split(index, end, hi);
        assert(spec_range(index, hi).to_multiset() =~= spec_range(index, end).to_multiset().add(spec_range(end, hi).to_multiset()));
        assert(flat_entries(next).to_multiset() =~= flat_entries(entries).to_multiset().add(flat_weave(nested).to_multiset()));
        assert(result =~= goal);
    } else {
        assert(spec_range(index, hi) =~= seq![index] + spec_range(index + 1, hi));
        match items[index] {
            WeaveNode::Choice(_) => {
                let flushed = spec_flush(entries, pending);
                let e = SpecEntry { kind: SpecEntryKind::Choice(index), nested: None };
                lemma_flat_push(flushed, e);
                if pending.len() > 0 {
                    let c = SpecEntry { kind: SpecEntryKind::Content(pending), nested: None };
                    lemma_flat_push(entries, c);
                    assert(flat_entry(c) =~= pending);
                } else {
                    assert(pending =~= Seq::<int>::empty());
                }
                assert(flat_entry(e) =~= seq![index]);
                lemma_entries_keep_nodes(items, lo, hi, base, index + 1, flushed.push(e), Seq::empty());
                lemma_empty_multiset();
            },
            WeaveNode::Gather(_) => {
                let flushed = spec_flush(entries, pending);
                let e = SpecEntry { kind: SpecEntryKind::Gather(index), nested: None };
                lemma_flat_push(flushed, e);
                if pending.len() > 0 {
                    let c = SpecEntry { kind: SpecEntryKind::Content(pending), nested: None };
                    lemma_flat_push(entries, c);
                    assert(flat_entry(c) =~= pending);
                } else {
                    assert(pending =~= Seq::<int>::empty());
                }
                assert(flat_entry(e) =~= seq![index]);
                lemma_entries_keep_nodes(items, lo, hi, base, index + 1, flushed.push(e), Seq::empty());
                lemma_empty_multiset();
            },
            WeaveNode::Other => {
                lemma_entries_keep_nodes(items, lo, hi, base, index + 1, entries, pending.push(index));
                assert(pending.push(index) =~= pending + seq![index]);
            },
        }
        assert(result =~= goal);
    }
}

/// Structuring keeps every node: the nodes a structured weave names are
/// those of the slice it was made of, each once (in an order of their own).
pub proof fn law_structure_keeps_nodes(items: Seq<WeaveNode>, lo: int, hi: int)
    requires
        0 <= lo <= hi <= items.len(),
    ensures
        flat_weave(spec_structure(items, lo, hi)).to_multiset() =~= spec_range(lo, hi).to_multiset(),
    decreases hi - lo, hi - lo + 1,
{
    broadcast use vstd::multiset::group_multiset_axioms;
    let base = spec_base_depth(items, lo, hi);
    lemma_entries_keep_nodes(items, lo, hi, base, lo, Seq::empty(), Seq::empty());
    assert(flat_entries(Seq::<SpecEntry>::empty()) =~= Seq::<int>::empty());
    lemma_empty_multiset();
}

proof fn lemma_empty_multiset()
    ensures
        Seq::<int>::empty().to_multiset() =~= Multiset::<int>::empty(),
{
    broadcast use vstd::multiset::group_multiset_axioms;
    let e = Seq::<int>::empty();
    vstd::seq_lib::lemma_multiset_commutative(e, e);
    assert(e + e =~= e);
    assert forall|x: int| e.to_multiset().count(x) == Multiset::<int>::empty().count(x) by {
        assert(e.to_multiset().count(x) == e.to_multiset().count(x) + e.to_multiset().count(x));
    }
}

proof fn lemma_min_depth_bounds(items: Seq<WeaveNode>, lo: int, hi: int)
    requires
        0 <= lo <= hi <= items.len(),
    ensures
        spec_min_depth(items, lo, hi) matches Some(b) ==> exists|k: int| lo <= k < hi && spec_depth(items[k]) == Some(b),
        forall|k: int| lo <= k < hi && (#[trigger] spec_depth(items[k])) is Some ==>
            (spec_min_depth(items, lo, hi) matches Some(b) && b <= spec_depth(items[k])->0),
    decreases hi - lo,
{
    if lo < hi {
        lemma_min_depth_bounds(items, lo, hi - 1);
        if let Some(b) = spec_min_depth(items, lo, hi) {
            if spec_depth(items[hi - 1]) == Some(b) {
                assert(lo <= hi - 1 < hi && spec_depth(items[hi - 1]) == Some(b));
            } else {
                let k = choose|k: int| lo <= k < hi - 1 && spec_depth(items[k]) == Some(b);
                assert(lo <= k < hi && spec_depth(items[k]) == Some(b));
            }
        }
    }
}

proof fn lemma_nested_end_bounds(items: Seq<WeaveNode>, base: int, j: int, hi: int)
    requires
        j <= hi,
        hi <= items.len(),
        0 <= j,
    ensures
        j <= spec_nested_end(items, base, j, hi) <= hi,
        spec_nested_end(items, base, j, hi) == hi
            || (spec_depth(items[spec_nested_end(items, base, j, hi)]) matches Some(d) && d <= base),
        forall|k: int| j <= k < hi && (#[trigger] spec_depth(items[k]) matches Some(d) && d <= base) ==>
            spec_nested_end(items, base, j, hi) <= k,
    decreases hi - j,
{
    if j < hi {
        lemma_nested_end_bounds(items, base, j + 1, hi);
    }
}

fn depth_of(n: WeaveNode) -> (r: Option<usize>)
    ensures
        match r {
            Some(d) => spec_depth(n) == Some(d as int),
            None => spec_depth(n) is None,
        },
{
    match n {
        WeaveNode::Choice(d) => Some(d),
        WeaveNode::Gather(d) => Some(d),
        WeaveNode::Other => None,
    }
}

fn copy_indices(v: &Vec<usize>) -> (r: Vec<usize>)
    ensures
        r@ == v@,
{
    let mut r: Vec<usize> = Vec::new();
    let mut i: usize = 0;
    while i < v.len()
        invariant
            i <= v.len(),
            r@ == v@.take(i as int),
        decreases v.len() - i,
    {
        r.push(v[i]);
        i = i + 1;
        assert(r@ =~= v@.take(i as int));
    }
    assert(v@.take(v.len() as int) =~= v@);
    r
}

/// The content entry for `pending`, pushed onto `entries` when it holds a
/// node; `pending` is emptied.
fn flush(entries: &mut Vec<StructuredWeaveEntry>, pending: &mut Vec<usize>)
    ensures
        entries_model(final(entries)@) == spec_flush(entries_model(old(entries)@), indices_model(old(pending)@)),
        final(pending)@ == Seq::<usize>::empty(),
{
    if pending.len() > 0 {
        let run = copy_indices(pending);
        let e = StructuredWeaveEntry { kind: StructuredWeaveEntryKind::Content(run), nested: None };
        let ghost before = entries@;
        entries.push(e);
        proof {
            assert(entries@.drop_last() =~= before);
            assert(entry_model(e) == SpecEntry { kind: SpecEntryKind::Content(indices_model(pending@)), nested: None });
            assert(entries_model(entries@) == entries_model(before).push(entry_model(e)));
        }
    }
    *pending = Vec::new();
}

impl StructuredWeave {
    /// Structures the nodes `lo..hi` of `items`.
    fn structure(items: &[WeaveNode], lo: usize, hi: usize) -> (w: StructuredWeave)
        requires
            lo <= hi <= items.len(),
        ensures
            weave_model(w) == spec_structure(items@, lo as int, hi as int),
        decreases hi - lo,
    {
        let ghost s = items@;
        let mut base: usize = 1;
        let mut found = false;
        let mut i: usize = lo;
        while i < hi
            invariant
                lo <= i <= hi <= items.len(),
                s == items@,
                match spec_min_depth(s, lo as int, i as int) {
                    Some(d) => found && base == d,
                    None => !found && base == 1,
                },
            decreases hi - i,
        {
            match depth_of(items[i]) {
                Some(d) => {
                    if !found || d < base {
                        base = d;
                    }
                    found = true;
                },
                None => {},
            }
            i = i + 1;
        }
        assert(base == spec_base_depth(s, lo as int, hi as int));
        let mut entries: Vec<StructuredWeaveEntry> = Vec::new();
        let mut pending: Vec<usize> = Vec::new();
        let mut index: usize = lo;
        assert(entries_model(entries@) =~= Seq::<SpecEntry>::empty());
        assert(indices_model(pending@) =~= Seq::<int>::empty());
        while index < hi
            invariant
                lo <= index <= hi <= items.len(),
                s == items@,
                base == spec_base_depth(s, lo as int, hi as int),
                spec_entries(s, lo as int, hi as int, base as int, index as int, entries_model(entries@), indices_model(pending@))
                    == spec_entries(s, lo as int, hi as int, base as int, lo as int, Seq::empty(), Seq::empty()),
            decreases hi - index,
        {
            let node = items[index];
            let ghost i0 = index as int;
            let ghost old_e = entries_model(entries@);
            let ghost old_p = indices_model(pending@);
            let dn = depth_of(node);
            if dn.is_some() && dn.unwrap() > base {
                let nested_start = index;
                index = index + 1;
                while index < hi
                    invariant
                        nested_start < index <= hi <= items.len(),
                        s == items@,
                        spec_nested_end(s, base as int, index as int, hi as int)
                            == spec_nested_end(s, base as int, nested_start + 1, hi as int),
                    ensures
                        nested_start < index <= hi,
                        spec_nested_end(s, base as int, index as int, hi as int) == index as int,
                        spec_nested_end(s, base as int, index as int, hi as int)
                            == spec_nested_end(s, base as int, nested_start + 1, hi as int),
                    decreases hi - index,
                {
                    let di = depth_of(items[index]);
                    if di.is_some() && di.unwrap() <= base {
                        break;
                    }
                    index = index + 1;
                }
                proof {
                    lemma_nested_end_bounds(s, base as int, nested_start + 1, hi as int);
                    lemma_nested_end_bounds(s, base as int, index as int, hi as int);
                    lemma_min_depth_bounds(s, lo as int, hi as int);
                    assert(spec_depth(s[nested_start as int]) is Some);
                    if nested_start == lo && index == hi {
                        let k = choose|k: int| lo <= k < hi && spec_depth(s[k]) == Some(base as int);
                        assert(k != nested_start);
                    }
                }
                let nested = StructuredWeave::structure(items, nested_start, index);
                let ghost nested_spec = spec_structure(s, i0, index as int);
                assert(weave_model(nested) == nested_spec);
                assert(spec_nested_end(s, base as int, i0 + 1, hi as int) == index as int);
                assert(i0 < index && index <= hi && index - i0 < hi - lo);
                assert(spec_depth(s[i0]) matches Some(d) && d > base);
                if entries.len() == 0 {
                    let run: Vec<usize> = Vec::new();
                    assert(indices_model(run@) =~= Seq::<int>::empty());
                    let e = StructuredWeaveEntry {
                        kind: StructuredWeaveEntryKind::Content(run),
                        nested: Some(Box::new(nested)),
                    };
                    entries.push(e);
                    proof {
                        assert(entries@ =~= seq![e]);
                        assert(entries@.drop_last() =~= Seq::<StructuredWeaveEntry>::empty());
                        assert(entries_model(Seq::<StructuredWeaveEntry>::empty()) =~= Seq::<SpecEntry>::empty());
                        assert(entries_model(entries@) =~= seq![entry_model(e)]);
                        assert(entry_model(e) == SpecEntry { kind: SpecEntryKind::Content(Seq::empty()), nested: Some(nested_spec) });
                        assert(old_e.len() == 0);
                        assert(spec_entries(s, lo as int, hi as int, base as int, i0, old_e, old_p)
                            == spec_entries(s, lo as int, hi as int, base as int, index as int,
                                seq![SpecEntry { kind: SpecEntryKind::Content(Seq::empty()), nested: Some(nested_spec) }], old_p));
                    }
                } else {
                    let ghost before = entries@;
                    let last = entries.pop().unwrap();
                    let e = StructuredWeaveEntry { kind: last.kind, nested: Some(Box::new(nested)) };
                    entries.push(e);
                    proof {
                        assert(entries@.drop_last() =~= before.drop_last());
                        assert(entries_model(before).last() == entry_model(before.last()));
                        assert(entries_model(before).drop_last() == entries_model(before.drop_last()));
                        assert(last == before.last());
                        assert(entry_model(e) == SpecEntry { kind: old_e.last().kind, nested: Some(nested_spec) });
                        assert(entries_model(entries@) == entries_model(before.drop_last()).push(entry_model(e)));
                        assert(old_e.len() > 0);
                        assert(spec_entries(s, lo as int, hi as int, base as int, i0, old_e, old_p)
                            == spec_entries(s, lo as int, hi as int, base as int, index as int,
                                old_e.drop_last().push(SpecEntry { kind: old_e.last().kind, nested: Some(nested_spec) }), old_p));
                    }
                }
                assert(spec_entries(s, lo as int, hi as int, base as int, i0, old_e, old_p)
                    == spec_entries(s, lo as int, hi as int, base as int, index as int, entries_model(entries@), indices_model(pending@)));
            } else {
                match node {
                    WeaveNode::Choice(_) => {
                        flush(&mut entries, &mut pending);
                        let ghost flushed = entries@;
                        let e = StructuredWeaveEntry { kind: StructuredWeaveEntryKind::Choice(index), nested: None };
                        entries.push(e);
                        proof {
                            assert(entries@.drop_last() =~= flushed);
                            assert(indices_model(pending@) =~= Seq::<int>::empty());
                            assert(entry_model(e) == SpecEntry { kind: SpecEntryKind::Choice(i0), nested: None });
                            assert(entries_model(entries@) == entries_model(flushed).push(entry_model(e)));
                        }
                    },
                    WeaveNode::Gather(_) => {
                        flush(&mut entries, &mut pending);
                        let ghost flushed = entries@;
                        let e = StructuredWeaveEntry { kind: StructuredWeaveEntryKind::Gather(index), nested: None };
                        entries.push(e);
                        proof {
                            assert(entries@.drop_last() =~= flushed);
                            assert(indices_model(pending@) =~= Seq::<int>::empty());
                            assert(entry_model(e) == SpecEntry { kind: SpecEntryKind::Gather(i0), nested: None });
                            assert(entries_model(entries@) == entries_model(flushed).push(entry_model(e)));
                        }
                    },
                    WeaveNode::Other => {
                        let ghost before = pending@;
                        pending.push(index);
                        proof {
                            assert(indices_model(pending@) =~= indices_model(before).push(index as int));
                        }
                    },
                }
                index = index + 1;
                assert(spec_entries(s, lo as int, hi as int, base as int, i0, old_e, old_p)
                    == spec_entries(s, lo as int, hi as int, base as int, index as int, entries_model(entries@), indices_model(pending@)));
            }
        }
        flush(&mut entries, &mut pending);
        StructuredWeave { base_depth: base, entries }
    }

    /// The structure of the weave made of `nodes`; every slice has one.
    pub fn from_nodes(nodes: &[WeaveNode]) -> (r: Option<StructuredWeave>)
        ensures
            r matches Some(w) && weave_model(w) == spec_structure(nodes@, 0, nodes@.len() as int),
    {
        Some(StructuredWeave::structure(nodes, 0, nodes.len()))
    }

    pub fn entries(&self) -> (r: &[StructuredWeaveEntry])
        ensures
            entries_model(r@) == weave_model(*self).entries,
    {
        self.entries.as_slice()
    }

    pub fn base_depth(&self) -> (r: usize)
        ensures
            r == weave_model(*self).base_depth,
    {
        self.base_depth
    }
}

impl StructuredWeaveEntry {
    pub fn kind(&self) -> (r: &StructuredWeaveEntryKind)
        ensures
            kind_model(*r) == entry_model(*self).kind,
    {
        &self.kind
    }

    pub fn nested(&self) -> (r: Option<&StructuredWeave>)
        ensures
            match r {
                Some(w) => entry_model(*self).nested == Some(weave_model(*w)),
                None => entry_model(*self).nested is None,
            },
    {
        match &self.nested {
            Some(b) => Some(&**b),
            None => None,
        }
    }
}

} // verus!
