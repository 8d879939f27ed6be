//! The runtime form of a weave, over its structure (see `weave`): a
//! container per weave, a named container per choice (`c-0`, `c-1`, ...)
//! and per gather (its label, else `g-0`, `g-1`, ...), and the diverts that
//! lead each choice left open (a loose end) to the next gather.
//!
//! The containers are kept in an arena and refer to each other by index,
//! as containers that are still being filled: a loose end receives its
//! divert after it has been placed.
use vstd::prelude::*;
use crate::choice_export::{
    choice_key, condition_model, decimal_text, export_choice, spec_choice_key, spec_decimal_text,
    spec_export_choice, ChoiceExport, ChoiceExportInput,
};
use crate::runtime_tree::{
    lemma_items_index, runtime_item_model, runtime_items_model, spec_is_terminal_item, ControlCommand,
    RuntimeItem, SpecRuntimeItem,
};
use crate::text::{chars_of, concat, spec_strip_suffix, string_of, strip_suffix};

verus! {

/// An entry of a container being filled: a runtime item, or the container
/// at an index of the arena.
#[derive(Debug)]
pub enum PendingEntry<T> {
    Object(RuntimeItem<T>),
    Container(usize),
}

/// A container being filled: its path, name, counting flags, content, and
/// the containers (by index) it holds by name.
#[derive(Debug)]
pub struct PendingContainer<T> {
    pub path: String,
    pub name: Option<String>,
    pub count_flags: i32,
    pub content: Vec<PendingEntry<T>>,
    pub named: Vec<(String, usize)>,
}

/// The exported weave: every container made, and the weave's own.
#[derive(Debug)]
pub struct WeaveExport<T> {
    pub containers: Vec<PendingContainer<T>>,
    pub root: usize,
}

/// What the content below a choice or in a gather is exported as: runtime
/// items, or a weave of its own.
#[derive(Debug)]
pub enum InnerExport<T> {
    Items(Vec<RuntimeItem<T>>),
    Weave(Vec<WeaveExportEntry<T>>),
}

/// A choice of the weave: what its own export is given (see
/// `export_choice`), its inner content, and whether that content ends in a
/// divert or a tunnel return.
#[derive(Debug)]
pub struct ChoiceEntryExport<T> {
    pub input: ChoiceExportInput<T>,
    pub inner: InnerExport<T>,
    pub inner_has_terminal: bool,
}

/// A gather of the weave: its label, if any, and its content.
#[derive(Debug)]
pub struct GatherEntryExport<T> {
    pub identifier: Option<String>,
    pub content: InnerExport<T>,
}

#[derive(Debug)]
pub enum WeaveEntryExportKind<T> {
    /// Content between choices and gathers, exported.
    Content(Vec<RuntimeItem<T>>),
    Choice(ChoiceEntryExport<T>),
    Gather(GatherEntryExport<T>),
}

/// An entry of a structured weave (see `weave::StructuredWeave`), with the
/// deeper weave that follows it.
#[derive(Debug)]
pub struct WeaveExportEntry<T> {
    pub kind: WeaveEntryExportKind<T>,
    pub nested: Option<Vec<WeaveExportEntry<T>>>,
}

pub enum SpecPendingEntry<T> {
    Object(SpecRuntimeItem<T>),
    Container(int),
}

pub struct SpecPending<T> {
    pub path: Seq<char>,
    pub name: Option<Seq<char>>,
    pub count_flags: int,
    pub content: Seq<SpecPendingEntry<T>>,
    pub named: Seq<(Seq<char>, int)>,
}

pub open spec fn pending_entry_model<T>(e: PendingEntry<T>) -> SpecPendingEntry<T> {
    match e {
        PendingEntry::Object(i) => SpecPendingEntry::Object(runtime_item_model(i)),
        PendingEntry::Container(k) => SpecPendingEntry::Container(k as int),
    }
}

pub open spec fn pending_model<T>(c: PendingContainer<T>) -> SpecPending<T> {
    SpecPending {
        path: c.path@,
        name: match c.name {
            Some(n) => Some(n@),
            None => None,
        },
        count_flags: c.count_flags as int,
        content: c.content@.map_values(|e: PendingEntry<T>| pending_entry_model(e)),
        named: c.named@.map_values(|p: (String, usize)| (p.0@, p.1 as int)),
    }
}

pub open spec fn arena_model<T>(s: Seq<PendingContainer<T>>) -> Seq<SpecPending<T>> {
    s.map_values(|c: PendingContainer<T>| pending_model(c))
}

/// The exported weave, as containers by index and the weave's own index.
pub open spec fn weave_export_model<T>(w: WeaveExport<T>) -> (Seq<SpecPending<T>>, int) {
    (arena_model(w.containers@), w.root as int)
}

pub open spec fn spec_new_container<T>(path: Seq<char>, name: Option<Seq<char>>, count_flags: int) -> SpecPending<T> {
    SpecPending { path, name, count_flags, content: Seq::empty(), named: Seq::empty() }
}

pub open spec fn objects<T>(items: Seq<SpecRuntimeItem<T>>) -> Seq<SpecPendingEntry<T>> {
    items.map_values(|i: SpecRuntimeItem<T>| SpecPendingEntry::Object(i))
}

/// The container at `k` with `entries` added to its content.
pub open spec fn spec_push_entries<T>(a: Seq<SpecPending<T>>, k: int, entries: Seq<SpecPendingEntry<T>>) -> Seq<SpecPending<T>> {
    a.update(k, SpecPending { content: a[k].content + entries, ..a[k] })
}

/// The container at `k` holding the container at `child` by `name`.
pub open spec fn spec_add_named<T>(a: Seq<SpecPending<T>>, k: int, name: Seq<char>, child: int) -> Seq<SpecPending<T>> {
    a.update(k, SpecPending { named: a[k].named.push((name, child)), ..a[k] })
}

/// The container at `target` taking over the content and named containers
/// of the one at `source`, which is left empty (nothing refers to it).
pub open spec fn spec_take_over<T>(a: Seq<SpecPending<T>>, target: int, source: int) -> Seq<SpecPending<T>> {
    a.update(source, SpecPending { content: Seq::empty(), named: Seq::empty(), ..a[source] }).update(target, SpecPending {
        content: a[target].content + a[source].content,
        named: a[target].named + a[source].named,
        ..a[target]
    })
}

pub open spec fn indices(s: Seq<usize>) -> Seq<int> {
    s.map_values(|k: usize| k as int)
}

/// Each container in `loose` given a divert to `path`.
pub open spec fn spec_divert_all<T>(a: Seq<SpecPending<T>>, loose: Seq<int>, path: Seq<char>) -> Seq<SpecPending<T>>
    decreases loose.len(),
{
    if loose.len() == 0 {
        a
    } else {
        spec_divert_all(
            spec_push_entries(a, loose[0], seq![SpecPendingEntry::Object(SpecRuntimeItem::DivertToPath(path))]),
            loose.drop_first(),
            path,
        )
    }
}

/// The content ends in an item that ends its flow.
pub open spec fn spec_has_terminal<T>(content: Seq<SpecPendingEntry<T>>) -> bool {
    content.len() > 0 && match content.last() {
        SpecPendingEntry::Object(i) => spec_is_terminal_item(i),
        SpecPendingEntry::Container(_) => false,
    }
}

/// A choice (or gather) container with the counting flags of a weave's
/// choices whose flow does not end: a loose end.
pub open spec fn spec_is_loose<T>(c: SpecPending<T>) -> bool {
    c.count_flags == 5 && !spec_has_terminal(c.content)
}

/// The loose ends among the containers `lo..hi`: those a weave built there
/// leaves open, for the weave around it to tie.
pub open spec fn spec_loose_in<T>(a: Seq<SpecPending<T>>, lo: int, hi: int) -> Seq<int>
    decreases hi - lo,
{
    if hi <= lo {
        Seq::empty()
    } else {
        spec_loose_in(a, lo, hi - 1) + if spec_is_loose(a[hi - 1]) { seq![hi - 1] } else { Seq::empty() }
    }
}

/// `path`, `.`, `name`.
pub open spec fn spec_sub_path(path: Seq<char>, name: Seq<char>) -> Seq<char> {
    path + seq!['.'] + name
}

/// The name of a gather: its label, else `g-` and its number among the
/// weave's unlabelled gathers.
pub open spec fn spec_gather_name(identifier: Option<Seq<char>>, gathers: nat) -> Seq<char> {
    match identifier {
        Some(n) => n,
        None => seq!['g', '-'] + spec_decimal_text(gathers),
    }
}

/// Where the export of a weave stands: the containers made so far, the
/// container being filled, the loose ends, the last choice left open (where
/// content goes next), whether a choice was seen since the last gather, and
/// the numbers of choices and unlabelled gathers.
pub struct WeaveState<T> {
    pub arena: Seq<SpecPending<T>>,
    pub current: int,
    pub loose: Seq<int>,
    pub prev: Option<int>,
    pub seen_choice: bool,
    pub choices: nat,
    pub gathers: nat,
}

/// The container content goes to: the last choice left open, else the
/// current one.
pub open spec fn spec_target<T>(st: WeaveState<T>) -> int {
    match st.prev {
        Some(p) => p,
        None => st.current,
    }
}

pub open spec fn opt_string_view(o: Option<String>) -> Option<Seq<char>> {
    match o {
        Some(s) => Some(s@),
        None => None,
    }
}

/// The weave made of `entries` under the path `prefix`, its containers
/// added after those of `a`: the arena, and the index of the weave's own
/// container. A root weave ends in a final gather that marks the story
/// done.
pub open spec fn spec_build<T>(
    a: Seq<SpecPending<T>>,
    entries: Seq<WeaveExportEntry<T>>,
    prefix: Seq<char>,
    is_root: bool,
    wcf: int,
) -> (Seq<SpecPending<T>>, int)
    decreases entries, entries.len() + 1,
{
    let root = a.len() as int;
    let st0 = WeaveState {
        arena: a.push(spec_new_container(prefix, None, 0)),
        current: root,
        loose: Seq::empty(),
        prev: None,
        seen_choice: false,
        choices: 0,
        gathers: 0,
    };
    let st = spec_entries_from(entries, 0, st0, root, prefix, wcf);
    if is_root {
        (spec_final_gather(st, root, prefix, wcf), root)
    } else {
        (st.arena, root)
    }
}

/// The final gather of a root weave: `g-` and the number of unlabelled
/// gathers, holding a done command; the loose ends divert to it.
pub open spec fn spec_final_gather<T>(st: WeaveState<T>, root: int, prefix: Seq<char>, wcf: int) -> Seq<SpecPending<T>> {
    let name = spec_gather_name(None, st.gathers);
    let auto_enter = !st.seen_choice;
    let path = if auto_enter { spec_sub_path(st.arena[st.current].path, name) } else { spec_sub_path(prefix, name) };
    let a1 = spec_divert_all(st.arena, st.loose, path);
    let fg = a1.len() as int;
    let a2 = a1.push(SpecPending {
        content: seq![SpecPendingEntry::Object(SpecRuntimeItem::Command(ControlCommand::Done))],
        ..spec_new_container(path, Some(name), wcf)
    });
    if auto_enter {
        spec_push_entries(a2, st.current, seq![SpecPendingEntry::Container(fg)])
    } else {
        spec_add_named(a2, root, name, fg)
    }
}

pub open spec fn spec_entries_from<T>(
    entries: Seq<WeaveExportEntry<T>>,
    i: int,
    st: WeaveState<T>,
    root: int,
    prefix: Seq<char>,
    wcf: int,
) -> WeaveState<T>
    decreases entries, entries.len() - i,
{
    if i < 0 || i >= entries.len() {
        st
    } else {
        spec_entries_from(entries, i + 1, spec_entry(entries[i], st, root, prefix, wcf), root, prefix, wcf)
    }
}

/// `s` without `p`.
pub open spec fn spec_without(s: Seq<int>, p: int) -> Seq<int> {
    s.filter(|x: int| x != p)
}

/// The runtime form of the weave made of `entries`, under the path
/// `prefix`, its choices and gathers counted with `wcf` (see `spec_build`).
pub open spec fn spec_export_weave<T>(entries: Seq<WeaveExportEntry<T>>, prefix: Seq<char>, is_root: bool, wcf: int) -> (Seq<SpecPending<T>>, int) {
    spec_build(Seq::empty(), entries, prefix, is_root, wcf)
}

/// One entry of the weave: its kind, then the deeper weave after it.
pub open spec fn spec_entry<T>(e: WeaveExportEntry<T>, st: WeaveState<T>, root: int, prefix: Seq<char>, wcf: int) -> WeaveState<T>
    decreases e, 0int,
{
    let st1 = match e.kind {
        WeaveEntryExportKind::Content(items) => WeaveState {
            arena: spec_push_entries(st.arena, spec_target(st), objects(runtime_items_model(items@))),
            ..st
        },
        WeaveEntryExportKind::Choice(c) => spec_choice(c, st, wcf),
        WeaveEntryExportKind::Gather(g) => spec_gather(g, st, root, prefix, wcf),
    };
    match e.nested {
        Some(v) => {
            let target = spec_target(st1);
            let npath = spec_sub_path(st1.arena[target].path, spec_decimal_text(st1.arena[target].content.len()));
            let lo = st1.arena.len() as int;
            let (a1, r) = spec_build(st1.arena, v@, npath, false, wcf);
            let bubbled = spec_loose_in(a1, lo, a1.len() as int);
            let kept = match st1.prev {
                Some(p) => spec_without(st1.loose, p),
                None => st1.loose,
            };
            WeaveState {
                arena: spec_push_entries(a1, target, seq![SpecPendingEntry::Container(r)]),
                loose: kept + bubbled,
                prev: None,
                ..st1
            }
        },
        None => st1,
    }
}

/// The content below a choice or in a gather, added to the container at
/// `target`: its items, or the containers of its own weave (made under the
/// path of the next entry of `target`) taken over.
pub open spec fn spec_inner<T>(a: Seq<SpecPending<T>>, target: int, inner: InnerExport<T>, wcf: int) -> Seq<SpecPending<T>>
    decreases inner, 0int,
{
    match inner {
        InnerExport::Items(items) => spec_push_entries(a, target, objects(runtime_items_model(items@))),
        InnerExport::Weave(v) => {
            let (a1, r) = spec_build(a, v@, spec_sub_path(a[target].path, spec_decimal_text(a[target].content.len())), false, wcf);
            spec_take_over(a1, target, r)
        },
    }
}

/// A choice: its container `c-N`, held by name in the current container;
/// its export (see `spec_export_choice`); its inner content and a line
/// break in its container. It is left open, for the next gather to tie,
/// when it is an invisible default or its content does not end the flow.
pub open spec fn spec_choice<T>(c: ChoiceEntryExport<T>, st: WeaveState<T>, wcf: int) -> WeaveState<T>
    decreases c, 1int,
{
    let cur = st.current;
    let cur_path = st.arena[cur].path;
    let key = spec_choice_key(st.choices);
    let cc_path = spec_sub_path(cur_path, key);
    let cc = st.arena.len() as int;
    let a1 = spec_add_named(st.arena.push(spec_new_container(cc_path, Some(key), wcf)), cur, key, cc);
    let ex = spec_export_choice(
        c.input.once_only,
        c.input.is_invisible_default,
        c.input.has_start,
        runtime_items_model(c.input.start_items@),
        c.input.has_choice_only,
        runtime_items_model(c.input.choice_only_items@),
        condition_model(c.input.condition_items),
        st.choices,
        cur_path,
        a1[cur].content.len(),
        cc_path,
        cur_path,
    );
    let a2 = spec_push_entries(spec_push_entries(a1, cur, objects(ex.0)), cc, objects(ex.1));
    let a3 = spec_inner(a2, cc, c.inner, wcf);
    let a4 = spec_push_entries(a3, cc, seq![SpecPendingEntry::Object(SpecRuntimeItem::StringValue(seq!['\n']))]);
    let open = c.input.is_invisible_default || !c.inner_has_terminal;
    WeaveState {
        arena: a4,
        loose: if open { st.loose.push(cc) } else { st.loose },
        prev: if open { Some(cc) } else { None },
        seen_choice: true,
        choices: st.choices + 1,
        ..st
    }
}

/// A gather: the loose ends divert to it; its container is entered from
/// the current one when no choice came since the last gather, else held by
/// name in the weave's own container; it takes its content and becomes the
/// current container.
pub open spec fn spec_gather<T>(g: GatherEntryExport<T>, st: WeaveState<T>, root: int, prefix: Seq<char>, wcf: int) -> WeaveState<T>
    decreases g, 1int,
{
    let auto_enter = !st.seen_choice;
    let name = spec_gather_name(opt_string_view(g.identifier), st.gathers);
    let path = if auto_enter { spec_sub_path(st.arena[st.current].path, name) } else { spec_sub_path(prefix, name) };
    let a1 = spec_divert_all(st.arena, st.loose, path);
    let gc = a1.len() as int;
    let a2 = a1.push(spec_new_container(path, Some(name), wcf));
    let a3 = if auto_enter {
        spec_push_entries(a2, st.current, seq![SpecPendingEntry::Container(gc)])
    } else {
        spec_add_named(a2, root, name, gc)
    };
    WeaveState {
        arena: spec_inner(a3, gc, g.content, wcf),
        current: gc,
        loose: Seq::empty(),
        prev: None,
        seen_choice: false,
        choices: st.choices,
        gathers: if g.identifier is None { st.gathers + 1 } else { st.gathers },
    }
}


// ---------------------------------------------------------------------------
// Filling the arena.
// ---------------------------------------------------------------------------

proof fn lemma_arena_update<T>(a: Seq<PendingContainer<T>>, k: int, c: PendingContainer<T>)
    requires
        0 <= k < a.len(),
    ensures
        arena_model(a.remove(k).insert(k, c)) == arena_model(a).update(k, pending_model(c)),
        a.remove(k).insert(k, c).len() == a.len(),
{
    assert(a.remove(k).insert(k, c) =~= a.update(k, c));
    assert(arena_model(a.update(k, c)) =~= arena_model(a).update(k, pending_model(c)));
}

/// The content of the container at `k` with `items` added as objects.
fn push_items<T>(arena: &mut Vec<PendingContainer<T>>, k: usize, items: Vec<RuntimeItem<T>>)
    requires
        k < old(arena).len(),
    ensures
        final(arena).len() == old(arena).len(),
        arena_model(final(arena)@) == spec_push_entries(arena_model(old(arena)@), k as int, objects(runtime_items_model(items@))),
{
    let ghost a0 = arena@;
    let mut c = arena.remove(k);
    let ghost c0 = c;
    assert(c0 == a0[k as int]);
    let ghost base = c.content@;
    let ghost orig = items@;
    proof {
        lemma_items_index(orig);
    }
    let mut rest = items;
    let mut i: usize = 0;
    let n = rest.len();
    while i < n
        invariant
            i <= n,
            n == orig.len(),
            rest@ == orig.skip(i as int),
            c.content@ == base + orig.take(i as int).map_values(|x: RuntimeItem<T>| PendingEntry::Object(x)),
            c.path == c0.path,
            c.name == c0.name,
            c.count_flags == c0.count_flags,
            c.named == c0.named,
        decreases n - i,
    {
        let x = rest.remove(0);
        proof {
            assert(orig.skip(i as int)[0] == orig[i as int]);
            assert(rest@ =~= orig.skip(i + 1));
        }
        c.content.push(PendingEntry::Object(x));
        proof {
            assert(orig.take(i + 1).map_values(|x: RuntimeItem<T>| PendingEntry::Object(x))
                =~= orig.take(i as int).map_values(|x: RuntimeItem<T>| PendingEntry::Object(x)).push(PendingEntry::Object(x)));
        }
        i = i + 1;
    }
    let ghost cm = c.content@;
    arena.insert(k, c);
    proof {
        assert(orig.take(n as int) =~= orig);
        lemma_arena_update(a0, k as int, c);
        let old_c = arena_model(a0)[k as int];
        assert(pending_model(a0[k as int]) == old_c);
        assert(pending_model(c).content =~= old_c.content + objects(runtime_items_model(orig)));
        assert(pending_model(c).named =~= old_c.named);
        assert(pending_model(c).path == old_c.path);
        assert(pending_model(c).name == old_c.name);
        assert(pending_model(c) == SpecPending { content: old_c.content + objects(runtime_items_model(orig)), ..old_c });
    }
}

/// One entry added to the content of the container at `k`.
fn push_entry<T>(arena: &mut Vec<PendingContainer<T>>, k: usize, e: PendingEntry<T>)
    requires
        k < old(arena).len(),
    ensures
        final(arena).len() == old(arena).len(),
        arena_model(final(arena)@) == spec_push_entries(arena_model(old(arena)@), k as int, seq![pending_entry_model(e)]),
{
    let ghost a0 = arena@;
    let mut c = arena.remove(k);
    let ghost before = c;
    c.content.push(e);
    arena.insert(k, c);
    proof {
        lemma_arena_update(a0, k as int, c);
        let old_c = arena_model(a0)[k as int];
        assert(pending_model(c).content =~= old_c.content + seq![pending_entry_model(e)]);
        assert(pending_model(c).named =~= old_c.named);
        assert(pending_model(c) == SpecPending { content: old_c.content + seq![pending_entry_model(e)], ..old_c });
    }
}

/// The container at `k` holding the container at `child` by `name`.
fn add_named<T>(arena: &mut Vec<PendingContainer<T>>, k: usize, name: String, child: usize)
    requires
        k < old(arena).len(),
    ensures
        final(arena).len() == old(arena).len(),
        arena_model(final(arena)@) == spec_add_named(arena_model(old(arena)@), k as int, name@, child as int),
{
    let ghost a0 = arena@;
    let ghost nm = name@;
    let mut c = arena.remove(k);
    c.named.push((name, child));
    arena.insert(k, c);
    proof {
        lemma_arena_update(a0, k as int, c);
        let old_c = arena_model(a0)[k as int];
        assert(pending_model(c).named =~= old_c.named.push((nm, child as int)));
        assert(pending_model(c).content =~= old_c.content);
        assert(pending_model(c) == SpecPending { named: old_c.named.push((nm, child as int)), ..old_c });
    }
}

/// A new, empty container at the end of the arena.
fn new_container<T>(arena: &mut Vec<PendingContainer<T>>, path: String, name: Option<String>, count_flags: i32) -> (k: usize)
    ensures
        k == old(arena).len(),
        final(arena).len() == old(arena).len() + 1,
        arena_model(final(arena)@) == arena_model(old(arena)@).push(spec_new_container(path@, opt_string_view(name), count_flags as int)),
{
    let k = arena.len();
    let c = PendingContainer { path, name, count_flags, content: Vec::new(), named: Vec::new() };
    let ghost a0 = arena@;
    arena.push(c);
    proof {
        assert(pending_model(c).content =~= Seq::<SpecPendingEntry<T>>::empty());
        assert(pending_model(c).named =~= Seq::<(Seq<char>, int)>::empty());
        assert(arena_model(a0.push(c)) =~= arena_model(a0).push(pending_model(c)));
    }
    k
}

/// The container at `target` takes over the content and named containers
/// of the one at `source`, which is left empty.
fn absorb<T>(arena: &mut Vec<PendingContainer<T>>, target: usize, source: usize)
    requires
        target < old(arena).len(),
        source < old(arena).len(),
        target != source,
    ensures
        final(arena).len() == old(arena).len(),
        arena_model(final(arena)@) == spec_take_over(arena_model(old(arena)@), target as int, source as int),
{
    let ghost a0 = arena@;
    let s = arena.remove(source);
    let ghost sm = pending_model(s);
    let PendingContainer { path, name, count_flags, content, named } = s;
    let emptied = PendingContainer { path, name, count_flags, content: Vec::new(), named: Vec::new() };
    arena.insert(source, emptied);
    let ghost a1 = arena@;
    proof {
        lemma_arena_update(a0, source as int, emptied);
        assert(pending_model(emptied) == SpecPending { content: Seq::empty(), named: Seq::empty(), ..sm }) by {
            assert(pending_model(emptied).content =~= Seq::<SpecPendingEntry<T>>::empty());
            assert(pending_model(emptied).named =~= Seq::<(Seq<char>, int)>::empty());
        }
    }
    let mut t = arena.remove(target);
    let ghost tm = pending_model(t);
    let mut content = content;
    let mut named = named;
    let ghost sc = content@;
    let ghost sn = named@;
    t.content.append(&mut content);
    t.named.append(&mut named);
    arena.insert(target, t);
    proof {
        lemma_arena_update(a1, target as int, t);
        assert(pending_model(t).content =~= tm.content + sm.content);
        assert(pending_model(t).named =~= tm.named + sm.named);
        assert(arena_model(arena@) =~= spec_take_over(arena_model(a0), target as int, source as int));
    }
}

/// Each container in `loose` given a divert to `path`.
fn divert_all<T>(arena: &mut Vec<PendingContainer<T>>, loose: &Vec<usize>, path: &String)
    requires
        forall|j: int| 0 <= j < loose@.len() ==> loose@[j] < old(arena).len(),
    ensures
        final(arena).len() == old(arena).len(),
        arena_model(final(arena)@) == spec_divert_all(arena_model(old(arena)@), indices(loose@), path@),
{
    let ghost goal = spec_divert_all(arena_model(arena@), indices(loose@), path@);
    let ghost n0 = arena.len();
    let mut i: usize = 0;
    assert(indices(loose@).skip(0) =~= indices(loose@));
    while i < loose.len()
        invariant
            i <= loose.len(),
            arena.len() == n0,
            forall|j: int| 0 <= j < loose@.len() ==> loose@[j] < arena.len(),
            spec_divert_all(arena_model(arena@), indices(loose@).skip(i as int), path@) == goal,
        decreases loose.len() - i,
    {
        let ghost l = indices(loose@).skip(i as int);
        assert(l[0] == loose@[i as int] as int);
        assert(l.drop_first() =~= indices(loose@).skip(i + 1));
        let item = RuntimeItem::DivertToPath(string_of(&chars_of(path.as_str())));
        push_entry(arena, loose[i], PendingEntry::Object(item));
        i = i + 1;
    }
    assert(indices(loose@).skip(loose.len() as int) =~= Seq::<int>::empty());
}

fn is_terminal_item<T>(i: &RuntimeItem<T>) -> (r: bool)
    ensures
        r == spec_is_terminal_item(runtime_item_model(*i)),
{
    match i {
        RuntimeItem::DivertToContainer(_) => true,
        RuntimeItem::VariableDivert(_) => true,
        RuntimeItem::DivertToMark { .. } => true,
        RuntimeItem::DivertToBranch(_) => true,
        RuntimeItem::DivertToNamed { .. } => true,
        RuntimeItem::DivertToPath(_) => true,
        RuntimeItem::Terminal(_) => true,
        RuntimeItem::Command(c) => match c {
            ControlCommand::End => true,
            ControlCommand::Done => true,
            _ => false,
        },
        _ => false,
    }
}

fn is_loose<T>(c: &PendingContainer<T>) -> (r: bool)
    ensures
        r == spec_is_loose(pending_model(*c)),
{
    let n = c.content.len();
    let terminal = if n == 0 {
        false
    } else {
        match &c.content[n - 1] {
            PendingEntry::Object(i) => is_terminal_item(i),
            PendingEntry::Container(_) => false,
        }
    };
    proof {
        if n > 0 {
            assert(pending_model(*c).content.last() == pending_entry_model(c.content@[n - 1]));
        }
    }
    c.count_flags == 5 && !terminal
}

/// The loose ends among the containers `lo..hi`.
fn loose_in<T>(arena: &Vec<PendingContainer<T>>, lo: usize, hi: usize) -> (r: Vec<usize>)
    requires
        lo <= hi <= arena.len(),
    ensures
        indices(r@) == spec_loose_in(arena_model(arena@), lo as int, hi as int),
        forall|j: int| 0 <= j < r@.len() ==> lo <= #[trigger] r@[j] < hi,
{
    let mut r: Vec<usize> = Vec::new();
    let mut k = lo;
    assert(indices(r@) =~= Seq::<int>::empty());
    while k < hi
        invariant
            lo <= k <= hi <= arena.len(),
            indices(r@) == spec_loose_in(arena_model(arena@), lo as int, k as int),
            forall|j: int| 0 <= j < r@.len() ==> lo <= #[trigger] r@[j] < k,
        decreases hi - k,
    {
        let ghost before = r@;
        if is_loose(&arena[k]) {
            r.push(k);
        }
        proof {
            assert(arena_model(arena@)[k as int] == pending_model(arena@[k as int]));
            assert(indices(r@) =~= spec_loose_in(arena_model(arena@), lo as int, k as int)
                + if spec_is_loose(arena_model(arena@)[k as int]) { seq![k as int] } else { Seq::empty() });
        }
        k = k + 1;
    }
    r
}

fn sub_path(path: &String, name: &[char]) -> (r: String)
    ensures
        r@ == spec_sub_path(path@, name@),
{
    let mut v = chars_of(path.as_str());
    v.push('.');
    string_of(&concat(&v, name))
}

fn copy_str(s: &String) -> (r: String)
    ensures
        r@ == s@,
{
    string_of(&chars_of(s.as_str()))
}


// ---------------------------------------------------------------------------
// The export.
// ---------------------------------------------------------------------------

struct ExecState {
    current: usize,
    loose: Vec<usize>,
    prev: Option<usize>,
    seen_choice: bool,
    choices: usize,
    gathers: usize,
}

spec fn state_model<T>(st: ExecState, a: Seq<PendingContainer<T>>) -> WeaveState<T> {
    WeaveState {
        arena: arena_model(a),
        current: st.current as int,
        loose: indices(st.loose@),
        prev: match st.prev {
            Some(p) => Some(p as int),
            None => None,
        },
        seen_choice: st.seen_choice,
        choices: st.choices as nat,
        gathers: st.gathers as nat,
    }
}

spec fn state_wf(st: ExecState, len: nat) -> bool {
    &&& st.current < len
    &&& st.prev matches Some(p) ==> p < len
    &&& forall|j: int| 0 <= j < st.loose@.len() ==> #[trigger] st.loose@[j] < len
    &&& st.choices < len
    &&& st.gathers < len
}

fn target_of(st: &ExecState) -> (t: usize)
    ensures
        t == match st.prev {
            Some(p) => p,
            None => st.current,
        },
{
    match st.prev {
        Some(p) => p,
        None => st.current,
    }
}

fn without(loose: &Vec<usize>, p: usize, bound: usize) -> (r: Vec<usize>)
    requires
        forall|k: int| 0 <= k < loose@.len() ==> #[trigger] loose@[k] < bound,
    ensures
        indices(r@) == spec_without(indices(loose@), p as int),
        forall|j: int| 0 <= j < r@.len() ==> #[trigger] r@[j] < bound,
{
    let mut r: Vec<usize> = Vec::new();
    let mut i: usize = 0;
    let ghost l = indices(loose@);
    assert(spec_without(l.take(0), p as int) =~= Seq::<int>::empty()) by {
        reveal(Seq::filter);
    }
    while i < loose.len()
        invariant
            i <= loose.len(),
            l == indices(loose@),
            indices(r@) == spec_without(l.take(i as int), p as int),
            forall|k: int| 0 <= k < loose@.len() ==> #[trigger] loose@[k] < bound,
            forall|j: int| 0 <= j < r@.len() ==> #[trigger] r@[j] < bound,
        decreases loose.len() - i,
    {
        let x = loose[i];
        let ghost r0 = r@;
        proof {
            reveal(Seq::filter);
            assert(l.take(i + 1).drop_last() =~= l.take(i as int));
            assert(l.take(i + 1).last() == x as int);
        }
        if x != p {
            r.push(x);
            proof {
                assert(indices(r@) =~= indices(r0).push(x as int));
                assert forall|j: int| 0 <= j < r@.len() implies #[trigger] r@[j] < bound by {
                    if j == r@.len() - 1 {
                        assert(r@[j] == loose@[i as int]);
                    } else {
                        assert(r@[j] == r0[j]);
                    }
                }
            }
        }
        i = i + 1;
    }
    assert(l.take(loose.len() as int) =~= l);
    r
}

fn gather_default_name(gathers: usize) -> (r: String)
    ensures
        r@ == spec_gather_name(None, gathers as nat),
{
    let mut g: Vec<char> = Vec::new();
    g.push('g');
    g.push('-');
    assert(g@ =~= seq!['g', '-']);
    string_of(&concat(&g, &decimal_text(gathers)))
}

/// Builds the weave made of `entries` under the path `prefix`; its own
/// container comes first, at the end of `arena`.
fn build<T>(arena: &mut Vec<PendingContainer<T>>, entries: Vec<WeaveExportEntry<T>>, prefix: String, is_root: bool, wcf: i32) -> (root: usize)
    ensures
        (arena_model(final(arena)@), root as int) == spec_build(arena_model(old(arena)@), entries@, prefix@, is_root, wcf as int),
        root == old(arena).len(),
        old(arena).len() < final(arena).len(),
    decreases entries@, entries@.len() + 1,
{
    let ghost a0 = arena_model(arena@);
    let ghost es = entries@;
    let root = new_container(arena, copy_str(&prefix), None, 0);
    let mut st = ExecState { current: root, loose: Vec::new(), prev: None, seen_choice: false, choices: 0, gathers: 0 };
    let ghost st0 = WeaveState {
        arena: a0.push(spec_new_container(prefix@, None, 0)),
        current: root as int,
        loose: Seq::empty(),
        prev: None,
        seen_choice: false,
        choices: 0,
        gathers: 0,
    };
    assert(state_model(st, arena@) == st0) by {
        assert(indices(st.loose@) =~= Seq::<int>::empty());
    }
    let mut rest = entries;
    let n = rest.len();
    let mut i: usize = 0;
    while i < n
        invariant
            i <= n,
            n == es.len(),
            es == entries@,
            rest@ == es.skip(i as int),
            root == a0.len(),
            root < arena.len(),
            state_wf(st, arena.len() as nat),
            spec_entries_from(es, i as int, state_model(st, arena@), root as int, prefix@, wcf as int)
                == spec_entries_from(es, 0, st0, root as int, prefix@, wcf as int),
        decreases n - i,
    {
        let e = rest.remove(0);
        proof {
            assert(es.skip(i as int)[0] == es[i as int]);
            assert(rest@ =~= es.skip(i + 1));
            assert(e == es[i as int]);
            assert(decreases_to!(es => es[i as int]));
        }
        entry_step(arena, &mut st, e, root, &prefix, wcf);
        i = i + 1;
    }
    if is_root {
        final_gather(arena, &st, root, &prefix, wcf);
    }
    root
}

fn final_gather<T>(arena: &mut Vec<PendingContainer<T>>, st: &ExecState, root: usize, prefix: &String, wcf: i32)
    requires
        state_wf(*st, old(arena).len() as nat),
        root < old(arena).len(),
    ensures
        arena_model(final(arena)@) == spec_final_gather(state_model(*st, old(arena)@), root as int, prefix@, wcf as int),
        old(arena).len() < final(arena).len(),
{
    let ghost sm = state_model(*st, arena@);
    let name = gather_default_name(st.gathers);
    let auto_enter = !st.seen_choice;
    let path = if auto_enter {
        sub_path(&arena[st.current].path, &chars_of(name.as_str()))
    } else {
        sub_path(prefix, &chars_of(name.as_str()))
    };
    assert(arena_model(arena@)[st.current as int].path == arena@[st.current as int].path@);
    divert_all(arena, &st.loose, &path);
    let ghost a1 = arena_model(arena@);
    let fg = new_container(arena, copy_str(&path), Some(copy_str(&name)), wcf);
    push_entry(arena, fg, PendingEntry::Object(RuntimeItem::Command(ControlCommand::Done)));
    proof {
        let nc = spec_new_container::<T>(path@, Some(name@), wcf as int);
        assert(arena_model(arena@) =~= a1.push(SpecPending {
            content: seq![SpecPendingEntry::Object(SpecRuntimeItem::Command(ControlCommand::Done))],
            ..nc
        }));
    }
    if auto_enter {
        push_entry(arena, st.current, PendingEntry::Container(fg));
    } else {
        add_named(arena, root, name, fg);
    }
}

fn entry_step<T>(arena: &mut Vec<PendingContainer<T>>, st: &mut ExecState, e: WeaveExportEntry<T>, root: usize, prefix: &String, wcf: i32)
    requires
        state_wf(*old(st), old(arena).len() as nat),
        root < old(arena).len(),
    ensures
        state_model(*final(st), final(arena)@) == spec_entry(e, state_model(*old(st), old(arena)@), root as int, prefix@, wcf as int),
        state_wf(*final(st), final(arena).len() as nat),
        old(arena).len() <= final(arena).len(),
    decreases e, 0int,
{
    let ghost s0 = state_model(*st, arena@);
    let ghost e0 = e;
    let WeaveExportEntry { kind, nested } = e;
    match kind {
        WeaveEntryExportKind::Content(items) => {
            let t = target_of(st);
            push_items(arena, t, items);
        },
        WeaveEntryExportKind::Choice(c) => {
            choice_step(arena, st, c, wcf);
        },
        WeaveEntryExportKind::Gather(g) => {
            gather_step(arena, st, g, root, prefix, wcf);
        },
    }
    let ghost s1 = state_model(*st, arena@);
    match nested {
        Some(v) => {
            let t = target_of(st);
            let idx = decimal_text(arena[t].content.len());
            let npath = sub_path(&arena[t].path, &idx);
            let lo = arena.len();
            proof {
                assert(arena_model(arena@)[t as int].path == arena@[t as int].path@);
                assert(arena_model(arena@)[t as int].content.len() == arena@[t as int].content@.len());
            }
            let r = build(arena, v, npath, false, wcf);
            let bubbled = loose_in(arena, lo, arena.len());
            push_entry(arena, t, PendingEntry::Container(r));
            let mut kept = match st.prev {
                Some(p) => without(&st.loose, p, lo),
                None => {
                    let mut k: Vec<usize> = Vec::new();
                    let mut j: usize = 0;
                    while j < st.loose.len()
                        invariant
                            j <= st.loose.len(),
                            k@ == st.loose@.take(j as int),
                        decreases st.loose.len() - j,
                    {
                        k.push(st.loose[j]);
                        j = j + 1;
                        assert(k@ =~= st.loose@.take(j as int));
                    }
                    assert(st.loose@.take(st.loose.len() as int) =~= st.loose@);
                    k
                },
            };
            let ghost kept0 = kept@;
            let mut b = bubbled;
            let ghost b0 = b@;
            kept.append(&mut b);
            proof {
                assert(indices(kept@) =~= indices(kept0) + indices(b0));
                assert forall|j: int| 0 <= j < kept@.len() implies #[trigger] kept@[j] < arena.len() by {
                    if j < kept0.len() {
                        assert(kept@[j] == kept0[j]);
                        if st.prev is None {
                            assert(kept0[j] == st.loose@[j]);
                        }
                    } else {
                        assert(kept@[j] == b0[j - kept0.len()]);
                    }
                }
            }
            st.loose = kept;
            st.prev = None;
        },
        None => {},
    }
}

fn choice_step<T>(arena: &mut Vec<PendingContainer<T>>, st: &mut ExecState, c: ChoiceEntryExport<T>, wcf: i32)
    requires
        state_wf(*old(st), old(arena).len() as nat),
    ensures
        state_model(*final(st), final(arena)@) == spec_choice(c, state_model(*old(st), old(arena)@), wcf as int),
        state_wf(*final(st), final(arena).len() as nat),
        old(arena).len() <= final(arena).len(),
    decreases c, 1int,
{
    let ghost s0 = state_model(*st, arena@);
    let ChoiceEntryExport { input, inner, inner_has_terminal } = c;
    let cur = st.current;
    let cur_path = copy_str(&arena[cur].path);
    assert(arena_model(arena@)[cur as int].path == arena@[cur as int].path@);
    let key = choice_key(st.choices);
    let cc_path = sub_path(&cur_path, &chars_of(key.as_str()));
    let cc = new_container(arena, copy_str(&cc_path), Some(copy_str(&key)), wcf);
    add_named(arena, cur, key, cc);
    let cur_len = arena[cur].content.len();
    assert(arena_model(arena@)[cur as int].content.len() == cur_len);
    let invisible = input.is_invisible_default;
    let ex = export_choice(input, st.choices, cur_path.as_str(), cur_len, cc_path.as_str(), cur_path.as_str());
    let ChoiceExport { into_current, into_choice_container } = ex;
    push_items(arena, cur, into_current);
    push_items(arena, cc, into_choice_container);
    inner_step(arena, cc, inner, wcf);
    let mut nl: Vec<char> = Vec::new();
    nl.push('\n');
    assert(nl@ =~= seq!['\n']);
    push_entry(arena, cc, PendingEntry::Object(RuntimeItem::StringValue(string_of(&nl))));
    let open = invisible || !inner_has_terminal;
    if open {
        let ghost l0 = st.loose@;
        st.loose.push(cc);
        assert(indices(st.loose@) =~= indices(l0).push(cc as int));
        st.prev = Some(cc);
    } else {
        st.prev = None;
    }
    st.seen_choice = true;
    st.choices = st.choices + 1;
}

fn inner_step<T>(arena: &mut Vec<PendingContainer<T>>, target: usize, inner: InnerExport<T>, wcf: i32)
    requires
        target < old(arena).len(),
    ensures
        arena_model(final(arena)@) == spec_inner(arena_model(old(arena)@), target as int, inner, wcf as int),
        old(arena).len() <= final(arena).len(),
    decreases inner, 0int,
{
    match inner {
        InnerExport::Items(items) => {
            push_items(arena, target, items);
        },
        InnerExport::Weave(v) => {
            let idx = decimal_text(arena[target].content.len());
            let path = sub_path(&arena[target].path, &idx);
            proof {
                assert(arena_model(arena@)[target as int].path == arena@[target as int].path@);
                assert(arena_model(arena@)[target as int].content.len() == arena@[target as int].content@.len());
            }
            let r = build(arena, v, path, false, wcf);
            absorb(arena, target, r);
        },
    }
}

fn gather_step<T>(arena: &mut Vec<PendingContainer<T>>, st: &mut ExecState, g: GatherEntryExport<T>, root: usize, prefix: &String, wcf: i32)
    requires
        state_wf(*old(st), old(arena).len() as nat),
        root < old(arena).len(),
    ensures
        state_model(*final(st), final(arena)@) == spec_gather(g, state_model(*old(st), old(arena)@), root as int, prefix@, wcf as int),
        state_wf(*final(st), final(arena).len() as nat),
        old(arena).len() <= final(arena).len(),
    decreases g, 1int,
{
    let ghost s0 = state_model(*st, arena@);
    let GatherEntryExport { identifier, content } = g;
    let auto_enter = !st.seen_choice;
    let name = match &identifier {
        Some(n) => copy_str(n),
        None => gather_default_name(st.gathers),
    };
    let path = if auto_enter {
        sub_path(&arena[st.current].path, &chars_of(name.as_str()))
    } else {
        sub_path(prefix, &chars_of(name.as_str()))
    };
    assert(arena_model(arena@)[st.current as int].path == arena@[st.current as int].path@);
    divert_all(arena, &st.loose, &path);
    let gc = new_container(arena, copy_str(&path), Some(copy_str(&name)), wcf);
    if auto_enter {
        push_entry(arena, st.current, PendingEntry::Container(gc));
    } else {
        add_named(arena, root, name, gc);
    }
    inner_step(arena, gc, content, wcf);
    st.current = gc;
    st.loose = Vec::new();
    assert(indices(st.loose@) =~= Seq::<int>::empty());
    st.prev = None;
    st.seen_choice = false;
    if identifier.is_none() {
        st.gathers = st.gathers + 1;
    }
}

/// Exports the weave made of `entries` under the path `path_prefix`, its
/// choices and gathers counted with `weave_count_flags`; see `spec_build`.
pub fn export_weave<T>(entries: Vec<WeaveExportEntry<T>>, path_prefix: &str, is_root: bool, weave_count_flags: i32) -> (r: WeaveExport<T>)
    ensures
        weave_export_model(r) == spec_export_weave(entries@, path_prefix@, is_root, weave_count_flags as int),
{
    let mut arena: Vec<PendingContainer<T>> = Vec::new();
    assert(arena_model(arena@) =~= Seq::<SpecPending<T>>::empty());
    let root = build(&mut arena, entries, string_of(&chars_of(path_prefix)), is_root, weave_count_flags);
    WeaveExport { containers: arena, root }
}


// ---------------------------------------------------------------------------
// The paths of a weave's labels.
// ---------------------------------------------------------------------------

/// The short form of a label's path: a label at `p.0.name` (the first
/// entry of the container at `p`) is also known at `p.name`.
pub open spec fn spec_label_alias(path: Seq<char>, name: Seq<char>) -> Option<Seq<char>> {
    match spec_strip_suffix(path, seq!['.', '0', '.'] + name) {
        Some(p) => Some(p + seq!['.'] + name),
        None => None,
    }
}

pub fn label_alias(path: &str, name: &str) -> (r: Option<String>)
    ensures
        match spec_label_alias(path@, name@) {
            Some(a) => r matches Some(s) && s@ == a,
            None => r is None,
        },
{
    let mut suffix: Vec<char> = Vec::new();
    suffix.push('.');
    suffix.push('0');
    suffix.push('.');
    let n = chars_of(name);
    let suffix = concat(&suffix, &n);
    assert(suffix@ =~= seq!['.', '0', '.'] + name@);
    match strip_suffix(&chars_of(path), &suffix) {
        Some(p) => {
            let mut q = p;
            q.push('.');
            Some(string_of(&concat(&q, &n)))
        },
        None => None,
    }
}

/// What the label paths of a weave read of an entry: a choice or a gather
/// with its label, if any, or other content.
#[derive(Debug)]
pub enum WeaveLabel {
    Choice(Option<String>),
    Gather(Option<String>),
    Content,
}

/// The pair for a label at `path`, then the pair for its short form.
pub open spec fn spec_label_pairs_at(name: Seq<char>, path: Seq<char>) -> Seq<(Seq<char>, Seq<char>)> {
    seq![(name, path)] + match spec_label_alias(path, name) {
        Some(a) => seq![(a, path)],
        None => Seq::empty(),
    }
}

/// The labels of a weave's own level (not of deeper weaves) and their
/// paths, in the order they are recorded (a later pair for a name replaces
/// an earlier one): a labelled choice is `c-N` in the container of the
/// last gather (or the weave's own), a gather is entered from that
/// container when no choice came since, else held by the weave's own.
pub open spec fn spec_label_paths_from(
    labels: Seq<WeaveLabel>,
    i: int,
    prefix: Seq<char>,
    current: Seq<char>,
    seen: bool,
    choices: nat,
    gathers: nat,
) -> Seq<(Seq<char>, Seq<char>)>
    decreases labels.len() - i,
{
    if i < 0 || i >= labels.len() {
        Seq::empty()
    } else {
        match labels[i] {
            WeaveLabel::Choice(id) => (match id {
                Some(n) => spec_label_pairs_at(n@, spec_sub_path(current, spec_choice_key(choices))),
                None => Seq::empty(),
            }) + spec_label_paths_from(labels, i + 1, prefix, current, true, choices + 1, gathers),
            WeaveLabel::Gather(id) => {
                let name = spec_gather_name(opt_string_view(id), gathers);
                let path = if !seen { spec_sub_path(current, name) } else { spec_sub_path(prefix, name) };
                (if id is Some { spec_label_pairs_at(name, path) } else { Seq::empty() })
                    + spec_label_paths_from(labels, i + 1, prefix, path, false, choices,
                        if id is None { gathers + 1 } else { gathers })
            },
            WeaveLabel::Content => spec_label_paths_from(labels, i + 1, prefix, current, seen, choices, gathers),
        }
    }
}

pub open spec fn pairs_view(v: Seq<(String, String)>) -> Seq<(Seq<char>, Seq<char>)> {
    v.map_values(|p: (String, String)| (p.0@, p.1@))
}

fn push_label_pairs(out: &mut Vec<(String, String)>, name: &String, path: &String)
    ensures
        pairs_view(final(out)@) == pairs_view(old(out)@) + spec_label_pairs_at(name@, path@),
{
    let ghost o0 = pairs_view(out@);
    out.push((copy_str(name), copy_str(path)));
    assert(pairs_view(out@) =~= o0.push((name@, path@)));
    match label_alias(path.as_str(), name.as_str()) {
        Some(a) => {
            let ghost o1 = pairs_view(out@);
            out.push((a, copy_str(path)));
            assert(pairs_view(out@) =~= o1.push((spec_label_alias(path@, name@)->0, path@)));
        },
        None => {},
    }
    assert(pairs_view(out@) =~= o0 + spec_label_pairs_at(name@, path@));
}

/// The labels of a weave's own level and their paths, for the weave
/// exported under `path_prefix`; see `spec_label_paths_from`.
pub fn current_level_label_paths(path_prefix: &str, labels: &Vec<WeaveLabel>) -> (r: Vec<(String, String)>)
    ensures
        pairs_view(r@) == spec_label_paths_from(labels@, 0, path_prefix@, path_prefix@, false, 0, 0),
{
    let prefix = string_of(&chars_of(path_prefix));
    let mut current = copy_str(&prefix);
    let mut seen = false;
    let mut choices: usize = 0;
    let mut gathers: usize = 0;
    let mut out: Vec<(String, String)> = Vec::new();
    let ghost goal = spec_label_paths_from(labels@, 0, path_prefix@, path_prefix@, false, 0, 0);
    assert(pairs_view(out@) =~= Seq::<(Seq<char>, Seq<char>)>::empty());
    let mut i: usize = 0;
    while i < labels.len()
        invariant
            i <= labels.len(),
            prefix@ == path_prefix@,
            choices <= i,
            gathers <= i,
            pairs_view(out@) + spec_label_paths_from(labels@, i as int, prefix@, current@, seen, choices as nat, gathers as nat) == goal,
        decreases labels.len() - i,
    {
        let ghost o0 = pairs_view(out@);
        match &labels[i] {
            WeaveLabel::Choice(id) => {
                match id {
                    Some(n) => {
                        let key = choice_key(choices);
                        let path = sub_path(&current, &chars_of(key.as_str()));
                        push_label_pairs(&mut out, n, &path);
                    },
                    None => {
                        assert(pairs_view(out@) =~= o0 + Seq::<(Seq<char>, Seq<char>)>::empty());
                    },
                }
                seen = true;
                choices = choices + 1;
            },
            WeaveLabel::Gather(id) => {
                let name = match id {
                    Some(n) => copy_str(n),
                    None => gather_default_name(gathers),
                };
                let path = if !seen {
                    sub_path(&current, &chars_of(name.as_str()))
                } else {
                    sub_path(&prefix, &chars_of(name.as_str()))
                };
                if id.is_some() {
                    push_label_pairs(&mut out, &name, &path);
                } else {
                    assert(pairs_view(out@) =~= o0 + Seq::<(Seq<char>, Seq<char>)>::empty());
                    gathers = gathers + 1;
                }
                current = path;
                seen = false;
            },
            WeaveLabel::Content => {},
        }
        i = i + 1;
    }
    assert(pairs_view(out@) =~= goal);
    out
}

} // verus!
