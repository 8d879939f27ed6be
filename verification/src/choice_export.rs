//! What the runtime form of a choice is made of, decided from plain
//! values: the choice point's flag word and the names and paths of the
//! containers a choice with start content is exported to.
use vstd::prelude::*;
use crate::expression::spec_decimal;
use crate::runtime_tree::{
    lemma_items_concat, lemma_items_empty, lemma_items_push, runtime_container_model, runtime_item_model,
    runtime_items_model, runtime_named_model, ControlCommand, RuntimeContainer, RuntimeItem, SpecRuntimeContainer,
    SpecRuntimeItem,
};
use crate::text::{chars_of, concat, starts_with_char, string_of};

verus! {

/// The flag word of a choice point: bit 0 a condition, bit 1 start
/// content, bit 2 choice-only content, bit 3 an invisible default, bit 4
/// once-only.
pub open spec fn spec_choice_point_flags(
    has_condition: bool,
    has_start: bool,
    has_choice_only: bool,
    is_invisible_default: bool,
    once_only: bool,
) -> int {
    (if has_condition { 1int } else { 0 })
        + (if has_start { 2int } else { 0 })
        + (if has_choice_only { 4int } else { 0 })
        + (if is_invisible_default { 8int } else { 0 })
        + (if once_only { 16int } else { 0 })
}

pub fn choice_point_flags(
    has_condition: bool,
    has_start: bool,
    has_choice_only: bool,
    is_invisible_default: bool,
    once_only: bool,
) -> (f: i32)
    ensures
        f == spec_choice_point_flags(has_condition, has_start, has_choice_only, is_invisible_default, once_only),
{
    let mut f: i32 = 0;
    if has_condition {
        f = f + 1;
    }
    if has_start {
        f = f + 2;
    }
    if has_choice_only {
        f = f + 4;
    }
    if is_invisible_default {
        f = f + 8;
    }
    if once_only {
        f = f + 16;
    }
    f
}

/// The flag word keeps each of the five facts in a bit of its own: it is
/// below 32 and each fact is read back from its bit.
pub proof fn law_choice_point_flags_decode(
    has_condition: bool,
    has_start: bool,
    has_choice_only: bool,
    is_invisible_default: bool,
    once_only: bool,
)
    ensures
        ({
            let f = spec_choice_point_flags(has_condition, has_start, has_choice_only, is_invisible_default, once_only);
            &&& 0 <= f < 32
            &&& (f % 2 == 1) == has_condition
            &&& ((f / 2) % 2 == 1) == has_start
            &&& ((f / 4) % 2 == 1) == has_choice_only
            &&& ((f / 8) % 2 == 1) == is_invisible_default
            &&& (f / 16 == 1) == once_only
        }),
{
}

/// The digit character for `d` (below 10).
pub open spec fn spec_digit(d: nat) -> char {
    if d == 0 { '0' }
    else if d == 1 { '1' }
    else if d == 2 { '2' }
    else if d == 3 { '3' }
    else if d == 4 { '4' }
    else if d == 5 { '5' }
    else if d == 6 { '6' }
    else if d == 7 { '7' }
    else if d == 8 { '8' }
    else { '9' }
}

/// The decimal text of `n`, without leading zeros.
pub open spec fn spec_decimal_text(n: nat) -> Seq<char>
    decreases n,
{
    if n < 10 {
        seq![spec_digit(n)]
    } else {
        spec_decimal_text(n / 10).push(spec_digit(n % 10))
    }
}

/// Reading back the decimal text of `n` gives `n`.
pub proof fn law_decimal_text_reads_back(n: nat)
    ensures
        spec_decimal(spec_decimal_text(n)) == n,
    decreases n,
{
    if n < 10 {
        let t = spec_decimal_text(n);
        assert(t.drop_last() =~= Seq::<char>::empty());
        lemma_digit_value(n);
        assert(spec_decimal(t) == spec_decimal(t.drop_last()) * 10 + ((t.last() as int) - ('0' as int)));
    } else {
        law_decimal_text_reads_back(n / 10);
        let t = spec_decimal_text(n);
        assert(t.drop_last() =~= spec_decimal_text(n / 10));
        assert(t.last() == spec_digit(n % 10));
        lemma_digit_value(n % 10);
        assert(spec_decimal(t) == spec_decimal(t.drop_last()) * 10 + ((t.last() as int) - ('0' as int)));
        assert(n == (n / 10) * 10 + n % 10);
    }
}

proof fn lemma_digit_value(d: nat)
    requires
        d < 10,
    ensures
        (spec_digit(d) as int) - ('0' as int) == d,
{
}

fn digit(d: usize) -> (c: char)
    requires
        d < 10,
    ensures
        c == spec_digit(d as nat),
{
    match d {
        0 => '0',
        1 => '1',
        2 => '2',
        3 => '3',
        4 => '4',
        5 => '5',
        6 => '6',
        7 => '7',
        8 => '8',
        _ => '9',
    }
}

/// The decimal text of `n`.
pub fn decimal_text(n: usize) -> (r: Vec<char>)
    ensures
        r@ == spec_decimal_text(n as nat),
    decreases n,
{
    if n < 10 {
        let mut v: Vec<char> = Vec::new();
        v.push(digit(n));
        v
    } else {
        let mut v = decimal_text(n / 10);
        v.push(digit(n % 10));
        v
    }
}

/// The name of the container of the choice at `choice_index` among its
/// weave's choices: `c-` and the index.
pub open spec fn spec_choice_key(choice_index: nat) -> Seq<char> {
    seq!['c', '-'] + spec_decimal_text(choice_index)
}

pub fn choice_key(choice_index: usize) -> (r: String)
    ensures
        r@ == spec_choice_key(choice_index as nat),
{
    let mut k: Vec<char> = Vec::new();
    k.push('c');
    k.push('-');
    let d = decimal_text(choice_index);
    let v = concat(&k, &d);
    proof {
        assert(k@ =~= seq!['c', '-']);
    }
    string_of(&v)
}

/// The paths of the containers a choice with start content is exported to:
/// the container that holds its choice point, the return point inside it
/// (`$r1`), the return point inside the choice's own container (`$r2`),
/// and the container of its start content (`s`).
pub struct StartChoicePaths {
    pub outer: String,
    pub r1: String,
    pub r2: String,
    pub start: String,
}

/// Whether a choice with start content, exported inside the container at
/// `current_path`, is addressed relative to it: that path is itself
/// relative (it starts with `.`).
pub open spec fn spec_relative_start_choice(current_path: Seq<char>) -> bool {
    current_path.len() > 0 && current_path[0] == '.'
}

pub open spec fn spec_start_choice_outer(current_path: Seq<char>, sub_index: nat) -> Seq<char> {
    if spec_relative_start_choice(current_path) {
        seq!['.', '^', '.', '^', '.'] + spec_decimal_text(sub_index)
    } else {
        current_path + seq!['.'] + spec_decimal_text(sub_index)
    }
}

pub open spec fn spec_start_choice_r1(current_path: Seq<char>, sub_index: nat) -> Seq<char> {
    current_path + seq!['.'] + spec_decimal_text(sub_index) + seq!['.', '$', 'r', '1']
}

pub open spec fn spec_start_choice_r2(
    current_path: Seq<char>,
    choice_container_path: Seq<char>,
    path_prefix: Seq<char>,
    choice_index: nat,
) -> Seq<char> {
    if spec_relative_start_choice(current_path) {
        choice_container_path + seq!['.', '$', 'r', '2']
    } else {
        path_prefix + seq!['.'] + spec_choice_key(choice_index) + seq!['.', '$', 'r', '2']
    }
}

/// The paths for the choice at `choice_index`, its outer container being
/// the `sub_index`-th content of the container at `current_path`, its own
/// container at `choice_container_path`, its weave's at `path_prefix`.
pub fn start_choice_paths(
    current_path: &str,
    sub_index: usize,
    choice_container_path: &str,
    path_prefix: &str,
    choice_index: usize,
) -> (p: StartChoicePaths)
    ensures
        p.outer@ == spec_start_choice_outer(current_path@, sub_index as nat),
        p.r1@ == spec_start_choice_r1(current_path@, sub_index as nat),
        p.r2@ == spec_start_choice_r2(current_path@, choice_container_path@, path_prefix@, choice_index as nat),
        p.start@ == spec_start_choice_outer(current_path@, sub_index as nat) + seq!['.', 's'],
{
    let cur = chars_of(current_path);
    let idx = decimal_text(sub_index);
    let mut dot: Vec<char> = Vec::new();
    dot.push('.');
    let mut r1_tail: Vec<char> = Vec::new();
    r1_tail.push('.');
    r1_tail.push('$');
    r1_tail.push('r');
    r1_tail.push('1');
    let mut r2_tail: Vec<char> = Vec::new();
    r2_tail.push('.');
    r2_tail.push('$');
    r2_tail.push('r');
    r2_tail.push('2');
    let mut s_tail: Vec<char> = Vec::new();
    s_tail.push('.');
    s_tail.push('s');
    proof {
        assert(dot@ =~= seq!['.']);
        assert(r1_tail@ =~= seq!['.', '$', 'r', '1']);
        assert(r2_tail@ =~= seq!['.', '$', 'r', '2']);
        assert(s_tail@ =~= seq!['.', 's']);
    }
    let in_current = concat(&concat(&cur, &dot), &idx);
    let r1 = concat(&in_current, &r1_tail);
    let relative = starts_with_char(&cur, '.');
    let (outer, r2) = if relative {
        let mut up: Vec<char> = Vec::new();
        up.push('.');
        up.push('^');
        up.push('.');
        up.push('^');
        up.push('.');
        proof {
            assert(up@ =~= seq!['.', '^', '.', '^', '.']);
        }
        let outer = concat(&up, &idx);
        let r2 = concat(&chars_of(choice_container_path), &r2_tail);
        (outer, r2)
    } else {
        let key = chars_of(choice_key(choice_index).as_str());
        let r2 = concat(&concat(&concat(&chars_of(path_prefix), &dot), &key), &r2_tail);
        (in_current, r2)
    };
    let start = concat(&outer, &s_tail);
    StartChoicePaths {
        outer: string_of(&outer),
        r1: string_of(&r1),
        r2: string_of(&r2),
        start: string_of(&start),
    }
}

/// What the export of a choice is given: its own facts, and its start
/// content, choice-only content and condition as exported elsewhere.
#[derive(Debug)]
pub struct ChoiceExportInput<T> {
    pub once_only: bool,
    pub is_invisible_default: bool,
    pub has_start: bool,
    pub start_items: Vec<RuntimeItem<T>>,
    pub has_choice_only: bool,
    pub choice_only_items: Vec<RuntimeItem<T>>,
    pub condition_items: Option<Vec<RuntimeItem<T>>>,
}

/// What the export of a choice adds to the container it stands in and to
/// the choice's own container.
#[derive(Debug)]
pub struct ChoiceExport<T> {
    pub into_current: Vec<RuntimeItem<T>>,
    pub into_choice_container: Vec<RuntimeItem<T>>,
}

pub open spec fn condition_model<T>(c: Option<Vec<RuntimeItem<T>>>) -> Option<Seq<SpecRuntimeItem<T>>> {
    match c {
        Some(v) => Some(runtime_items_model(v@)),
        None => None,
    }
}

pub open spec fn dollar_r() -> Seq<char> {
    seq!['$', 'r']
}

pub open spec fn spec_empty_container<T>(path: Seq<char>, name: Seq<char>) -> SpecRuntimeContainer<T> {
    SpecRuntimeContainer { path: Some(path), name: Some(name), count_flags: 0, content: Seq::empty(), named: Seq::empty() }
}

/// The evaluation of what a choice point shows and whether it is offered:
/// the choice-only content as a string, then the condition.
pub open spec fn spec_choice_evaluation<T>(
    has_choice_only: bool,
    choice_only: Seq<SpecRuntimeItem<T>>,
    condition: Option<Seq<SpecRuntimeItem<T>>>,
) -> Seq<SpecRuntimeItem<T>> {
    (if has_choice_only {
        seq![SpecRuntimeItem::Command(ControlCommand::BeginString)] + choice_only
            + seq![SpecRuntimeItem::Command(ControlCommand::EndString)]
    } else {
        Seq::empty()
    }) + match condition {
        Some(c) => c,
        None => Seq::empty(),
    }
}

/// The export of a choice (see `ChoiceExportInput`), the `choice_index`-th
/// of its weave, standing in the container at `current_path` that holds
/// `current_len` items, its own container being at `choice_container_path`
/// and its weave's at `path_prefix`.
///
/// A choice without start content evaluates its choice-only content and
/// condition and places its choice point where it stands. One with start
/// content is placed in a container of its own: that container stores the
/// return point `$r1`, runs the start content (its `s` container) as a
/// string, evaluates the rest, and holds the choice point; the choice's own
/// container then runs the start content again, returning to `$r2`.
pub open spec fn spec_export_choice<T>(
    once_only: bool,
    is_invisible_default: bool,
    has_start: bool,
    start_items: Seq<SpecRuntimeItem<T>>,
    has_choice_only: bool,
    choice_only_items: Seq<SpecRuntimeItem<T>>,
    condition_items: Option<Seq<SpecRuntimeItem<T>>>,
    choice_index: nat,
    current_path: Seq<char>,
    current_len: nat,
    choice_container_path: Seq<char>,
    path_prefix: Seq<char>,
) -> (Seq<SpecRuntimeItem<T>>, Seq<SpecRuntimeItem<T>>) {
    let flags = spec_choice_point_flags(condition_items is Some, has_start, has_choice_only, is_invisible_default, once_only);
    let evaluation = spec_choice_evaluation(has_choice_only, choice_only_items, condition_items);
    let point = seq![
        SpecRuntimeItem::Command(ControlCommand::EvalEnd),
        SpecRuntimeItem::ChoicePoint { flags, target: choice_container_path },
    ];
    if has_start {
        let outer_path = spec_start_choice_outer(current_path, current_len);
        let r1 = spec_start_choice_r1(current_path, current_len);
        let r2 = spec_start_choice_r2(current_path, choice_container_path, path_prefix, choice_index);
        let start = outer_path + seq!['.', 's'];
        let start_container = SpecRuntimeContainer {
            path: Some(start),
            name: Some(seq!['s']),
            count_flags: 0,
            content: start_items.push(SpecRuntimeItem::VariableDivert(dollar_r())),
            named: Seq::empty(),
        };
        let outer = SpecRuntimeContainer {
            path: Some(outer_path),
            name: None,
            count_flags: 0,
            content: seq![
                SpecRuntimeItem::Command(ControlCommand::EvalStart),
                SpecRuntimeItem::PathValue(r1),
                SpecRuntimeItem::VariableAssignment { name: dollar_r(), is_global: false, is_new_declaration: true },
                SpecRuntimeItem::Command(ControlCommand::BeginString),
                SpecRuntimeItem::DivertToContainer(start),
                SpecRuntimeItem::Container(spec_empty_container(r1, seq!['$', 'r', '1'])),
                SpecRuntimeItem::Command(ControlCommand::EndString),
            ] + evaluation + point,
            named: seq![(seq!['s'], start_container)],
        };
        (
            seq![SpecRuntimeItem::Container(outer)],
            seq![
                SpecRuntimeItem::Command(ControlCommand::EvalStart),
                SpecRuntimeItem::PathValue(r2),
                SpecRuntimeItem::Command(ControlCommand::EvalEnd),
                SpecRuntimeItem::VariableAssignment { name: dollar_r(), is_global: false, is_new_declaration: true },
                SpecRuntimeItem::DivertToContainer(start),
                SpecRuntimeItem::Container(spec_empty_container(r2, seq!['$', 'r', '2'])),
            ],
        )
    } else {
        (
            seq![SpecRuntimeItem::Command(ControlCommand::EvalStart)] + evaluation + point,
            Seq::empty(),
        )
    }
}

fn push_item<T>(v: &mut Vec<RuntimeItem<T>>, x: RuntimeItem<T>)
    ensures
        runtime_items_model(final(v)@) == runtime_items_model(old(v)@).push(runtime_item_model(x)),
{
    let ghost before = v@;
    v.push(x);
    proof {
        lemma_items_push(before, x);
    }
}

fn append_items<T>(v: &mut Vec<RuntimeItem<T>>, other: Vec<RuntimeItem<T>>)
    ensures
        runtime_items_model(final(v)@) == runtime_items_model(old(v)@) + runtime_items_model(other@),
{
    let ghost before = v@;
    let mut o = other;
    v.append(&mut o);
    proof {
        lemma_items_concat(before, other@);
    }
}

fn text_of(c: &[char]) -> (s: String)
    ensures
        s@ == c@,
{
    string_of(c)
}

fn copy_string(s: &String) -> (r: String)
    ensures
        r@ == s@,
{
    string_of(&chars_of(s.as_str()))
}

fn empty_container<T>(path: String, name: &[char]) -> (c: RuntimeContainer<T>)
    ensures
        runtime_container_model(c) == spec_empty_container::<T>(path@, name@),
{
    let c = RuntimeContainer { path: Some(path), name: Some(text_of(name)), count_flags: 0, content: Vec::new(), named: Vec::new() };
    proof {
        lemma_items_empty::<T>();
        assert(c.content@ =~= Seq::<RuntimeItem<T>>::empty());
        assert(runtime_named_model(c.named@) =~= Seq::<(Seq<char>, SpecRuntimeContainer<T>)>::empty());
    }
    c
}

fn evaluation_items<T>(
    v: &mut Vec<RuntimeItem<T>>,
    has_choice_only: bool,
    choice_only_items: Vec<RuntimeItem<T>>,
    condition_items: Option<Vec<RuntimeItem<T>>>,
)
    ensures
        runtime_items_model(final(v)@) == runtime_items_model(old(v)@) + spec_choice_evaluation(
            has_choice_only,
            runtime_items_model(choice_only_items@),
            condition_model(condition_items),
        ),
{
    let ghost v0 = runtime_items_model(v@);
    let ghost co = runtime_items_model(choice_only_items@);
    if has_choice_only {
        push_item(v, RuntimeItem::Command(ControlCommand::BeginString));
        append_items(v, choice_only_items);
        push_item(v, RuntimeItem::Command(ControlCommand::EndString));
    }
    let ghost v1 = runtime_items_model(v@);
    assert(v1 =~= v0 + (if has_choice_only {
        seq![SpecRuntimeItem::<T>::Command(ControlCommand::BeginString)] + co
            + seq![SpecRuntimeItem::<T>::Command(ControlCommand::EndString)]
    } else {
        Seq::empty()
    }));
    match condition_items {
        Some(c) => {
            append_items(v, c);
        },
        None => {},
    }
}

/// Exports a choice; see `spec_export_choice`.
pub fn export_choice<T>(
    input: ChoiceExportInput<T>,
    choice_index: usize,
    current_path: &str,
    current_len: usize,
    choice_container_path: &str,
    path_prefix: &str,
) -> (r: ChoiceExport<T>)
    ensures
        (runtime_items_model(r.into_current@), runtime_items_model(r.into_choice_container@)) == spec_export_choice(
            input.once_only,
            input.is_invisible_default,
            input.has_start,
            runtime_items_model(input.start_items@),
            input.has_choice_only,
            runtime_items_model(input.choice_only_items@),
            condition_model(input.condition_items),
            choice_index as nat,
            current_path@,
            current_len as nat,
            choice_container_path@,
            path_prefix@,
        ),
{
    let ghost goal = spec_export_choice(
        input.once_only,
        input.is_invisible_default,
        input.has_start,
        runtime_items_model(input.start_items@),
        input.has_choice_only,
        runtime_items_model(input.choice_only_items@),
        condition_model(input.condition_items),
        choice_index as nat,
        current_path@,
        current_len as nat,
        choice_container_path@,
        path_prefix@,
    );
    let ghost eval = spec_choice_evaluation(
        input.has_choice_only,
        runtime_items_model(input.choice_only_items@),
        condition_model(input.condition_items),
    );
    let ChoiceExportInput {
        once_only,
        is_invisible_default,
        has_start,
        start_items,
        has_choice_only,
        choice_only_items,
        condition_items,
    } = input;
    let flags = choice_point_flags(condition_items.is_some(), has_start, has_choice_only, is_invisible_default, once_only);
    let mut dr: Vec<char> = Vec::new();
    dr.push('$');
    dr.push('r');
    assert(dr@ =~= dollar_r());
    if has_start {
        let paths = start_choice_paths(current_path, current_len, choice_container_path, path_prefix, choice_index);
        let mut content: Vec<RuntimeItem<T>> = Vec::new();
        proof {
            lemma_items_empty::<T>();
        }
        push_item(&mut content, RuntimeItem::Command(ControlCommand::EvalStart));
        push_item(&mut content, RuntimeItem::PathValue(copy_string(&paths.r1)));
        push_item(&mut content, RuntimeItem::VariableAssignment { name: text_of(&dr), is_global: false, is_new_declaration: true });
        push_item(&mut content, RuntimeItem::Command(ControlCommand::BeginString));
        push_item(&mut content, RuntimeItem::DivertToContainer(copy_string(&paths.start)));
        let mut r1_name: Vec<char> = Vec::new();
        r1_name.push('$');
        r1_name.push('r');
        r1_name.push('1');
        assert(r1_name@ =~= seq!['$', 'r', '1']);
        push_item(&mut content, RuntimeItem::Container(empty_container(copy_string(&paths.r1), &r1_name)));
        push_item(&mut content, RuntimeItem::Command(ControlCommand::EndString));
        let ghost head = runtime_items_model(content@);
        evaluation_items(&mut content, has_choice_only, choice_only_items, condition_items);
        let ghost with_eval = runtime_items_model(content@);
        push_item(&mut content, RuntimeItem::Command(ControlCommand::EvalEnd));
        push_item(&mut content, RuntimeItem::ChoicePoint { flags, target: text_of(&chars_of(choice_container_path)) });
        let ghost outer_content = runtime_items_model(content@);

        let ghost st = runtime_items_model(start_items@);
        let mut start_content = start_items;
        push_item(&mut start_content, RuntimeItem::VariableDivert(text_of(&dr)));
        let mut s_name: Vec<char> = Vec::new();
        s_name.push('s');
        assert(s_name@ =~= seq!['s']);
        let start_container = RuntimeContainer {
            path: Some(copy_string(&paths.start)),
            name: Some(text_of(&s_name)),
            count_flags: 0,
            content: start_content,
            named: Vec::new(),
        };
        let mut named: Vec<(String, RuntimeContainer<T>)> = Vec::new();
        named.push((text_of(&s_name), start_container));
        let outer = RuntimeContainer { path: Some(copy_string(&paths.outer)), name: None, count_flags: 0, content, named };

        let mut into_current: Vec<RuntimeItem<T>> = Vec::new();
        push_item(&mut into_current, RuntimeItem::Container(outer));

        let mut into_cc: Vec<RuntimeItem<T>> = Vec::new();
        push_item(&mut into_cc, RuntimeItem::Command(ControlCommand::EvalStart));
        push_item(&mut into_cc, RuntimeItem::PathValue(copy_string(&paths.r2)));
        push_item(&mut into_cc, RuntimeItem::Command(ControlCommand::EvalEnd));
        push_item(&mut into_cc, RuntimeItem::VariableAssignment { name: text_of(&dr), is_global: false, is_new_declaration: true });
        push_item(&mut into_cc, RuntimeItem::DivertToContainer(copy_string(&paths.start)));
        let mut r2_name: Vec<char> = Vec::new();
        r2_name.push('$');
        r2_name.push('r');
        r2_name.push('2');
        assert(r2_name@ =~= seq!['$', 'r', '2']);
        push_item(&mut into_cc, RuntimeItem::Container(empty_container(copy_string(&paths.r2), &r2_name)));
        proof {
            assert(runtime_named_model(named@) =~= seq![(seq!['s'], runtime_container_model(start_container))]) by {
                assert(named@.drop_last() =~= Seq::<(String, RuntimeContainer<T>)>::empty());
            }
            let r1 = spec_start_choice_r1(current_path@, current_len as nat);
            let start = spec_start_choice_outer(current_path@, current_len as nat) + seq!['.', 's'];
            assert(head =~= seq![
                SpecRuntimeItem::<T>::Command(ControlCommand::EvalStart),
                SpecRuntimeItem::<T>::PathValue(r1),
                SpecRuntimeItem::<T>::VariableAssignment { name: dollar_r(), is_global: false, is_new_declaration: true },
                SpecRuntimeItem::<T>::Command(ControlCommand::BeginString),
                SpecRuntimeItem::<T>::DivertToContainer(start),
                SpecRuntimeItem::<T>::Container(spec_empty_container(r1, seq!['$', 'r', '1'])),
                SpecRuntimeItem::<T>::Command(ControlCommand::EndString),
            ]);
            assert(with_eval =~= head + eval);
            assert(outer_content =~= head + eval + seq![
                SpecRuntimeItem::<T>::Command(ControlCommand::EvalEnd),
                SpecRuntimeItem::<T>::ChoicePoint { flags: flags as int, target: choice_container_path@ },
            ]);
            assert(runtime_items_model(start_container.content@) == st.push(SpecRuntimeItem::<T>::VariableDivert(dollar_r())));
            assert(runtime_container_model(start_container).name == Some(seq!['s']));
            assert(runtime_container_model(outer).content == outer_content);
            assert(runtime_container_model(outer).named =~= seq![(seq!['s'], runtime_container_model(start_container))]);
        }
        proof {
            assert(runtime_items_model(into_cc@) =~= goal.1);
            assert(runtime_items_model(into_current@) =~= goal.0);
        }
        ChoiceExport { into_current, into_choice_container: into_cc }
    } else {
        let mut into_current: Vec<RuntimeItem<T>> = Vec::new();
        proof {
            lemma_items_empty::<T>();
        }
        push_item(&mut into_current, RuntimeItem::Command(ControlCommand::EvalStart));
        evaluation_items(&mut into_current, has_choice_only, choice_only_items, condition_items);
        push_item(&mut into_current, RuntimeItem::Command(ControlCommand::EvalEnd));
        push_item(&mut into_current, RuntimeItem::ChoicePoint { flags, target: text_of(&chars_of(choice_container_path)) });
        let into_cc: Vec<RuntimeItem<T>> = Vec::new();
        proof {
            assert(runtime_items_model(into_cc@) =~= goal.1);
            assert(runtime_items_model(into_current@) =~= goal.0);
        }
        ChoiceExport { into_current, into_choice_container: into_cc }
    }
}

} // verus!
