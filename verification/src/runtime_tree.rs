//! A plain-value form of the runtime tree a story is exported to: the
//! containers, with their paths and names, and what they hold. What the
//! export of a node makes of content that is exported elsewhere is carried
//! as an opaque value `T`.
use vstd::prelude::*;

verus! {

/// The control commands the export of choices and sequences emits.
#[derive(Debug, Clone, Copy, PartialEq, Eq, Structural)]
pub enum ControlCommand {
    EvalStart,
    EvalEnd,
    BeginString,
    EndString,
    VisitIndex,
    Duplicate,
    SequenceShuffleIndex,
    PopEvaluatedValue,
    End,
    Done,
}

/// The native operations the export of a sequence emits.
#[derive(Debug, Clone, Copy, PartialEq, Eq, Structural)]
pub enum NativeOp {
    Min,
    Mod,
    Equal,
}

/// The no-op markers that the diverts of a sequence or a conditional
/// lead to.
#[derive(Debug, Clone, Copy, PartialEq, Eq, Structural)]
pub enum JoinMark {
    /// After a shuffled sequence's index is computed.
    PostShuffle,
    /// After a sequence's branch diverts: where every branch returns.
    PostSequence,
    /// After a conditional's branches: where every branch returns.
    Rejoin,
}

/// An item of a runtime container.
#[derive(Debug)]
pub enum RuntimeItem<T> {
    Command(ControlCommand),
    /// A value holding a divert target, given by its path.
    PathValue(String),
    VariableAssignment { name: String, is_global: bool, is_new_declaration: bool },
    /// A tunnel divert to the container at the given path.
    DivertToContainer(String),
    /// A divert to the target held in the named variable.
    VariableDivert(String),
    /// A choice point with its flag word, leading to the container at the
    /// given path.
    ChoicePoint { flags: i32, target: String },
    Container(RuntimeContainer<T>),
    /// Content exported by another part of the export.
    Exported(T),
    IntValue(i32),
    Native(NativeOp),
    /// A no-op that diverts of the same sequence or conditional lead to.
    NoOp(JoinMark),
    /// A divert to a no-op of the same sequence or conditional
    /// (`is_function`: pushed as a function call rather than a tunnel).
    DivertToMark { is_function: bool, is_conditional: bool, mark: JoinMark },
    /// A conditional function divert to the sequence's branch container
    /// of the given name.
    DivertToBranch(String),
    /// A tunnel divert, conditional or not, to the container of the given
    /// name that the same container holds.
    DivertToNamed { is_conditional: bool, name: String },
    /// A string value.
    StringValue(String),
    /// A divert to the container at the given path.
    DivertToPath(String),
    /// Content exported by another part of the export that ends the flow
    /// of its container: a divert, or an end or done command.
    Terminal(T),
}

/// A runtime container: its path, its name, its content, and the
/// containers it holds by name.
#[derive(Debug)]
pub struct RuntimeContainer<T> {
    pub path: Option<String>,
    pub name: Option<String>,
    pub count_flags: i32,
    pub content: Vec<RuntimeItem<T>>,
    pub named: Vec<(String, RuntimeContainer<T>)>,
}

pub enum SpecRuntimeItem<T> {
    Command(ControlCommand),
    PathValue(Seq<char>),
    VariableAssignment { name: Seq<char>, is_global: bool, is_new_declaration: bool },
    DivertToContainer(Seq<char>),
    VariableDivert(Seq<char>),
    ChoicePoint { flags: int, target: Seq<char> },
    Container(SpecRuntimeContainer<T>),
    Exported(T),
    IntValue(int),
    Native(NativeOp),
    NoOp(JoinMark),
    DivertToMark { is_function: bool, is_conditional: bool, mark: JoinMark },
    DivertToBranch(Seq<char>),
    DivertToNamed { is_conditional: bool, name: Seq<char> },
    StringValue(Seq<char>),
    DivertToPath(Seq<char>),
    Terminal(T),
}

/// The item ends the flow of its container: a divert of any kind, or an
/// end or done command.
pub open spec fn spec_is_terminal_item<T>(i: SpecRuntimeItem<T>) -> bool {
    match i {
        SpecRuntimeItem::DivertToContainer(_) => true,
        SpecRuntimeItem::VariableDivert(_) => true,
        SpecRuntimeItem::DivertToMark { .. } => true,
        SpecRuntimeItem::DivertToBranch(_) => true,
        SpecRuntimeItem::DivertToNamed { .. } => true,
        SpecRuntimeItem::DivertToPath(_) => true,
        SpecRuntimeItem::Terminal(_) => true,
        SpecRuntimeItem::Command(c) => c == ControlCommand::End || c == ControlCommand::Done,
        _ => false,
    }
}

pub struct SpecRuntimeContainer<T> {
    pub path: Option<Seq<char>>,
    pub name: Option<Seq<char>>,
    pub count_flags: int,
    pub content: Seq<SpecRuntimeItem<T>>,
    pub named: Seq<(Seq<char>, SpecRuntimeContainer<T>)>,
}

pub open spec fn runtime_item_model<T>(i: RuntimeItem<T>) -> SpecRuntimeItem<T>
    decreases i,
{
    match i {
        RuntimeItem::Command(c) => SpecRuntimeItem::Command(c),
        RuntimeItem::PathValue(p) => SpecRuntimeItem::PathValue(p@),
        RuntimeItem::VariableAssignment { name, is_global, is_new_declaration } =>
            SpecRuntimeItem::VariableAssignment { name: name@, is_global, is_new_declaration },
        RuntimeItem::DivertToContainer(p) => SpecRuntimeItem::DivertToContainer(p@),
        RuntimeItem::VariableDivert(v) => SpecRuntimeItem::VariableDivert(v@),
        RuntimeItem::ChoicePoint { flags, target } => SpecRuntimeItem::ChoicePoint { flags: flags as int, target: target@ },
        RuntimeItem::Container(c) => SpecRuntimeItem::Container(runtime_container_model(c)),
        RuntimeItem::Exported(x) => SpecRuntimeItem::Exported(x),
        RuntimeItem::IntValue(v) => SpecRuntimeItem::IntValue(v as int),
        RuntimeItem::Native(op) => SpecRuntimeItem::Native(op),
        RuntimeItem::NoOp(m) => SpecRuntimeItem::NoOp(m),
        RuntimeItem::DivertToMark { is_function, is_conditional, mark } =>
            SpecRuntimeItem::DivertToMark { is_function, is_conditional, mark },
        RuntimeItem::DivertToBranch(n) => SpecRuntimeItem::DivertToBranch(n@),
        RuntimeItem::DivertToNamed { is_conditional, name } => SpecRuntimeItem::DivertToNamed { is_conditional, name: name@ },
        RuntimeItem::StringValue(v) => SpecRuntimeItem::StringValue(v@),
        RuntimeItem::DivertToPath(p) => SpecRuntimeItem::DivertToPath(p@),
        RuntimeItem::Terminal(x) => SpecRuntimeItem::Terminal(x),
    }
}

pub open spec fn runtime_items_model<T>(s: Seq<RuntimeItem<T>>) -> Seq<SpecRuntimeItem<T>>
    decreases s,
{
    if s.len() == 0 {
        Seq::empty()
    } else {
        runtime_items_model(s.drop_last()).push(runtime_item_model(s.last()))
    }
}

pub open spec fn runtime_named_model<T>(s: Seq<(String, RuntimeContainer<T>)>) -> Seq<(Seq<char>, SpecRuntimeContainer<T>)>
    decreases s,
{
    if s.len() == 0 {
        Seq::empty()
    } else {
        runtime_named_model(s.drop_last()).push((s.last().0@, runtime_container_model(s.last().1)))
    }
}

pub open spec fn runtime_container_model<T>(c: RuntimeContainer<T>) -> SpecRuntimeContainer<T>
    decreases c,
{
    SpecRuntimeContainer {
        path: match c.path {
            Some(p) => Some(p@),
            None => None,
        },
        name: match c.name {
            Some(n) => Some(n@),
            None => None,
        },
        count_flags: c.count_flags as int,
        content: runtime_items_model(c.content@),
        named: runtime_named_model(c.named@),
    }
}

pub proof fn lemma_items_push<T>(s: Seq<RuntimeItem<T>>, x: RuntimeItem<T>)
    ensures
        runtime_items_model(s.push(x)) == runtime_items_model(s).push(runtime_item_model(x)),
{
    assert(s.push(x).drop_last() =~= s);
}

pub proof fn lemma_items_concat<T>(a: Seq<RuntimeItem<T>>, b: Seq<RuntimeItem<T>>)
    ensures
        runtime_items_model(a + b) == runtime_items_model(a) + runtime_items_model(b),
    decreases b.len(),
{
    if b.len() == 0 {
        assert(a + b =~= a);
        assert(runtime_items_model(a) + runtime_items_model(b) =~= runtime_items_model(a));
    } else {
        lemma_items_concat(a, b.drop_last());
        assert((a + b).drop_last() =~= a + b.drop_last());
        assert((a + b).last() == b.last());
        assert(runtime_items_model(a) + runtime_items_model(b)
            =~= (runtime_items_model(a) + runtime_items_model(b.drop_last())).push(runtime_item_model(b.last())));
    }
}

pub proof fn lemma_named_push<T>(s: Seq<(String, RuntimeContainer<T>)>, x: (String, RuntimeContainer<T>))
    ensures
        runtime_named_model(s.push(x)) == runtime_named_model(s).push((x.0@, runtime_container_model(x.1))),
{
    assert(s.push(x).drop_last() =~= s);
}

pub proof fn lemma_items_index<T>(s: Seq<RuntimeItem<T>>)
    ensures
        runtime_items_model(s).len() == s.len(),
        forall|j: int| 0 <= j < s.len() ==> #[trigger] runtime_items_model(s)[j] == runtime_item_model(s[j]),
    decreases s.len(),
{
    if s.len() > 0 {
        lemma_items_index(s.drop_last());
        assert forall|j: int| 0 <= j < s.len() implies #[trigger] runtime_items_model(s)[j] == runtime_item_model(s[j]) by {
            if j < s.len() - 1 {
                assert(s.drop_last()[j] == s[j]);
            }
        }
    }
}

pub proof fn lemma_items_empty<T>()
    ensures
        runtime_items_model(Seq::<RuntimeItem<T>>::empty()) == Seq::<SpecRuntimeItem<T>>::empty(),
{
}

} // verus!
