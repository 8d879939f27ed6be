//! The syntax tree produced by the parser, with its mathematical model.
//!
//! Every executable type `X` has a model `SpecX` in which strings are
//! `Seq<char>` and vectors are `Seq`s; the parser's contracts are stated
//! over the models (see the `Model` trait).
use vstd::prelude::*;
use crate::error::{CompilerError, ErrorKind};

verus! {

/// A mathematical model of an executable value.
pub trait Model {
    type M;

    spec fn model(&self) -> Self::M;
}

/// An executable result agrees with a modelled one: both succeed with
/// values of equal models, or both fail with the same class of error.
pub open spec fn agrees<T: Model>(r: Result<T, CompilerError>, s: Result<T::M, ErrorKind>) -> bool {
    match (r, s) {
        (Ok(x), Ok(y)) => x.model() == y,
        (Err(e), Err(k)) => e.kind == k,
        _ => false,
    }
}

impl Model for String {
    type M = Seq<char>;

    open spec fn model(&self) -> Seq<char> {
        self@
    }
}

pub open spec fn strings_model(s: Seq<String>) -> Seq<Seq<char>> {
    s.map_values(|x: String| x@)
}

impl Model for Vec<String> {
    type M = Seq<Seq<char>>;

    open spec fn model(&self) -> Seq<Seq<char>> {
        strings_model(self@)
    }
}

#[derive(PartialEq, Eq, Structural, Clone, Copy, Debug)]
pub enum BinaryOperator {
    Add,
    Subtract,
    Multiply,
    Divide,
    Modulo,
    Equal,
    NotEqual,
    Greater,
    GreaterEqual,
    Less,
    LessEqual,
    And,
    Or,
    Has,
    Hasnt,
    Intersect,
}

/// An expression of the ink language.  A floating-point literal is kept as
/// the decimal text it was written with.
#[derive(Debug, PartialEq)]
pub enum Expression {
    Bool(bool),
    Int(i32),
    Float(String),
    Str(String),
    Variable(String),
    DivertTarget(String),
    FunctionCall { name: String, args: Vec<Expression> },
    Negate(Box<Expression>),
    Binary { left: Box<Expression>, operator: BinaryOperator, right: Box<Expression> },
    ListItems(Vec<String>),
    EmptyList,
}

pub enum SpecExpression {
    Bool(bool),
    Int(int),
    Float(Seq<char>),
    Str(Seq<char>),
    Variable(Seq<char>),
    DivertTarget(Seq<char>),
    FunctionCall { name: Seq<char>, args: Seq<SpecExpression> },
    Negate(Box<SpecExpression>),
    Binary { left: Box<SpecExpression>, operator: BinaryOperator, right: Box<SpecExpression> },
    ListItems(Seq<Seq<char>>),
    EmptyList,
}

pub open spec fn expr_model(e: Expression) -> SpecExpression
    decreases e,
{
    match e {
        Expression::Bool(b) => SpecExpression::Bool(b),
        Expression::Int(i) => SpecExpression::Int(i as int),
        Expression::Float(t) => SpecExpression::Float(t@),
        Expression::Str(t) => SpecExpression::Str(t@),
        Expression::Variable(t) => SpecExpression::Variable(t@),
        Expression::DivertTarget(t) => SpecExpression::DivertTarget(t@),
        Expression::FunctionCall { name, args } => SpecExpression::FunctionCall {
            name: name@,
            args: exprs_model(args@),
        },
        Expression::Negate(inner) => SpecExpression::Negate(Box::new(expr_model(*inner))),
        Expression::Binary { left, operator, right } => SpecExpression::Binary {
            left: Box::new(expr_model(*left)),
            operator,
            right: Box::new(expr_model(*right)),
        },
        Expression::ListItems(items) => SpecExpression::ListItems(strings_model(items@)),
        Expression::EmptyList => SpecExpression::EmptyList,
    }
}

pub open spec fn exprs_model(s: Seq<Expression>) -> Seq<SpecExpression>
    decreases s,
{
    if s.len() == 0 {
        Seq::empty()
    } else {
        exprs_model(s.drop_last()).push(expr_model(s.last()))
    }
}

impl Model for Expression {
    type M = SpecExpression;

    open spec fn model(&self) -> SpecExpression {
        expr_model(*self)
    }
}

impl Model for Vec<Expression> {
    type M = Seq<SpecExpression>;

    open spec fn model(&self) -> Seq<SpecExpression> {
        exprs_model(self@)
    }
}

/// The condition guarding a choice or a conditional block.
#[derive(Debug, PartialEq)]
pub enum Condition {
    Bool(bool),
    FunctionCall(String),
    Expression(Expression),
}

pub enum SpecCondition {
    Bool(bool),
    FunctionCall(Seq<char>),
    Expression(SpecExpression),
}

pub open spec fn condition_model(c: Condition) -> SpecCondition {
    match c {
        Condition::Bool(b) => SpecCondition::Bool(b),
        Condition::FunctionCall(n) => SpecCondition::FunctionCall(n@),
        Condition::Expression(e) => SpecCondition::Expression(expr_model(e)),
    }
}

pub open spec fn conditions_model(s: Seq<Condition>) -> Seq<SpecCondition> {
    s.map_values(|c: Condition| condition_model(c))
}

impl Model for Condition {
    type M = SpecCondition;

    open spec fn model(&self) -> SpecCondition {
        condition_model(*self)
    }
}

/// A jump to a named target, possibly with arguments.
#[derive(Debug, PartialEq)]
pub struct Divert {
    pub target: String,
    pub arguments: Vec<Expression>,
}

pub struct SpecDivert {
    pub target: Seq<char>,
    pub arguments: Seq<SpecExpression>,
}

pub open spec fn divert_model(d: Divert) -> SpecDivert {
    SpecDivert { target: d.target@, arguments: exprs_model(d.arguments@) }
}

impl Model for Divert {
    type M = SpecDivert;

    open spec fn model(&self) -> SpecDivert {
        divert_model(*self)
    }
}

#[derive(PartialEq, Eq, Structural, Clone, Copy, Debug)]
pub enum SequenceMode {
    Stopping,
    Once,
    Cycle,
    Shuffle,
    ShuffleOnce,
    ShuffleStopping,
}

#[derive(PartialEq, Eq, Structural, Clone, Copy, Debug)]
pub enum AssignMode {
    Assign,
    TempSet,
    AddAssign,
    SubtractAssign,
}

/// A sequence of alternatives (`{a|b|c}` or a multi-line block).
#[derive(Debug, PartialEq)]
pub struct Sequence {
    pub mode: SequenceMode,
    pub branches: Vec<Vec<Node>>,
}

/// Text interleaved with expressions and sequences, as in a tag.
#[derive(Debug, PartialEq)]
pub struct DynamicString {
    pub parts: Vec<DynamicStringPart>,
}

#[derive(Debug, PartialEq)]
pub enum DynamicStringPart {
    Text(String),
    Expression(Expression),
    Sequence(Sequence),
}

/// A choice offered to the reader, with the pieces of its text and its body.
#[derive(Debug, PartialEq)]
pub struct Choice {
    pub display_text: String,
    pub selected_text: Option<String>,
    pub body: Vec<Node>,
    pub start_text: String,
    pub choice_only_text: String,
    pub conditions: Vec<Condition>,
    pub label: Option<String>,
    pub once_only: bool,
    pub is_invisible_default: bool,
    pub has_start_content: bool,
    pub has_choice_only_content: bool,
    pub start_tags: Vec<DynamicString>,
    pub choice_only_tags: Vec<DynamicString>,
    pub selected_tags: Vec<DynamicString>,
    pub nesting_level: usize,
}

/// One element of story content.
#[derive(Debug, PartialEq)]
pub enum Node {
    Text(String),
    Newline,
    Glue,
    Tag(DynamicString),
    Divert(Divert),
    ThreadDivert(Divert),
    TunnelDivert { target: String, is_variable: bool, args: Vec<Expression> },
    TunnelReturn,
    TunnelOnwardsWithTarget { target: String, args: Vec<Expression> },
    Conditional { condition: Condition, when_true: Vec<Node>, when_false: Option<Vec<Node>> },
    SwitchConditional { value: Expression, branches: Vec<(Option<Expression>, Vec<Node>)> },
    Sequence(Sequence),
    OutputExpression(Expression),
    ReturnVoid,
    ReturnExpr(Expression),
    Assignment { variable_name: String, expression: Expression, mode: AssignMode },
    VoidCall { name: String, args: Vec<Expression> },
    Choice(Choice),
    GatherPoint,
    GatherLabel(String),
}

/// A `VAR` (or `CONST`) declaration: a name and its initial value.
#[derive(Debug, PartialEq)]
pub struct GlobalVariable {
    pub name: String,
    pub initial_value: Expression,
}

/// A `LIST` declaration: its name and its items, each with its value and
/// whether it starts out selected.
#[derive(Debug, PartialEq)]
pub struct ListDeclaration {
    pub name: String,
    pub items: Vec<(String, u32, bool)>,
}

pub struct SpecGlobal {
    pub name: Seq<char>,
    pub initial_value: SpecExpression,
}

pub struct SpecListDeclaration {
    pub name: Seq<char>,
    pub items: Seq<(Seq<char>, u32, bool)>,
}

pub open spec fn list_items_model(items: Seq<(String, u32, bool)>) -> Seq<(Seq<char>, u32, bool)> {
    items.map_values(|x: (String, u32, bool)| (x.0@, x.1, x.2))
}

impl Model for GlobalVariable {
    type M = SpecGlobal;

    open spec fn model(&self) -> SpecGlobal {
        SpecGlobal { name: self.name@, initial_value: expr_model(self.initial_value) }
    }
}

impl Model for ListDeclaration {
    type M = SpecListDeclaration;

    open spec fn model(&self) -> SpecListDeclaration {
        SpecListDeclaration { name: self.name@, items: list_items_model(self.items@) }
    }
}

pub struct SpecSequence {
    pub mode: SequenceMode,
    pub branches: Seq<Seq<SpecNode>>,
}

pub struct SpecDynamicString {
    pub parts: Seq<SpecDynamicStringPart>,
}

pub enum SpecDynamicStringPart {
    Text(Seq<char>),
    Expression(SpecExpression),
    Sequence(SpecSequence),
}

pub struct SpecChoice {
    pub display_text: Seq<char>,
    pub selected_text: Option<Seq<char>>,
    pub body: Seq<SpecNode>,
    pub start_text: Seq<char>,
    pub choice_only_text: Seq<char>,
    pub conditions: Seq<SpecCondition>,
    pub label: Option<Seq<char>>,
    pub once_only: bool,
    pub is_invisible_default: bool,
    pub has_start_content: bool,
    pub has_choice_only_content: bool,
    pub start_tags: Seq<SpecDynamicString>,
    pub choice_only_tags: Seq<SpecDynamicString>,
    pub selected_tags: Seq<SpecDynamicString>,
    pub nesting_level: nat,
}

pub enum SpecNode {
    Text(Seq<char>),
    Newline,
    Glue,
    Tag(SpecDynamicString),
    Divert(SpecDivert),
    ThreadDivert(SpecDivert),
    TunnelDivert { target: Seq<char>, is_variable: bool, args: Seq<SpecExpression> },
    TunnelReturn,
    TunnelOnwardsWithTarget { target: Seq<char>, args: Seq<SpecExpression> },
    Conditional {
        condition: SpecCondition,
        when_true: Seq<SpecNode>,
        when_false: Option<Seq<SpecNode>>,
    },
    SwitchConditional { value: SpecExpression, branches: Seq<(Option<SpecExpression>, Seq<SpecNode>)> },
    Sequence(SpecSequence),
    OutputExpression(SpecExpression),
    ReturnVoid,
    ReturnExpr(SpecExpression),
    Assignment { variable_name: Seq<char>, expression: SpecExpression, mode: AssignMode },
    VoidCall { name: Seq<char>, args: Seq<SpecExpression> },
    Choice(SpecChoice),
    GatherPoint,
    GatherLabel(Seq<char>),
}

pub open spec fn opt_string_model(o: Option<String>) -> Option<Seq<char>> {
    match o {
        Some(s) => Some(s@),
        None => None,
    }
}

pub open spec fn opt_expr_model(o: Option<Expression>) -> Option<SpecExpression> {
    match o {
        Some(e) => Some(expr_model(e)),
        None => None,
    }
}

pub open spec fn node_model(n: Node) -> SpecNode
    decreases n,
{
    match n {
        Node::Text(t) => SpecNode::Text(t@),
        Node::Newline => SpecNode::Newline,
        Node::Glue => SpecNode::Glue,
        Node::Tag(d) => SpecNode::Tag(dynamic_string_model(d)),
        Node::Divert(d) => SpecNode::Divert(divert_model(d)),
        Node::ThreadDivert(d) => SpecNode::ThreadDivert(divert_model(d)),
        Node::TunnelDivert { target, is_variable, args } => SpecNode::TunnelDivert {
            target: target@,
            is_variable,
            args: exprs_model(args@),
        },
        Node::TunnelReturn => SpecNode::TunnelReturn,
        Node::TunnelOnwardsWithTarget { target, args } => SpecNode::TunnelOnwardsWithTarget {
            target: target@,
            args: exprs_model(args@),
        },
        Node::Conditional { condition, when_true, when_false } => SpecNode::Conditional {
            condition: condition_model(condition),
            when_true: nodes_model(when_true@),
            when_false: match when_false {
                Some(v) => Some(nodes_model(v@)),
                None => None,
            },
        },
        Node::SwitchConditional { value, branches } => SpecNode::SwitchConditional {
            value: expr_model(value),
            branches: switch_branches_model(branches@),
        },
        Node::Sequence(s) => SpecNode::Sequence(sequence_model(s)),
        Node::OutputExpression(e) => SpecNode::OutputExpression(expr_model(e)),
        Node::ReturnVoid => SpecNode::ReturnVoid,
        Node::ReturnExpr(e) => SpecNode::ReturnExpr(expr_model(e)),
        Node::Assignment { variable_name, expression, mode } => SpecNode::Assignment {
            variable_name: variable_name@,
            expression: expr_model(expression),
            mode,
        },
        Node::VoidCall { name, args } => SpecNode::VoidCall {
            name: name@,
            args: exprs_model(args@),
        },
        Node::Choice(c) => SpecNode::Choice(choice_model(c)),
        Node::GatherPoint => SpecNode::GatherPoint,
        Node::GatherLabel(l) => SpecNode::GatherLabel(l@),
    }
}

pub open spec fn nodes_model(s: Seq<Node>) -> Seq<SpecNode>
    decreases s,
{
    if s.len() == 0 {
        Seq::empty()
    } else {
        nodes_model(s.drop_last()).push(node_model(s.last()))
    }
}

pub open spec fn branches_model(s: Seq<Vec<Node>>) -> Seq<Seq<SpecNode>>
    decreases s,
{
    if s.len() == 0 {
        Seq::empty()
    } else {
        branches_model(s.drop_last()).push(nodes_model(s.last()@))
    }
}

pub open spec fn switch_branches_model(s: Seq<(Option<Expression>, Vec<Node>)>) -> Seq<
    (Option<SpecExpression>, Seq<SpecNode>),
>
    decreases s,
{
    if s.len() == 0 {
        Seq::empty()
    } else {
        switch_branches_model(s.drop_last()).push(
            (opt_expr_model(s.last().0), nodes_model(s.last().1@)),
        )
    }
}

pub open spec fn sequence_model(s: Sequence) -> SpecSequence
    decreases s,
{
    SpecSequence { mode: s.mode, branches: branches_model(s.branches@) }
}

pub open spec fn dynamic_string_model(d: DynamicString) -> SpecDynamicString
    decreases d,
{
    SpecDynamicString { parts: dyn_parts_model(d.parts@) }
}

pub open spec fn dyn_part_model(p: DynamicStringPart) -> SpecDynamicStringPart
    decreases p,
{
    match p {
        DynamicStringPart::Text(t) => SpecDynamicStringPart::Text(t@),
        DynamicStringPart::Expression(e) => SpecDynamicStringPart::Expression(expr_model(e)),
        DynamicStringPart::Sequence(s) => SpecDynamicStringPart::Sequence(sequence_model(s)),
    }
}

pub open spec fn dyn_parts_model(s: Seq<DynamicStringPart>) -> Seq<SpecDynamicStringPart>
    decreases s,
{
    if s.len() == 0 {
        Seq::empty()
    } else {
        dyn_parts_model(s.drop_last()).push(dyn_part_model(s.last()))
    }
}

pub open spec fn dynamic_strings_model(s: Seq<DynamicString>) -> Seq<SpecDynamicString>
    decreases s,
{
    if s.len() == 0 {
        Seq::empty()
    } else {
        dynamic_strings_model(s.drop_last()).push(dynamic_string_model(s.last()))
    }
}

pub open spec fn choice_model(c: Choice) -> SpecChoice
    decreases c,
{
    SpecChoice {
        display_text: c.display_text@,
        selected_text: opt_string_model(c.selected_text),
        body: nodes_model(c.body@),
        start_text: c.start_text@,
        choice_only_text: c.choice_only_text@,
        conditions: conditions_model(c.conditions@),
        label: opt_string_model(c.label),
        once_only: c.once_only,
        is_invisible_default: c.is_invisible_default,
        has_start_content: c.has_start_content,
        has_choice_only_content: c.has_choice_only_content,
        start_tags: dynamic_strings_model(c.start_tags@),
        choice_only_tags: dynamic_strings_model(c.choice_only_tags@),
        selected_tags: dynamic_strings_model(c.selected_tags@),
        nesting_level: c.nesting_level as nat,
    }
}

impl Model for Node {
    type M = SpecNode;

    open spec fn model(&self) -> SpecNode {
        node_model(*self)
    }
}

impl Model for Vec<Node> {
    type M = Seq<SpecNode>;

    open spec fn model(&self) -> Seq<SpecNode> {
        nodes_model(self@)
    }
}

impl Model for Sequence {
    type M = SpecSequence;

    open spec fn model(&self) -> SpecSequence {
        sequence_model(*self)
    }
}

impl Model for DynamicStringPart {
    type M = SpecDynamicStringPart;

    open spec fn model(&self) -> SpecDynamicStringPart {
        dyn_part_model(*self)
    }
}

impl Model for DynamicString {
    type M = SpecDynamicString;

    open spec fn model(&self) -> SpecDynamicString {
        dynamic_string_model(*self)
    }
}

impl Model for Vec<DynamicString> {
    type M = Seq<SpecDynamicString>;

    open spec fn model(&self) -> Seq<SpecDynamicString> {
        dynamic_strings_model(self@)
    }
}

} // verus!

verus! {

pub proof fn lemma_nodes_model_push(s: Seq<Node>, x: Node)
    ensures
        nodes_model(s.push(x)) == nodes_model(s).push(node_model(x)),
{
    assert(s.push(x).drop_last() =~= s);
}

pub proof fn lemma_nodes_model_len(s: Seq<Node>)
    ensures
        nodes_model(s).len() == s.len(),
    decreases s.len(),
{
    if s.len() > 0 {
        lemma_nodes_model_len(s.drop_last());
    }
}

pub proof fn lemma_nodes_model_concat(a: Seq<Node>, b: Seq<Node>)
    ensures
        nodes_model(a + b) == nodes_model(a) + nodes_model(b),
    decreases b.len(),
{
    if b.len() == 0 {
        assert(a + b =~= a);
        assert(nodes_model(a) + nodes_model(b) =~= nodes_model(a));
    } else {
        lemma_nodes_model_concat(a, b.drop_last());
        assert((a + b).drop_last() =~= a + b.drop_last());
        assert((a + b).last() == b.last());
        assert(nodes_model(a) + nodes_model(b) =~= (nodes_model(a) + nodes_model(b.drop_last())).push(node_model(b.last())));
    }
}

pub proof fn lemma_nodes_model_index(s: Seq<Node>, i: int)
    requires
        0 <= i < s.len(),
    ensures
        nodes_model(s)[i] == node_model(s[i]),
    decreases s.len(),
{
    lemma_nodes_model_len(s);
    if i < s.len() - 1 {
        lemma_nodes_model_index(s.drop_last(), i);
    }
}

pub proof fn lemma_dyn_parts_push(s: Seq<DynamicStringPart>, x: DynamicStringPart)
    ensures
        dyn_parts_model(s.push(x)) == dyn_parts_model(s).push(dyn_part_model(x)),
{
    assert(s.push(x).drop_last() =~= s);
}

pub proof fn lemma_dynamic_strings_push(s: Seq<DynamicString>, x: DynamicString)
    ensures
        dynamic_strings_model(s.push(x)) == dynamic_strings_model(s).push(dynamic_string_model(x)),
{
    assert(s.push(x).drop_last() =~= s);
}

pub proof fn lemma_conditions_model_push(s: Seq<Condition>, x: Condition)
    ensures
        conditions_model(s.push(x)) == conditions_model(s).push(condition_model(x)),
{
    assert(conditions_model(s.push(x)) =~= conditions_model(s).push(condition_model(x)));
}

pub proof fn lemma_strings_model_push(s: Seq<String>, x: String)
    ensures
        strings_model(s.push(x)) == strings_model(s).push(x@),
{
    assert(strings_model(s.push(x)) =~= strings_model(s).push(x@));
}

pub proof fn lemma_branches_push(s: Seq<Vec<Node>>, x: Vec<Node>)
    ensures
        branches_model(s.push(x)) == branches_model(s).push(nodes_model(x@)),
{
    assert(s.push(x).drop_last() =~= s);
}

} // verus!
