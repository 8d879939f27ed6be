//! Kinds and small records of the parsed hierarchy.
use vstd::prelude::*;
use crate::object::{ObjectKind, ParsedObjectRef};
use crate::path::ParsedPath;

verus! {

/// The kind of a parsed content node.
#[derive(PartialEq, Eq, Structural, Clone, Copy, Debug)]
pub enum ParsedNodeKind {
    Text,
    OutputExpression,
    Newline,
    Tag,
    Glue,
    Sequence,
    Divert,
    TunnelDivert,
    TunnelReturn,
    TunnelOnwardsWithTarget,
    Conditional,
    SwitchConditional,
    ThreadDivert,
    ReturnBool,
    ReturnExpression,
    ReturnVoid,
    Assignment,
    Choice,
    GatherPoint,
    GatherLabel,
    VoidCall,
    AuthorWarning,
}

/// The object kind under which a node of each kind is indexed.
pub open spec fn spec_object_kind(k: ParsedNodeKind) -> ObjectKind {
    match k {
        ParsedNodeKind::Text => ObjectKind::Text,
        ParsedNodeKind::OutputExpression => ObjectKind::Expression,
        ParsedNodeKind::Newline => ObjectKind::Text,
        ParsedNodeKind::Tag => ObjectKind::Tag,
        ParsedNodeKind::Glue => ObjectKind::Text,
        ParsedNodeKind::Sequence => ObjectKind::Sequence,
        ParsedNodeKind::Divert | ParsedNodeKind::TunnelDivert | ParsedNodeKind::ThreadDivert => ObjectKind::DivertTarget,
        ParsedNodeKind::TunnelReturn | ParsedNodeKind::TunnelOnwardsWithTarget => ObjectKind::TunnelOnwards,
        ParsedNodeKind::Conditional | ParsedNodeKind::SwitchConditional => ObjectKind::Conditional,
        ParsedNodeKind::ReturnBool | ParsedNodeKind::ReturnExpression | ParsedNodeKind::ReturnVoid => ObjectKind::Return,
        ParsedNodeKind::Assignment => ObjectKind::VariableAssignment,
        ParsedNodeKind::Choice => ObjectKind::Choice,
        ParsedNodeKind::GatherPoint | ParsedNodeKind::GatherLabel => ObjectKind::Gather,
        ParsedNodeKind::VoidCall => ObjectKind::FunctionCall,
        ParsedNodeKind::AuthorWarning => ObjectKind::AuthorWarning,
    }
}

impl ParsedNodeKind {
    pub fn object_kind(self) -> (k: ObjectKind)
        ensures
            k == spec_object_kind(self),
    {
        match self {
            ParsedNodeKind::Text => ObjectKind::Text,
            ParsedNodeKind::OutputExpression => ObjectKind::Expression,
            ParsedNodeKind::Newline => ObjectKind::Text,
            ParsedNodeKind::Tag => ObjectKind::Tag,
            ParsedNodeKind::Glue => ObjectKind::Text,
            ParsedNodeKind::Sequence => ObjectKind::Sequence,
            ParsedNodeKind::Divert | ParsedNodeKind::TunnelDivert | ParsedNodeKind::ThreadDivert => ObjectKind::DivertTarget,
            ParsedNodeKind::TunnelReturn | ParsedNodeKind::TunnelOnwardsWithTarget => ObjectKind::TunnelOnwards,
            ParsedNodeKind::Conditional | ParsedNodeKind::SwitchConditional => ObjectKind::Conditional,
            ParsedNodeKind::ReturnBool | ParsedNodeKind::ReturnExpression | ParsedNodeKind::ReturnVoid => ObjectKind::Return,
            ParsedNodeKind::Assignment => ObjectKind::VariableAssignment,
            ParsedNodeKind::Choice => ObjectKind::Choice,
            ParsedNodeKind::GatherPoint | ParsedNodeKind::GatherLabel => ObjectKind::Gather,
            ParsedNodeKind::VoidCall => ObjectKind::FunctionCall,
            ParsedNodeKind::AuthorWarning => ObjectKind::AuthorWarning,
        }
    }
}

/// The four ways of diverting.
#[derive(PartialEq, Eq, Structural, Clone, Copy, Debug)]
pub enum DivertNodeKind {
    Normal,
    Tunnel,
    TunnelOnwards,
    Thread,
}

impl DivertNodeKind {
    /// The node kind a divert of this kind is parsed as.
    pub fn parsed_kind(self) -> (k: ParsedNodeKind)
        ensures
            k == (match self {
                DivertNodeKind::Normal => ParsedNodeKind::Divert,
                DivertNodeKind::Tunnel => ParsedNodeKind::TunnelDivert,
                DivertNodeKind::TunnelOnwards => ParsedNodeKind::TunnelOnwardsWithTarget,
                DivertNodeKind::Thread => ParsedNodeKind::ThreadDivert,
            }),
    {
        match self {
            DivertNodeKind::Normal => ParsedNodeKind::Divert,
            DivertNodeKind::Tunnel => ParsedNodeKind::TunnelDivert,
            DivertNodeKind::TunnelOnwards => ParsedNodeKind::TunnelOnwardsWithTarget,
            DivertNodeKind::Thread => ParsedNodeKind::ThreadDivert,
        }
    }
}

#[derive(PartialEq, Eq, Structural, Clone, Copy, Debug)]
pub enum ParsedAssignmentMode {
    Assign,
    GlobalDecl,
    TempSet,
    AddAssign,
    SubtractAssign,
}

/// The nesting level of a flow.
#[derive(PartialEq, Eq, Structural, Clone, Copy, Debug)]
pub enum FlowLevel {
    Story,
    Knot,
    Stitch,
    WeavePoint,
}

/// A parameter of a knot, stitch or function.
#[derive(Debug, PartialEq)]
pub struct FlowArgument {
    pub identifier: String,
    pub is_by_reference: bool,
    pub is_divert_target: bool,
}

/// The declaration of a flow: its name, parameters and whether it is a
/// function.
#[derive(Debug, PartialEq)]
pub struct FlowDecl {
    pub name: String,
    pub arguments: Vec<FlowArgument>,
    pub is_function: bool,
}

/// Where in the source a runtime object comes from.
#[derive(Debug, PartialEq)]
pub struct DebugMetadata {
    pub start_line_number: usize,
    pub end_line_number: usize,
    pub start_character_number: usize,
    pub end_character_number: usize,
    pub file_name: Option<String>,
}

/// The kinds of sequence, each a bit of the runtime's sequence mask.
#[derive(PartialEq, Eq, Structural, Clone, Copy, Debug)]
pub enum SequenceType {
    Stopping,
    Cycle,
    Shuffle,
    Once,
}

impl SequenceType {
    /// The bit this kind sets in a sequence mask.
    pub fn mask(self) -> (m: u8)
        ensures
            m == (match self {
                SequenceType::Stopping => 1u8,
                SequenceType::Cycle => 2u8,
                SequenceType::Shuffle => 4u8,
                SequenceType::Once => 8u8,
            }),
    {
        match self {
            SequenceType::Stopping => 1,
            SequenceType::Cycle => 2,
            SequenceType::Shuffle => 4,
            SequenceType::Once => 8,
        }
    }
}

/// The divert hidden inside a function call: the path of the called flow
/// and, once resolved, the flow it names.
#[derive(Debug)]
pub struct FunctionCallProxyDivert {
    path: ParsedPath,
    resolved_target: Option<ParsedObjectRef>,
}

impl FunctionCallProxyDivert {
    pub closed spec fn spec_path(&self) -> &ParsedPath {
        &self.path
    }

    pub closed spec fn spec_resolved_target(&self) -> Option<ParsedObjectRef> {
        self.resolved_target
    }

    /// An unresolved proxy for a call of `path`.
    pub fn new(path: ParsedPath) -> (d: FunctionCallProxyDivert)
        ensures
            *d.spec_path() == path,
            d.spec_resolved_target() is None,
    {
        FunctionCallProxyDivert { path, resolved_target: None }
    }

    pub fn path(&self) -> (p: &ParsedPath)
        ensures
            *p == *self.spec_path(),
    {
        &self.path
    }

    /// The called name, as dotted text.
    pub fn name(&self) -> (n: &str)
        ensures
            n@ == self.spec_path().spec_dotted(),
    {
        self.path.as_str()
    }

    pub fn resolved_target(&self) -> (r: Option<ParsedObjectRef>)
        ensures
            r == self.spec_resolved_target(),
    {
        self.resolved_target
    }

    /// Records the flow that the story found under this name, if any.
    pub fn resolve_targets_with(&mut self, found: Option<ParsedObjectRef>)
        ensures
            final(self).spec_resolved_target() == found,
            *final(self).spec_path() == *old(self).spec_path(),
    {
        self.resolved_target = found;
    }

    /// The call goes through a variable when no flow was found by name.
    pub fn resolves_variable_target(&self) -> (r: bool)
        ensures
            r == (self.spec_resolved_target() is None),
    {
        self.resolved_target.is_none()
    }
}

} // verus!
