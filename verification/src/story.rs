//! The whole story: knots, functions and stitches with their content, the
//! top-level content, and the declarations.
use vstd::prelude::*;
use crate::ast::{
    agrees, expr_model, lemma_nodes_model_concat, nodes_model, strings_model, Expression,
    GlobalVariable, ListDeclaration, Model, Node, SpecExpression, SpecGlobal, SpecListDeclaration,
    SpecNode,
};
use crate::blocks::spec_statement;
use crate::error::{CompilerError, ErrorKind};
use crate::header::{parse_header_chars, spec_parse_header, Header, SpecHeader, SpecSignature};
use crate::lines::{lines_model, spec_indents_fit, spec_split_lines, split_line_chars, SpecLine};
use crate::statement::{parse_statement, ParsedStatement, SpecStatement};
use crate::text::{chars_eq, chars_of, string_of};

verus! {

/// A knot, function or stitch: its name and parameters, its own content and
/// (for a knot) its stitches.
#[derive(Debug, PartialEq)]
pub struct Flow {
    pub name: String,
    pub is_function: bool,
    pub parameters: Vec<String>,
    pub ref_parameters: Vec<String>,
    pub divert_parameters: Vec<String>,
    pub nodes: Vec<Node>,
    pub children: Vec<Flow>,
}

/// A parsed story: global variables, top-level content, flows, list
/// declarations, external functions and constants (each name once).
#[derive(Debug, PartialEq)]
pub struct ParsedStory {
    pub globals: Vec<GlobalVariable>,
    pub root: Vec<Node>,
    pub flows: Vec<Flow>,
    pub list_declarations: Vec<ListDeclaration>,
    pub external_functions: Vec<String>,
    pub consts: Vec<(String, Expression)>,
}

/// A flow as the contracts see it.
pub struct SpecFlow {
    pub name: Seq<char>,
    pub is_function: bool,
    pub parameters: Seq<Seq<char>>,
    pub ref_parameters: Seq<Seq<char>>,
    pub divert_parameters: Seq<Seq<char>>,
    pub nodes: Seq<SpecNode>,
    pub children: Seq<SpecFlow>,
}

/// A story as the contracts see it.
pub struct SpecStory {
    pub globals: Seq<SpecGlobal>,
    pub root: Seq<SpecNode>,
    pub flows: Seq<SpecFlow>,
    pub list_declarations: Seq<SpecListDeclaration>,
    pub external_functions: Seq<Seq<char>>,
    pub consts: Seq<(Seq<char>, SpecExpression)>,
}

pub open spec fn flow_model(f: Flow) -> SpecFlow
    decreases f,
{
    SpecFlow {
        name: f.name@,
        is_function: f.is_function,
        parameters: strings_model(f.parameters@),
        ref_parameters: strings_model(f.ref_parameters@),
        divert_parameters: strings_model(f.divert_parameters@),
        nodes: nodes_model(f.nodes@),
        children: flows_model(f.children@),
    }
}

pub open spec fn flows_model(s: Seq<Flow>) -> Seq<SpecFlow>
    decreases s,
{
    if s.len() == 0 {
        Seq::empty()
    } else {
        flows_model(s.drop_last()).push(flow_model(s.last()))
    }
}

pub open spec fn globals_model(s: Seq<GlobalVariable>) -> Seq<SpecGlobal> {
    s.map_values(|g: GlobalVariable| g.model())
}

pub open spec fn lists_model(s: Seq<ListDeclaration>) -> Seq<SpecListDeclaration> {
    s.map_values(|d: ListDeclaration| d.model())
}

pub open spec fn consts_model(s: Seq<(String, Expression)>) -> Seq<(Seq<char>, SpecExpression)> {
    s.map_values(|c: (String, Expression)| (c.0@, expr_model(c.1)))
}

impl Model for Flow {
    type M = SpecFlow;

    open spec fn model(&self) -> SpecFlow {
        flow_model(*self)
    }
}

impl Model for ParsedStory {
    type M = SpecStory;

    open spec fn model(&self) -> SpecStory {
        SpecStory {
            globals: globals_model(self.globals@),
            root: nodes_model(self.root@),
            flows: flows_model(self.flows@),
            list_declarations: lists_model(self.list_declarations@),
            external_functions: strings_model(self.external_functions@),
            consts: consts_model(self.consts@),
        }
    }
}

proof fn lemma_flows_push(s: Seq<Flow>, f: Flow)
    ensures
        flows_model(s.push(f)) == flows_model(s).push(flow_model(f)),
{
    assert(s.push(f).drop_last() =~= s);
}

/// The first index from `i` on holding the constant `name`.
pub open spec fn spec_const_index(c: Seq<(Seq<char>, SpecExpression)>, name: Seq<char>, i: int) -> Option<int>
    decreases c.len() - i,
{
    if !(0 <= i < c.len()) {
        None
    } else if c[i].0 == name {
        Some(i)
    } else {
        spec_const_index(c, name, i + 1)
    }
}

/// Constant `name` set to `v`: its entry replaced, or a new one at the end.
pub open spec fn spec_set_const(c: Seq<(Seq<char>, SpecExpression)>, name: Seq<char>, v: SpecExpression) -> Seq<(Seq<char>, SpecExpression)> {
    match spec_const_index(c, name, 0) {
        Some(k) => c.update(k, (name, v)),
        None => c.push((name, v)),
    }
}

proof fn lemma_const_index_update(c: Seq<(Seq<char>, SpecExpression)>, n: Seq<char>, i: int, k: int, v: SpecExpression)
    requires
        0 <= i,
        spec_const_index(c, n, i) == Some(k),
    ensures
        spec_const_index(c.update(k, (n, v)), n, i) == Some(k),
    decreases c.len() - i,
{
    lemma_const_index_bounds(c, n, i);
    if i < c.len() && c[i].0 != n {
        lemma_const_index_update(c, n, i + 1, k, v);
    }
}

proof fn lemma_const_index_push(c: Seq<(Seq<char>, SpecExpression)>, n: Seq<char>, i: int, v: SpecExpression)
    requires
        0 <= i <= c.len(),
        spec_const_index(c, n, i) is None,
    ensures
        spec_const_index(c.push((n, v)), n, i) == Some(c.len() as int),
    decreases c.len() - i,
{
    if i < c.len() {
        lemma_const_index_push(c, n, i + 1, v);
    }
}

/// A constant set to a value reads back that value.
pub proof fn law_const_set_then_get(c: Seq<(Seq<char>, SpecExpression)>, n: Seq<char>, v: SpecExpression)
    ensures
        spec_const_index(spec_set_const(c, n, v), n, 0) matches Some(k) && spec_set_const(c, n, v)[k] == (n, v),
{
    match spec_const_index(c, n, 0) {
        Some(k) => {
            lemma_const_index_update(c, n, 0, k, v);
            lemma_const_index_bounds(c, n, 0);
        },
        None => {
            lemma_const_index_push(c, n, 0, v);
        },
    }
}

proof fn lemma_const_index_bounds(c: Seq<(Seq<char>, SpecExpression)>, n: Seq<char>, i: int)
    ensures
        spec_const_index(c, n, i) matches Some(k) ==> i <= k < c.len() && c[k].0 == n,
    decreases c.len() - i,
{
    if 0 <= i < c.len() && c[i].0 != n {
        lemma_const_index_bounds(c, n, i + 1);
    }
}

/// Setting a constant twice is setting it once to the second value: it
/// keeps one entry, in the place of the first.
pub proof fn law_const_set_twice(c: Seq<(Seq<char>, SpecExpression)>, n: Seq<char>, v1: SpecExpression, v2: SpecExpression)
    ensures
        spec_set_const(spec_set_const(c, n, v1), n, v2) == spec_set_const(c, n, v2),
{
    match spec_const_index(c, n, 0) {
        Some(k) => {
            lemma_const_index_bounds(c, n, 0);
            lemma_const_index_update(c, n, 0, k, v1);
            assert(c.update(k, (n, v1)).update(k, (n, v2)) =~= c.update(k, (n, v2)));
        },
        None => {
            lemma_const_index_push(c, n, 0, v1);
            assert(c.push((n, v1)).update(c.len() as int, (n, v2)) =~= c.push((n, v2)));
        },
    }
}

/// No constant name occurs twice.
pub open spec fn consts_unique(c: Seq<(String, Expression)>) -> bool {
    forall|i: int, j: int| 0 <= i < j < c.len() ==> #[trigger] c[i].0@ != #[trigger] c[j].0@
}

impl ParsedStory {
    /// A story with the given globals, top-level content and flows, and no
    /// other declarations.
    pub fn new(globals: Vec<GlobalVariable>, root: Vec<Node>, flows: Vec<Flow>) -> (s: ParsedStory)
        ensures
            s.globals@ == globals@,
            s.root@ == root@,
            s.flows@ == flows@,
            s.list_declarations@.len() == 0,
            s.external_functions@.len() == 0,
            s.consts@.len() == 0,
    {
        ParsedStory {
            globals,
            root,
            flows,
            list_declarations: Vec::new(),
            external_functions: Vec::new(),
            consts: Vec::new(),
        }
    }
}

/// Sets the constant `name` to `value`: its earlier value is replaced, or it
/// is added at the end.
pub fn set_const(consts: &mut Vec<(String, Expression)>, name: String, value: Expression)
    requires
        consts_unique(old(consts)@),
    ensures
        consts_unique(final(consts)@),
        consts_model(final(consts)@) == spec_set_const(consts_model(old(consts)@), name@, expr_model(value)),
        exists|i: int| 0 <= i < final(consts)@.len() && #[trigger] final(consts)@[i].0@ == name@ && final(consts)@[i].1 == value,
        forall|i: int| 0 <= i < old(consts)@.len() && old(consts)@[i].0@ != name@ ==> #[trigger] final(consts)@[i] == old(consts)@[i],
        final(consts)@.len() == old(consts)@.len() || final(consts)@.len() == old(consts)@.len() + 1,
        forall|i: int| 0 <= i < final(consts)@.len() ==> #[trigger] final(consts)@[i].0@ == name@ || (exists|j: int| 0 <= j < old(consts)@.len() && final(consts)@[i] == #[trigger] old(consts)@[j]),
{
    let key = chars_of(&name);
    let ghost cm = consts_model(consts@);
    let ghost nm = name@;
    let ghost vm = expr_model(value);
    let mut i: usize = 0;
    while i < consts.len()
        invariant
            i <= consts.len(),
            key@ == name@,
            nm == name@,
            vm == expr_model(value),
            cm == consts_model(old(consts)@),
            spec_const_index(cm, nm, i as int) == spec_const_index(cm, nm, 0),
            consts@ == old(consts)@,
            consts_unique(consts@),
            forall|j: int| 0 <= j < i ==> #[trigger] consts@[j].0@ != name@,
        decreases consts.len() - i,
    {
        if chars_eq(&chars_of(&consts[i].0), &key) {
            let ghost before = consts@;
            assert(before[i as int].0@ == name@);
            let entry = (name, value);
            consts.set(i, entry);
            proof {
                assert(consts@ == before.update(i as int, entry));
                assert forall|a: int, b: int| 0 <= a < b < consts@.len() implies #[trigger] consts@[a].0@ != #[trigger] consts@[b].0@ by {
                    if a == i {
                        assert(before[a].0@ != before[b].0@);
                        assert(consts@[b] == before[b]);
                    } else if b == i {
                        assert(before[a].0@ != name@);
                        assert(consts@[a] == before[a]);
                    } else {
                        assert(before[a].0@ != before[b].0@);
                        assert(consts@[a] == before[a]);
                        assert(consts@[b] == before[b]);
                    }
                }
                assert forall|t: int| 0 <= t < consts@.len() implies #[trigger] consts@[t].0@ == name@ || (exists|j: int| 0 <= j < before.len() && consts@[t] == #[trigger] before[j]) by {
                    if t != i {
                        assert(consts@[t] == before[t]);
                    }
                }
                assert(consts@[i as int].0@ == name@ && consts@[i as int].1 == value);
                assert(consts_model(consts@) =~= cm.update(i as int, (nm, vm)));
            }
            return;
        }
        i = i + 1;
    }
    let ghost before = consts@;
    let entry = (name, value);
    consts.push(entry);
    proof {
        assert(consts_model(consts@) =~= cm.push((nm, vm)));
        assert(consts@[before.len() as int] == entry);
        assert(consts@[before.len() as int].0@ == name@ && consts@[before.len() as int].1 == value);
        assert forall|t: int| 0 <= t < consts@.len() implies #[trigger] consts@[t].0@ == name@ || (exists|j: int| 0 <= j < before.len() && consts@[t] == #[trigger] before[j]) by {
            if t < before.len() {
                assert(consts@[t] == before[t]);
            }
        }
    }
}

/// A flow whose lines are still being read.
struct FlowBuilder {
    name: String,
    is_function: bool,
    is_root_stitch: bool,
    parameters: Vec<String>,
    ref_parameters: Vec<String>,
    divert_parameters: Vec<String>,
    nodes: Vec<Node>,
    children: Vec<Flow>,
}

/// A flow whose lines are still being read, as the contracts see it.
pub struct SpecBuilder {
    pub name: Seq<char>,
    pub is_function: bool,
    pub is_root_stitch: bool,
    pub parameters: Seq<Seq<char>>,
    pub ref_parameters: Seq<Seq<char>>,
    pub divert_parameters: Seq<Seq<char>>,
    pub nodes: Seq<SpecNode>,
    pub children: Seq<SpecFlow>,
}

spec fn builder_model(b: FlowBuilder) -> SpecBuilder {
    SpecBuilder {
        name: b.name@,
        is_function: b.is_function,
        is_root_stitch: b.is_root_stitch,
        parameters: strings_model(b.parameters@),
        ref_parameters: strings_model(b.ref_parameters@),
        divert_parameters: strings_model(b.divert_parameters@),
        nodes: nodes_model(b.nodes@),
        children: flows_model(b.children@),
    }
}

spec fn opt_builder_model(b: Option<FlowBuilder>) -> Option<SpecBuilder> {
    match b {
        Some(x) => Some(builder_model(x)),
        None => None,
    }
}

/// The flow a builder closes into.
pub open spec fn spec_build(b: SpecBuilder) -> SpecFlow {
    SpecFlow {
        name: b.name,
        is_function: b.is_function,
        parameters: b.parameters,
        ref_parameters: b.ref_parameters,
        divert_parameters: b.divert_parameters,
        nodes: b.nodes,
        children: b.children,
    }
}

/// A flow opened by a header, with nothing read into it yet.
pub open spec fn spec_new_flow(sig: SpecSignature, is_function: bool, is_root_stitch: bool) -> SpecBuilder {
    SpecBuilder {
        name: sig.name,
        is_function,
        is_root_stitch,
        parameters: sig.parameters,
        ref_parameters: sig.ref_parameters,
        divert_parameters: sig.divert_parameters,
        nodes: Seq::empty(),
        children: Seq::empty(),
    }
}

/// The flow being read once the stitch being read is closed into it; a
/// stitch without a flow is an error.
pub open spec fn spec_finalize(flow: Option<SpecBuilder>, stitch: Option<SpecBuilder>) -> Result<Option<SpecBuilder>, ErrorKind> {
    match stitch {
        None => Ok(flow),
        Some(st) => match flow {
            None => Err(ErrorKind::InvalidSource),
            Some(f) => Ok(Some(SpecBuilder { children: f.children.push(spec_build(st)), ..f })),
        },
    }
}

/// The flows once `f`, if any, is closed and added.
pub open spec fn spec_close(flows: Seq<SpecFlow>, f: Option<SpecBuilder>) -> Seq<SpecFlow> {
    match f {
        Some(b) => flows.push(spec_build(b)),
        None => flows,
    }
}

/// What has been read of a story so far.
pub struct SpecReadState {
    pub globals: Seq<SpecGlobal>,
    pub lists: Seq<SpecListDeclaration>,
    pub externals: Seq<Seq<char>>,
    pub consts: Seq<(Seq<char>, SpecExpression)>,
    pub root: Seq<SpecNode>,
    pub flows: Seq<SpecFlow>,
    pub flow: Option<SpecBuilder>,
    pub stitch: Option<SpecBuilder>,
}

pub open spec fn spec_initial_state() -> SpecReadState {
    SpecReadState {
        globals: Seq::empty(),
        lists: Seq::empty(),
        externals: Seq::empty(),
        consts: Seq::empty(),
        root: Seq::empty(),
        flows: Seq::empty(),
        flow: None,
        stitch: None,
    }
}

/// A header line: a knot or function closes the flow being read and opens
/// its own; a stitch opens inside the flow being read, or is a flow of its
/// own before any knot or after a top-level stitch.  `f` is the flow being
/// read with its stitch closed into it; the result is the flows, the flow
/// being read and the stitch being read.
pub open spec fn spec_header_flows(flows: Seq<SpecFlow>, f: Option<SpecBuilder>, h: SpecHeader) -> (Seq<SpecFlow>, Option<SpecBuilder>, Option<SpecBuilder>) {
    match h {
        SpecHeader::Knot(sig) => (spec_close(flows, f), Some(spec_new_flow(sig, false, false)), None),
        SpecHeader::Function(sig) => (spec_close(flows, f), Some(spec_new_flow(sig, true, false)), None),
        SpecHeader::Stitch(sig) => if f is None || f->Some_0.is_root_stitch {
            (spec_close(flows, f), Some(spec_new_flow(sig, false, true)), None)
        } else {
            (flows, f, Some(spec_new_flow(sig, false, false)))
        },
    }
}

pub open spec fn spec_apply_header(st: SpecReadState, f: Option<SpecBuilder>, h: SpecHeader) -> SpecReadState {
    let (flows, flow, stitch) = spec_header_flows(st.flows, f, h);
    SpecReadState { flows, flow, stitch, ..st }
}

/// Nodes go to the stitch being read, else the flow, else the top level.
pub open spec fn spec_append_to(root: Seq<SpecNode>, flow: Option<SpecBuilder>, stitch: Option<SpecBuilder>, ns: Seq<SpecNode>) -> (Seq<SpecNode>, Option<SpecBuilder>, Option<SpecBuilder>) {
    match stitch {
        Some(s) => (root, flow, Some(SpecBuilder { nodes: s.nodes + ns, ..s })),
        None => match flow {
            Some(f) => (root, Some(SpecBuilder { nodes: f.nodes + ns, ..f }), None),
            None => (root + ns, None, None),
        },
    }
}

/// A statement read into the story: declarations are collected (a constant
/// set again takes its new value), nodes are appended.
pub open spec fn spec_apply_statement(st: SpecReadState, s: SpecStatement) -> SpecReadState {
    match s {
        SpecStatement::Global(g) => SpecReadState { globals: st.globals.push(g), ..st },
        SpecStatement::Const(g) => SpecReadState { consts: spec_set_const(st.consts, g.name, g.initial_value), ..st },
        SpecStatement::List(d) => SpecReadState { lists: st.lists.push(d), ..st },
        SpecStatement::ExternalFunction(n) => SpecReadState { externals: st.externals.push(n), ..st },
        SpecStatement::Nodes(ns) => {
            let (root, flow, stitch) = spec_append_to(st.root, st.flow, st.stitch, ns);
            SpecReadState { root, flow, stitch, ..st }
        },
    }
}

/// The story read from line `j` on, with `st` read before it.
pub open spec fn spec_story_from(ls: Seq<SpecLine>, j: int, st: SpecReadState) -> Result<SpecStory, ErrorKind>
    decreases ls.len() - j,
{
    if !(0 <= j < ls.len()) {
        match spec_finalize(st.flow, st.stitch) {
            Err(k) => Err(k),
            Ok(f) => Ok(SpecStory {
                globals: st.globals,
                root: st.root,
                flows: spec_close(st.flows, f),
                list_declarations: st.lists,
                external_functions: st.externals,
                consts: st.consts,
            }),
        }
    } else {
        match spec_parse_header(ls[j].content) {
            Some(h) => match spec_finalize(st.flow, st.stitch) {
                Err(k) => Err(k),
                Ok(f) => spec_story_from(ls, j + 1, spec_apply_header(st, f, h)),
            },
            None => match spec_statement(ls, j, false) {
                Err(k) => Err(k),
                Ok((s, j2)) => if j < j2 <= ls.len() {
                    spec_story_from(ls, j2, spec_apply_statement(st, s))
                } else {
                    Err(ErrorKind::InvalidSource)
                },
            },
        }
    }
}

/// The story an ink source holds; an empty source is an error.
pub open spec fn spec_parse_story(src: Seq<char>) -> Result<SpecStory, ErrorKind> {
    if src.len() == 0 {
        Err(ErrorKind::InvalidSource)
    } else {
        let ls = spec_split_lines(spec_normalize_newlines(src));
        if ls.len() == 0 {
            Err(ErrorKind::InvalidSource)
        } else {
            spec_story_from(ls, 0, spec_initial_state())
        }
    }
}

/// Reading from line `j` on, with no flow open and none closed, lines none
/// of which is a header: the story has no flows, all its content is top
/// level.
pub proof fn law_no_headers_no_flows(ls: Seq<SpecLine>, j: int, st: SpecReadState)
    requires
        0 <= j,
        forall|k: int| 0 <= k < ls.len() ==> spec_parse_header(#[trigger] ls[k].content) is None,
        st.flow is None,
        st.stitch is None,
        st.flows.len() == 0,
    ensures
        spec_story_from(ls, j, st) matches Ok(story) ==> story.flows.len() == 0,
    decreases ls.len() - j,
{
    if j < ls.len() {
        assert(spec_parse_header(ls[j].content) is None);
        if let Ok((s, j2)) = spec_statement(ls, j, false) {
            if j < j2 <= ls.len() {
                law_no_headers_no_flows(ls, j2, spec_apply_statement(st, s));
            }
        }
    }
}

/// A source none of whose lines is a header holds no flows.
pub proof fn law_headerless_source_is_all_top_level(src: Seq<char>)
    requires
        forall|k: int| 0 <= k < spec_split_lines(spec_normalize_newlines(src)).len()
            ==> spec_parse_header(#[trigger] spec_split_lines(spec_normalize_newlines(src))[k].content) is None,
    ensures
        spec_parse_story(src) matches Ok(story) ==> story.flows.len() == 0,
{
    law_no_headers_no_flows(spec_split_lines(spec_normalize_newlines(src)), 0, spec_initial_state());
}

/// No `\r` directly before a `\n` in `s`.
pub open spec fn no_crlf(s: Seq<char>) -> bool {
    forall|k: int| 0 <= k < s.len() - 1 ==> !(#[trigger] s[k] == '\r' && s[k + 1] == '\n')
}

proof fn lemma_normalize_without_crlf(s: Seq<char>)
    requires
        no_crlf(s),
    ensures
        spec_normalize_newlines(s) == s,
    decreases s.len(),
{
    if s.len() > 0 {
        assert(!(s.len() >= 2 && s[0] == '\r' && s[1] == '\n'));
        let t = s.skip(1);
        assert forall|k: int| 0 <= k < t.len() - 1 implies !(#[trigger] t[k] == '\r' && t[k + 1] == '\n') by {
            assert(t[k] == s[k + 1] && t[k + 1] == s[k + 2]);
        }
        lemma_normalize_without_crlf(t);
        assert(seq![s[0]] + t =~= s);
    }
}

proof fn lemma_normalize_nonempty(s: Seq<char>)
    ensures
        (spec_normalize_newlines(s).len() == 0) == (s.len() == 0),
    decreases s.len(),
{
}

/// Parsing a source gives what parsing it with each `\r\n` replaced by
/// `\n` gives, when that replacement leaves no `\r\n` behind.
pub proof fn law_parse_ignores_crlf(src: Seq<char>)
    requires
        no_crlf(spec_normalize_newlines(src)),
    ensures
        spec_parse_story(src) == spec_parse_story(spec_normalize_newlines(src)),
{
    let n = spec_normalize_newlines(src);
    lemma_normalize_without_crlf(n);
    lemma_normalize_nonempty(src);
}

impl FlowBuilder {
    fn new(name: String, is_function: bool, is_root_stitch: bool, parameters: Vec<String>, ref_parameters: Vec<String>, divert_parameters: Vec<String>) -> (b: FlowBuilder)
        ensures
            builder_model(b) == (SpecBuilder {
                name: name@,
                is_function,
                is_root_stitch,
                parameters: strings_model(parameters@),
                ref_parameters: strings_model(ref_parameters@),
                divert_parameters: strings_model(divert_parameters@),
                nodes: Seq::empty(),
                children: Seq::empty(),
            }),
    {
        let b = FlowBuilder {
            name,
            is_function,
            is_root_stitch,
            parameters,
            ref_parameters,
            divert_parameters,
            nodes: Vec::new(),
            children: Vec::new(),
        };
        assert(nodes_model(b.nodes@) =~= Seq::<SpecNode>::empty());
        assert(flows_model(b.children@) =~= Seq::<SpecFlow>::empty());
        b
    }

    fn build(self) -> (f: Flow)
        ensures
            flow_model(f) == spec_build(builder_model(self)),
    {
        Flow {
            name: self.name,
            is_function: self.is_function,
            parameters: self.parameters,
            ref_parameters: self.ref_parameters,
            divert_parameters: self.divert_parameters,
            nodes: self.nodes,
            children: self.children,
        }
    }
}

/// Closes the stitch being read, adding it to its knot; a stitch without a
/// knot is an error.
fn finalize_stitch(current_flow: Option<FlowBuilder>, current_stitch: Option<FlowBuilder>) -> (r: Result<Option<FlowBuilder>, CompilerError>)
    ensures
        match (r, spec_finalize(opt_builder_model(current_flow), opt_builder_model(current_stitch))) {
            (Ok(f), Ok(sf)) => opt_builder_model(f) == sf,
            (Err(e), Err(k)) => e.kind == k,
            _ => false,
        },
{
    match current_stitch {
        None => Ok(current_flow),
        Some(stitch) => match current_flow {
            None => Err(CompilerError::invalid_source("stitch declared without enclosing knot".to_owned())),
            Some(mut flow) => {
                let ghost c0 = flow.children@;
                let built = stitch.build();
                flow.children.push(built);
                proof {
                    lemma_flows_push(c0, built);
                }
                Ok(Some(flow))
            },
        },
    }
}

/// Adds nodes to the content being read: the stitch's, else the flow's,
/// else the top level's.
fn append_to_target(root: &mut Vec<Node>, current_flow: &mut Option<FlowBuilder>, current_stitch: &mut Option<FlowBuilder>, nodes: Vec<Node>)
    ensures
        (nodes_model(final(root)@), opt_builder_model(*final(current_flow)), opt_builder_model(*final(current_stitch)))
            == spec_append_to(nodes_model(old(root)@), opt_builder_model(*old(current_flow)), opt_builder_model(*old(current_stitch)), nodes_model(nodes@)),
{
    let ghost ns = nodes@;
    let mut nodes = nodes;
    match current_stitch {
        Some(stitch) => {
            let ghost before = stitch.nodes@;
            stitch.nodes.append(&mut nodes);
            proof {
                lemma_nodes_model_concat(before, ns);
            }
        },
        None => match current_flow {
            Some(flow) => {
                let ghost before = flow.nodes@;
                flow.nodes.append(&mut nodes);
                proof {
                    lemma_nodes_model_concat(before, ns);
                }
            },
            None => {
                let ghost before = root@;
                root.append(&mut nodes);
                proof {
                    lemma_nodes_model_concat(before, ns);
                }
            },
        },
    }
}

/// Reads a header line: closes the stitch being read and, as the header
/// says, the flow being read, and opens the header's flow or stitch.
fn read_header(flows: &mut Vec<Flow>, current_flow: &mut Option<FlowBuilder>, current_stitch: &mut Option<FlowBuilder>, header: Header) -> (r: Result<(), CompilerError>)
    ensures
        match (r, spec_finalize(opt_builder_model(*old(current_flow)), opt_builder_model(*old(current_stitch)))) {
            (Ok(_), Ok(f)) => (flows_model(final(flows)@), opt_builder_model(*final(current_flow)), opt_builder_model(*final(current_stitch)))
                == spec_header_flows(flows_model(old(flows)@), f, header.model()),
            (Err(e), Err(k)) => e.kind == k,
            _ => false,
        },
{
    let cf = current_flow.take();
    let cs = current_stitch.take();
    let flow = match finalize_stitch(cf, cs) {
        Err(e) => return Err(e),
        Ok(f) => f,
    };
    let ghost f0 = flows@;
    match header {
        Header::Knot { name, parameters, ref_parameters, divert_parameters } => {
            if let Some(f) = flow {
                let built = f.build();
                flows.push(built);
                proof {
                    lemma_flows_push(f0, built);
                }
            }
            *current_flow = Some(FlowBuilder::new(name, false, false, parameters, ref_parameters, divert_parameters));
        },
        Header::Function { name, parameters, ref_parameters, divert_parameters } => {
            if let Some(f) = flow {
                let built = f.build();
                flows.push(built);
                proof {
                    lemma_flows_push(f0, built);
                }
            }
            *current_flow = Some(FlowBuilder::new(name, true, false, parameters, ref_parameters, divert_parameters));
        },
        Header::Stitch { name, parameters, ref_parameters, divert_parameters } => {
            let parent_is_root_stitch = match &flow {
                Some(f) => f.is_root_stitch,
                None => false,
            };
            if flow.is_none() || parent_is_root_stitch {
                if let Some(f) = flow {
                    let built = f.build();
                    flows.push(built);
                    proof {
                        lemma_flows_push(f0, built);
                    }
                }
                *current_flow = Some(FlowBuilder::new(name, false, true, parameters, ref_parameters, divert_parameters));
            } else {
                *current_flow = flow;
                *current_stitch = Some(FlowBuilder::new(name, false, false, parameters, ref_parameters, divert_parameters));
            }
        },
    }
    Ok(())
}

/// Reads a statement into the story: a declaration is collected (a
/// constant set again takes its new value), nodes are appended.
fn read_statement(globals: &mut Vec<GlobalVariable>, list_declarations: &mut Vec<ListDeclaration>, external_functions: &mut Vec<String>, consts: &mut Vec<(String, Expression)>, root: &mut Vec<Node>, current_flow: &mut Option<FlowBuilder>, current_stitch: &mut Option<FlowBuilder>, flows: Ghost<Seq<Flow>>, statement: ParsedStatement)
    requires
        consts_unique(old(consts)@),
    ensures
        consts_unique(final(consts)@),
        read_state(final(globals)@, final(list_declarations)@, final(external_functions)@, final(consts)@, final(root)@, flows@, *final(current_flow), *final(current_stitch))
            == spec_apply_statement(read_state(old(globals)@, old(list_declarations)@, old(external_functions)@, old(consts)@, old(root)@, flows@, *old(current_flow), *old(current_stitch)), statement.model()),
{
    match statement {
        ParsedStatement::Global(g) => {
            let ghost g0 = globals@;
            globals.push(g);
            assert(globals_model(globals@) =~= globals_model(g0).push(g.model()));
        },
        ParsedStatement::Const(c) => {
            set_const(consts, c.name, c.initial_value);
        },
        ParsedStatement::List(d) => {
            let ghost d0 = list_declarations@;
            list_declarations.push(d);
            assert(lists_model(list_declarations@) =~= lists_model(d0).push(d.model()));
        },
        ParsedStatement::ExternalFunction(name) => {
            let ghost e0 = external_functions@;
            external_functions.push(name);
            proof {
                crate::ast::lemma_strings_model_push(e0, name);
            }
        },
        ParsedStatement::Nodes(ns) => append_to_target(root, current_flow, current_stitch, ns),
    }
}

/// Replaces `\r\n` by `\n`.
pub open spec fn spec_normalize_newlines(s: Seq<char>) -> Seq<char>
    decreases s.len(),
{
    if s.len() == 0 {
        s
    } else if s.len() >= 2 && s[0] == '\r' && s[1] == '\n' {
        seq!['\n'] + spec_normalize_newlines(s.skip(2))
    } else {
        seq![s[0]] + spec_normalize_newlines(s.skip(1))
    }
}

fn normalize_newlines(s: &[char]) -> (r: Vec<char>)
    ensures
        r@ == spec_normalize_newlines(s@),
        r@.len() <= s@.len(),
{
    let mut r: Vec<char> = Vec::new();
    let mut i: usize = 0;
    assert(s@.skip(0) =~= s@);
    while i < s.len()
        invariant
            i <= s.len(),
            r@ + spec_normalize_newlines(s@.skip(i as int)) == spec_normalize_newlines(s@),
            r@.len() <= i,
        decreases s.len() - i,
    {
        let ghost rb = r@;
        if i + 1 < s.len() && s[i] == '\r' && s[i + 1] == '\n' {
            r.push('\n');
            assert(s@.skip(i as int).skip(2) =~= s@.skip(i + 2));
            assert(rb + (seq!['\n'] + spec_normalize_newlines(s@.skip(i + 2))) =~= r@ + spec_normalize_newlines(s@.skip(i + 2)));
            i = i + 2;
        } else {
            r.push(s[i]);
            assert(s@.skip(i as int).skip(1) =~= s@.skip(i + 1));
            assert(rb + (seq![s@[i as int]] + spec_normalize_newlines(s@.skip(i + 1))) =~= r@ + spec_normalize_newlines(s@.skip(i + 1)));
            i = i + 1;
        }
    }
    assert(s@.skip(i as int) =~= Seq::<char>::empty());
    assert(r@ + Seq::<char>::empty() =~= r@);
    r
}

/// A parser for one ink source text.
pub struct Parser {
    source: String,
}

impl Parser {
    pub closed spec fn source(self) -> Seq<char> {
        self.source@
    }

    /// A parser for `source`.
    pub fn new(source: &str) -> (p: Parser)
        ensures
            p.source() == source@,
    {
        Parser { source: string_of(&chars_of(source)) }
    }

    /// Parses the whole source: header lines open knots, functions and
    /// stitches (a stitch before any knot, or after a top-level stitch, is
    /// a flow of its own); every other statement adds to the content being
    /// read or declares.  An empty source is an error.
    #[verifier::rlimit(50)]
    pub fn parse(&self) -> (r: Result<ParsedStory, CompilerError>)
        requires
            spec_indents_fit(spec_normalize_newlines(self.source())),
        ensures
            agrees(r, spec_parse_story(self.source())),
            self.source().len() == 0 ==> (r matches Err(e) && e.kind == ErrorKind::InvalidSource
                && e.message@ == "ink source is empty; expected at least one line of text"@),
            r matches Ok(s) ==> consts_unique(s.consts@),
    {
        let chars = chars_of(&self.source);
        if chars.len() == 0 {
            return Err(CompilerError::invalid_source("ink source is empty; expected at least one line of text".to_owned()));
        }
        let normalized = normalize_newlines(&chars);
        let lines = split_line_chars(&normalized);
        let ghost ls = lines_model(lines@);
        if lines.len() == 0 {
            return Err(CompilerError::invalid_source("ink source is empty; expected at least one line of text".to_owned()));
        }
        let ghost goal = spec_story_from(ls, 0, spec_initial_state());
        let mut globals: Vec<GlobalVariable> = Vec::new();
        let mut list_declarations: Vec<ListDeclaration> = Vec::new();
        let mut external_functions: Vec<String> = Vec::new();
        let mut consts: Vec<(String, Expression)> = Vec::new();
        let mut root: Vec<Node> = Vec::new();
        let mut flows: Vec<Flow> = Vec::new();
        let mut current_flow: Option<FlowBuilder> = None;
        let mut current_stitch: Option<FlowBuilder> = None;
        let mut line_index: usize = 0;
        proof {
            assert(globals_model(globals@) =~= Seq::<SpecGlobal>::empty());
            assert(lists_model(list_declarations@) =~= Seq::<SpecListDeclaration>::empty());
            assert(strings_model(external_functions@) =~= Seq::<Seq<char>>::empty());
            assert(consts_model(consts@) =~= Seq::<(Seq<char>, SpecExpression)>::empty());
            assert(nodes_model(root@) =~= Seq::<SpecNode>::empty());
            assert(flows_model(flows@) =~= Seq::<SpecFlow>::empty());
            assert(read_state(globals@, list_declarations@, external_functions@, consts@, root@, flows@, current_flow, current_stitch) == spec_initial_state());
            assert(spec_parse_story(self.source()) == goal);
        }
        while line_index < lines.len()
            invariant
                line_index <= lines.len(),
                consts_unique(consts@),
                chars@ == self.source@,
                chars@.len() > 0,
                ls == lines_model(lines@),
                goal == spec_story_from(ls, 0, spec_initial_state()),
                spec_parse_story(self.source()) == goal,
                spec_story_from(ls, line_index as int, read_state(globals@, list_declarations@, external_functions@, consts@, root@, flows@, current_flow, current_stitch)) == goal,
            decreases lines.len() - line_index,
        {
            let ln = line_index + 1;
            proof {
                assert(ls[line_index as int] == lines@[line_index as int].model());
            }
            if let Some(header) = parse_header_chars(&lines[line_index].content) {
                match read_header(&mut flows, &mut current_flow, &mut current_stitch, header) {
                    Err(e) => return Err(e.with_line(ln)),
                    Ok(()) => {},
                }
                line_index = line_index + 1;
                continue;
            }
            let statement = match parse_statement(&lines, &mut line_index, false) {
                Err(e) => return Err(e),
                Ok(s) => s,
            };
            read_statement(&mut globals, &mut list_declarations, &mut external_functions, &mut consts, &mut root, &mut current_flow, &mut current_stitch, Ghost(flows@), statement);
        }
        let ghost st = read_state(globals@, list_declarations@, external_functions@, consts@, root@, flows@, current_flow, current_stitch);
        let flow = match finalize_stitch(current_flow, current_stitch) {
            Err(e) => return Err(e),
            Ok(f) => f,
        };
        let ghost f0 = flows@;
        if let Some(f) = flow {
            let built = f.build();
            flows.push(built);
            proof {
                lemma_flows_push(f0, built);
            }
        }
        let mut story = ParsedStory::new(globals, root, flows);
        story.list_declarations = list_declarations;
        story.external_functions = external_functions;
        story.consts = consts;
        Ok(story)
    }
}

/// What has been read so far, as the contracts see it.
spec fn read_state(globals: Seq<GlobalVariable>, lists: Seq<ListDeclaration>, externals: Seq<String>, consts: Seq<(String, Expression)>, root: Seq<Node>, flows: Seq<Flow>, flow: Option<FlowBuilder>, stitch: Option<FlowBuilder>) -> SpecReadState {
    SpecReadState {
        globals: globals_model(globals),
        lists: lists_model(lists),
        externals: strings_model(externals),
        consts: consts_model(consts),
        root: nodes_model(root),
        flows: flows_model(flows),
        flow: opt_builder_model(flow),
        stitch: opt_builder_model(stitch),
    }
}

} // verus!

verus! {

/// The names of `flows`, in order.
pub open spec fn flow_names(flows: Seq<SpecFlow>) -> Seq<Seq<char>> {
    flows.map_values(|f: SpecFlow| f.name)
}

/// The name of the flow being read, if one is.
pub open spec fn open_flow_name(f: Option<SpecBuilder>) -> Seq<Seq<char>> {
    match f {
        Some(b) => seq![b.name],
        None => Seq::empty(),
    }
}

/// The names of the headers from line `j` on that open a flow of the story:
/// every knot and function, and a stitch while no knot or function has been
/// met (`in_knot` says whether one has).
pub open spec fn spec_flow_headers(ls: Seq<SpecLine>, j: int, in_knot: bool) -> Seq<Seq<char>>
    decreases ls.len() - j,
{
    if !(0 <= j < ls.len()) {
        Seq::empty()
    } else {
        match spec_parse_header(ls[j].content) {
            Some(SpecHeader::Knot(sig)) => seq![sig.name] + spec_flow_headers(ls, j + 1, true),
            Some(SpecHeader::Function(sig)) => seq![sig.name] + spec_flow_headers(ls, j + 1, true),
            Some(SpecHeader::Stitch(sig)) => if in_knot {
                spec_flow_headers(ls, j + 1, true)
            } else {
                seq![sig.name] + spec_flow_headers(ls, j + 1, false)
            },
            None => spec_flow_headers(ls, j + 1, in_knot),
        }
    }
}

/// The statement read at line `j` ends before the next header: none of
/// the lines it takes after its first is a header.
pub open spec fn statement_holds_no_header(ls: Seq<SpecLine>, j: int) -> bool {
    spec_statement(ls, j, false) matches Ok((_s, j2)) ==> forall|k: int| j < k < j2 && k < ls.len()
        ==> spec_parse_header(#[trigger] ls[k].content) is None
}

/// Every line that is not a header starts a statement that ends before
/// the next header.
pub open spec fn headers_stand_alone(ls: Seq<SpecLine>) -> bool {
    forall|j: int| 0 <= j < ls.len() && spec_parse_header(ls[j].content) is None
        ==> #[trigger] statement_holds_no_header(ls, j)
}

proof fn lemma_close_names(flows: Seq<SpecFlow>, f: Option<SpecBuilder>)
    ensures
        flow_names(spec_close(flows, f)) == flow_names(flows) + open_flow_name(f),
{
    match f {
        Some(b) => {
            assert(flow_names(flows.push(spec_build(b))) =~= flow_names(flows) + seq![b.name]);
        },
        None => {
            assert(flow_names(flows) + Seq::<Seq<char>>::empty() =~= flow_names(flows));
        },
    }
}

/// Lines that are no headers open no flow.
proof fn lemma_flow_headers_skip(ls: Seq<SpecLine>, a: int, b: int, in_knot: bool)
    requires
        0 <= a <= b <= ls.len(),
        forall|k: int| a <= k < b ==> spec_parse_header(#[trigger] ls[k].content) is None,
    ensures
        spec_flow_headers(ls, a, in_knot) == spec_flow_headers(ls, b, in_knot),
    decreases b - a,
{
    if a < b {
        assert(spec_parse_header(ls[a].content) is None);
        lemma_flow_headers_skip(ls, a + 1, b, in_knot);
    }
}

/// Whether the flow being read is a knot or function (and not a stitch
/// that stands as a flow of its own), and a stitch is only read inside one.
pub open spec fn reading_in_knot(st: SpecReadState, in_knot: bool) -> bool {
    &&& in_knot ==> (st.flow matches Some(f) && !f.is_root_stitch)
    &&& !in_knot ==> (st.flow matches Some(f) ==> f.is_root_stitch) && st.stitch is None
}

/// Reading from line `j` on adds to the flows already closed the flow being
/// read and then one flow per header that opens one, in order.
#[verifier::spinoff_prover]
#[verifier::rlimit(60)]
proof fn lemma_story_flow_names(ls: Seq<SpecLine>, j: int, st: SpecReadState, in_knot: bool)
    requires
        0 <= j,
        headers_stand_alone(ls),
        reading_in_knot(st, in_knot),
    ensures
        spec_story_from(ls, j, st) matches Ok(story) ==> flow_names(story.flows)
            == flow_names(st.flows) + open_flow_name(st.flow) + spec_flow_headers(ls, j, in_knot),
    decreases ls.len() - j,
{
    if !(0 <= j < ls.len()) {
        if let Ok(f) = spec_finalize(st.flow, st.stitch) {
            lemma_close_names(st.flows, f);
            assert(open_flow_name(f) == open_flow_name(st.flow));
            assert(flow_names(st.flows) + open_flow_name(st.flow) + Seq::<Seq<char>>::empty()
                =~= flow_names(st.flows) + open_flow_name(st.flow));
        }
    } else {
        match spec_parse_header(ls[j].content) {
            Some(h) => {
                if let Ok(f) = spec_finalize(st.flow, st.stitch) {
                    assert(open_flow_name(f) == open_flow_name(st.flow));
                    let st2 = spec_apply_header(st, f, h);
                    match h {
                        SpecHeader::Knot(sig) => {
                            lemma_close_names(st.flows, f);
                            lemma_story_flow_names(ls, j + 1, st2, true);
                            assert(flow_names(st.flows) + open_flow_name(f) + seq![sig.name] + spec_flow_headers(ls, j + 1, true)
                                =~= flow_names(st.flows) + open_flow_name(st.flow) + (seq![sig.name] + spec_flow_headers(ls, j + 1, true)));
                        },
                        SpecHeader::Function(sig) => {
                            lemma_close_names(st.flows, f);
                            lemma_story_flow_names(ls, j + 1, st2, true);
                            assert(flow_names(st.flows) + open_flow_name(f) + seq![sig.name] + spec_flow_headers(ls, j + 1, true)
                                =~= flow_names(st.flows) + open_flow_name(st.flow) + (seq![sig.name] + spec_flow_headers(ls, j + 1, true)));
                        },
                        SpecHeader::Stitch(sig) => {
                            if in_knot {
                                lemma_story_flow_names(ls, j + 1, st2, true);
                            } else {
                                lemma_close_names(st.flows, f);
                                lemma_story_flow_names(ls, j + 1, st2, false);
                                assert(flow_names(st.flows) + open_flow_name(f) + seq![sig.name] + spec_flow_headers(ls, j + 1, false)
                                    =~= flow_names(st.flows) + open_flow_name(st.flow) + (seq![sig.name] + spec_flow_headers(ls, j + 1, false)));
                            }
                        },
                    }
                }
            },
            None => {
                if let Ok((s, j2)) = spec_statement(ls, j, false) {
                    if j < j2 <= ls.len() {
                        assert(statement_holds_no_header(ls, j));
                        let st2 = spec_apply_statement(st, s);
                        assert(open_flow_name(st2.flow) == open_flow_name(st.flow));
                        lemma_story_flow_names(ls, j2, st2, in_knot);
                        lemma_flow_headers_skip(ls, j, j2, in_knot);
                    }
                }
            },
        }
    }
}

/// Each knot and function header of a source, and each stitch header before
/// the first of them, opens exactly one flow of the story, in source order:
/// the story's flows are named by those headers, one for one (given that
/// no multi-line statement runs over a header).
pub proof fn law_each_flow_header_opens_one_flow(src: Seq<char>)
    requires
        headers_stand_alone(spec_split_lines(spec_normalize_newlines(src))),
    ensures
        spec_parse_story(src) matches Ok(story) ==> flow_names(story.flows)
            == spec_flow_headers(spec_split_lines(spec_normalize_newlines(src)), 0, false),
{
    let ls = spec_split_lines(spec_normalize_newlines(src));
    lemma_story_flow_names(ls, 0, spec_initial_state(), false);
    assert(flow_names(Seq::<SpecFlow>::empty()) =~= Seq::<Seq<char>>::empty());
    assert(Seq::<Seq<char>>::empty() + Seq::<Seq<char>>::empty() + spec_flow_headers(ls, 0, false)
        =~= spec_flow_headers(ls, 0, false));
}


/// Each flow's name with the names of its stitches, in order.
pub open spec fn flow_outline(flows: Seq<SpecFlow>) -> Seq<(Seq<char>, Seq<Seq<char>>)> {
    flows.map_values(|f: SpecFlow| (f.name, flow_names(f.children)))
}

/// The names of the stitch headers from line `j` on, up to the next knot or
/// function header.
pub open spec fn spec_stitches_until_flow(ls: Seq<SpecLine>, j: int) -> Seq<Seq<char>>
    decreases ls.len() - j,
{
    if !(0 <= j < ls.len()) {
        Seq::empty()
    } else {
        match spec_parse_header(ls[j].content) {
            Some(SpecHeader::Knot(_)) => Seq::empty(),
            Some(SpecHeader::Function(_)) => Seq::empty(),
            Some(SpecHeader::Stitch(sig)) => seq![sig.name] + spec_stitches_until_flow(ls, j + 1),
            None => spec_stitches_until_flow(ls, j + 1),
        }
    }
}

/// The flows that the headers from line `j` on open, each with the names
/// of its stitches: a knot or function holds the stitch headers that
/// follow it up to the next knot or function; a stitch met while no knot or
/// function has been (`in_knot` false) is a flow of its own, with none.
pub open spec fn spec_flow_outline(ls: Seq<SpecLine>, j: int, in_knot: bool) -> Seq<(Seq<char>, Seq<Seq<char>>)>
    decreases ls.len() - j,
{
    if !(0 <= j < ls.len()) {
        Seq::empty()
    } else {
        match spec_parse_header(ls[j].content) {
            Some(SpecHeader::Knot(sig)) => seq![(sig.name, spec_stitches_until_flow(ls, j + 1))] + spec_flow_outline(ls, j + 1, true),
            Some(SpecHeader::Function(sig)) => seq![(sig.name, spec_stitches_until_flow(ls, j + 1))] + spec_flow_outline(ls, j + 1, true),
            Some(SpecHeader::Stitch(sig)) => if in_knot {
                spec_flow_outline(ls, j + 1, true)
            } else {
                seq![(sig.name, Seq::<Seq<char>>::empty())] + spec_flow_outline(ls, j + 1, false)
            },
            None => spec_flow_outline(ls, j + 1, in_knot),
        }
    }
}

/// The flow being read, with the stitches it holds so far, the stitch
/// being read and (inside a knot or function) the stitch headers still to
/// come before the next knot or function.
pub open spec fn open_flow_entry(st: SpecReadState, in_knot: bool, ls: Seq<SpecLine>, j: int) -> Seq<(Seq<char>, Seq<Seq<char>>)> {
    match st.flow {
        None => Seq::empty(),
        Some(f) => seq![(f.name, if in_knot {
            flow_names(f.children) + open_flow_name(st.stitch) + spec_stitches_until_flow(ls, j)
        } else {
            flow_names(f.children)
        })],
    }
}

proof fn lemma_close_outline(flows: Seq<SpecFlow>, f: Option<SpecBuilder>)
    ensures
        flow_outline(spec_close(flows, f)) == flow_outline(flows) + (match f {
            Some(b) => seq![(b.name, flow_names(b.children))],
            None => Seq::empty(),
        }),
{
    match f {
        Some(b) => {
            assert(flow_outline(flows.push(spec_build(b))) =~= flow_outline(flows) + seq![(b.name, flow_names(b.children))]);
        },
        None => {
            assert(flow_outline(flows) + Seq::<(Seq<char>, Seq<Seq<char>>)>::empty() =~= flow_outline(flows));
        },
    }
}

proof fn lemma_outline_skip(ls: Seq<SpecLine>, a: int, b: int, in_knot: bool)
    requires
        0 <= a <= b <= ls.len(),
        forall|k: int| a <= k < b ==> spec_parse_header(#[trigger] ls[k].content) is None,
    ensures
        spec_flow_outline(ls, a, in_knot) == spec_flow_outline(ls, b, in_knot),
        spec_stitches_until_flow(ls, a) == spec_stitches_until_flow(ls, b),
    decreases b - a,
{
    if a < b {
        assert(spec_parse_header(ls[a].content) is None);
        lemma_outline_skip(ls, a + 1, b, in_knot);
    }
}

proof fn lemma_children_push(cs: Seq<SpecFlow>, s: SpecBuilder)
    ensures
        flow_names(cs.push(spec_build(s))) == flow_names(cs) + seq![s.name],
{
    assert(flow_names(cs.push(spec_build(s))) =~= flow_names(cs) + seq![s.name]);
}

/// Reading from line `j` on closes the flow being read with the stitches
/// that come to it, then one flow per header that opens one, each with its
/// stitches.
#[verifier::spinoff_prover]
#[verifier::rlimit(80)]
proof fn lemma_story_outline(ls: Seq<SpecLine>, j: int, st: SpecReadState, in_knot: bool)
    requires
        0 <= j,
        headers_stand_alone(ls),
        reading_in_knot(st, in_knot),
    ensures
        spec_story_from(ls, j, st) matches Ok(story) ==> flow_outline(story.flows)
            == flow_outline(st.flows) + open_flow_entry(st, in_knot, ls, j) + spec_flow_outline(ls, j, in_knot),
    decreases ls.len() - j,
{
    let E = Seq::<(Seq<char>, Seq<Seq<char>>)>::empty();
    if !(0 <= j < ls.len()) {
        if let Ok(f) = spec_finalize(st.flow, st.stitch) {
            lemma_close_outline(st.flows, f);
            if let Some(b) = st.flow {
                if let Some(sb) = st.stitch {
                    lemma_children_push(b.children, sb);
                } else {
                    assert(flow_names(b.children) + Seq::<Seq<char>>::empty() + Seq::<Seq<char>>::empty() =~= flow_names(b.children));
                }
            }
            assert(flow_outline(st.flows) + open_flow_entry(st, in_knot, ls, j) + E
                =~= flow_outline(st.flows) + open_flow_entry(st, in_knot, ls, j));
        }
    } else {
        match spec_parse_header(ls[j].content) {
            Some(h) => {
                if let Ok(f) = spec_finalize(st.flow, st.stitch) {
                    let st2 = spec_apply_header(st, f, h);
                    match h {
                        SpecHeader::Stitch(sig) => {
                            if in_knot {
                                let b = st.flow->Some_0;
                                let fb = f->Some_0;
                                if let Some(sb) = st.stitch {
                                    lemma_children_push(b.children, sb);
                                } else {
                                    assert(fb.children == b.children);
                                }
                                lemma_story_outline(ls, j + 1, st2, true);
                                assert(flow_names(b.children) + open_flow_name(st.stitch) + spec_stitches_until_flow(ls, j)
                                    =~= flow_names(fb.children) + seq![sig.name] + spec_stitches_until_flow(ls, j + 1));
                                assert(open_flow_entry(st, in_knot, ls, j) == open_flow_entry(st2, true, ls, j + 1));
                            } else {
                                lemma_close_outline(st.flows, f);
                                lemma_story_outline(ls, j + 1, st2, false);
                                assert(flow_names(Seq::<SpecFlow>::empty()) =~= Seq::<Seq<char>>::empty());
                                assert(flow_outline(st.flows) + open_flow_entry(st, in_knot, ls, j) + seq![(sig.name, Seq::<Seq<char>>::empty())] + spec_flow_outline(ls, j + 1, false)
                                    =~= flow_outline(st.flows) + open_flow_entry(st, in_knot, ls, j) + (seq![(sig.name, Seq::<Seq<char>>::empty())] + spec_flow_outline(ls, j + 1, false)));
                            }
                        },
                        _ => {
                            let sig = match h {
                                SpecHeader::Knot(g) => g,
                                SpecHeader::Function(g) => g,
                                SpecHeader::Stitch(g) => g,
                            };
                            lemma_close_outline(st.flows, f);
                            if let Some(b) = st.flow {
                                if let Some(sb) = st.stitch {
                                    lemma_children_push(b.children, sb);
                                }
                                assert(flow_names(b.children) + open_flow_name(st.stitch) + Seq::<Seq<char>>::empty()
                                    =~= flow_names(b.children) + open_flow_name(st.stitch));
                                assert(flow_names(b.children) + Seq::<Seq<char>>::empty() =~= flow_names(b.children));
                            }
                            assert(flow_names(Seq::<SpecFlow>::empty()) + Seq::<Seq<char>>::empty() + spec_stitches_until_flow(ls, j + 1)
                                =~= spec_stitches_until_flow(ls, j + 1));
                            lemma_story_outline(ls, j + 1, st2, true);
                            assert(flow_outline(st.flows) + open_flow_entry(st, in_knot, ls, j) + seq![(sig.name, spec_stitches_until_flow(ls, j + 1))] + spec_flow_outline(ls, j + 1, true)
                                =~= flow_outline(st.flows) + open_flow_entry(st, in_knot, ls, j) + (seq![(sig.name, spec_stitches_until_flow(ls, j + 1))] + spec_flow_outline(ls, j + 1, true)));
                        },
                    }
                }
            },
            None => {
                if let Ok((s, j2)) = spec_statement(ls, j, false) {
                    if j < j2 <= ls.len() {
                        assert(statement_holds_no_header(ls, j));
                        let st2 = spec_apply_statement(st, s);
                        lemma_outline_skip(ls, j, j2, in_knot);
                        assert(open_flow_entry(st2, in_knot, ls, j2) == open_flow_entry(st, in_knot, ls, j));
                        lemma_story_outline(ls, j2, st2, in_knot);
                    }
                }
            },
        }
    }
}

/// Each knot and function of a source holds as its stitches the stitch
/// headers that follow it up to the next knot or function, in order; a
/// stitch before any knot or function is a flow of its own: the story's
/// flows, each named with its stitches, are the source's outline (given
/// that no multi-line statement runs over a header).
pub proof fn law_stitches_belong_to_their_knot(src: Seq<char>)
    requires
        headers_stand_alone(spec_split_lines(spec_normalize_newlines(src))),
    ensures
        spec_parse_story(src) matches Ok(story) ==> flow_outline(story.flows)
            == spec_flow_outline(spec_split_lines(spec_normalize_newlines(src)), 0, false),
{
    let ls = spec_split_lines(spec_normalize_newlines(src));
    lemma_story_outline(ls, 0, spec_initial_state(), false);
    assert(flow_outline(Seq::<SpecFlow>::empty()) =~= Seq::<(Seq<char>, Seq<Seq<char>>)>::empty());
    assert(Seq::<(Seq<char>, Seq<Seq<char>>)>::empty() + Seq::<(Seq<char>, Seq<Seq<char>>)>::empty() + spec_flow_outline(ls, 0, false)
        =~= spec_flow_outline(ls, 0, false));
}

} // verus!
