use vstd::prelude::*;

use crate::go::{go_import_edge, go_import_edge_of, go_param_type_of, parse_func_param_type};
use crate::graph::{contains_into, find_index, has_name, lemma_find_index, names_unique, position_of};
use crate::parser::{import_name_of, FuncParamType, ParamTypeModel, PendingImport, PendingImportModel};
use crate::resolve::{opt_seq, ref_views};
use crate::snippet::{skeleton_code, skeleton_of};
use crate::text::{concat_str, regex_group_matches, views};
use crate::types::{edge_views, node_views, Edge, EdgeModel, EdgeType, Language, Node, NodeModel, NodeType};
use crate::typescript::{
    capture_views, import_binding, pair_views, parse_func_param_types, pending_import_from_captures,
    ts_param_type_of, ts_type_list, ImportCapture, TS_TYPE_PATTERN,
};

verus! {

/// What a captured syntax node stands for in its match.
#[derive(Debug, Clone, Copy, PartialEq, Eq, Structural)]
pub enum Role {
    /// The whole definition.
    Definition,
    /// The defined name.
    Name,
    /// The body of a function, method or class.
    Body,
    /// The type of one parameter.
    ParamType,
    /// The name of the class that encloses a method.
    ParentName,
    /// The first named return type of a Go function.
    ReturnType,
    /// The receiver type of a Go method.
    Receiver,
    /// One Go import spec, `[alias] "path"`.
    ImportPath,
    /// A part of a TypeScript import statement.
    Import(ImportCapture),
}

/// The kind of definition a query pattern matches.
#[derive(Debug, Clone, Copy, PartialEq, Eq, Structural)]
pub enum Pattern {
    Import,
    Interface,
    Class,
    Function,
    Method,
    Enum,
    TypeAlias,
}

/// One captured syntax node.
#[derive(Debug, Clone)]
pub struct Capture {
    pub role: Role,
    pub text: String,
    /// First line, counted from 0.
    pub start_line: usize,
    /// Last line, counted from 0.
    pub end_line: usize,
    /// Where the node starts, in characters from the start of the file.
    pub start_char: usize,
}

/// One match of a definition query, with its captures in order.
#[derive(Debug, Clone)]
pub struct QueryMatch {
    pub pattern: Pattern,
    pub captures: Vec<Capture>,
    /// For a TypeScript import, the repository-relative file its relative
    /// specifier resolved to; `None` for other imports and other patterns.
    pub source_path: Option<String>,
}

/// What an adapter extracts from one file.
pub struct FileParse {
    /// The definitions inside the file.
    pub nodes: Vec<Node>,
    /// `Contains` edges to those definitions, and the file's resolved imports.
    pub edges: Vec<Edge>,
    /// Imports whose target is resolved once every file is known.
    pub pending_imports: Vec<PendingImport>,
    /// Parameter types, each with the name of its function.
    pub param_types: Vec<(String, FuncParamType)>,
}

/// Whether `n` names a definition inside the file named `f`: `<f>:<symbol>`.
pub open spec fn is_def_name(f: Seq<char>, n: Seq<char>) -> bool {
    n.len() > f.len() + 1 && n.subrange(0, f.len() + 1 as int) == f + ":"@
}

/// The shape of an adapter's output for the file named `f`: distinct definition
/// names inside the file, each reached by exactly one `Contains` edge, from the
/// file or from another of its definitions.
pub open spec fn file_parse_wf(f: Seq<char>, ns: Seq<crate::types::NodeModel>, es: Seq<EdgeModel>) -> bool {
    &&& names_unique(ns)
    &&& forall|i: int| 0 <= i < ns.len() ==> is_def_name(f, #[trigger] ns[i].name)
    &&& forall|i: int| 0 <= i < ns.len() ==> #[trigger] contains_into(es, ns[i].name) == 1
    &&& forall|k: int|
        0 <= k < es.len() && #[trigger] es[k].typ == EdgeType::Contains ==> has_name(ns, es[k].to.name)
            && (es[k].from.name == f || has_name(ns, es[k].from.name))
}

impl FileParse {
    pub open spec fn wf(&self, file: Seq<char>) -> bool {
        file_parse_wf(file, node_views(self.nodes@), edge_views(self.edges@))
    }
}

/// The value of a capture.
pub struct CaptureModel {
    pub role: Role,
    pub text: Seq<char>,
    pub start_line: nat,
    pub end_line: nat,
    pub start_char: nat,
}

impl View for Capture {
    type V = CaptureModel;

    open spec fn view(&self) -> CaptureModel {
        CaptureModel {
            role: self.role,
            text: self.text@,
            start_line: self.start_line as nat,
            end_line: self.end_line as nat,
            start_char: self.start_char as nat,
        }
    }
}

/// The value of a query match.
pub struct MatchModel {
    pub pattern: Pattern,
    pub captures: Seq<CaptureModel>,
    pub source_path: Option<Seq<char>>,
}

impl View for QueryMatch {
    type V = MatchModel;

    open spec fn view(&self) -> MatchModel {
        MatchModel {
            pattern: self.pattern,
            captures: self.captures@.map_values(|c: Capture| c@),
            source_path: crate::types::opt_view(self.source_path),
        }
    }
}

/// The views of a sequence of matches.
pub open spec fn match_views(ms: Seq<QueryMatch>) -> Seq<MatchModel> {
    ms.map_values(|m: QueryMatch| m@)
}

/// The value of an adapter's output.
pub struct ParseModel {
    pub nodes: Seq<NodeModel>,
    pub edges: Seq<EdgeModel>,
    pub pending: Seq<PendingImportModel>,
    pub params: Seq<(Seq<char>, ParamTypeModel)>,
}

/// The value of an adapter's output.
pub open spec fn fp_model(p: FileParse) -> ParseModel {
    ParseModel {
        nodes: node_views(p.nodes@),
        edges: edge_views(p.edges@),
        pending: p.pending_imports@.map_values(|x: PendingImport| x@),
        params: ref_views(p.param_types@),
    }
}

/// An output with nothing in it.
pub open spec fn empty_model() -> ParseModel {
    ParseModel { nodes: Seq::empty(), edges: Seq::empty(), pending: Seq::empty(), params: Seq::empty() }
}

/// What the captures of one match give, gathered by role.
pub struct PartsModel {
    /// The definition's code, first line, last line and first character.
    pub def: Option<(Seq<char>, nat, nat, nat)>,
    pub name: Option<Seq<char>>,
    /// The first character of the body.
    pub body_start: Option<nat>,
    pub params: Seq<Seq<char>>,
    pub parent: Option<Seq<char>>,
    pub ret: Option<Seq<char>>,
    pub receiver: Option<Seq<char>>,
    pub imports: Seq<(ImportCapture, Seq<char>)>,
    pub import_paths: Seq<Seq<char>>,
}

/// The parts of a match before any capture.
pub open spec fn no_parts() -> PartsModel {
    PartsModel {
        def: None,
        name: None,
        body_start: None,
        params: Seq::empty(),
        parent: None,
        ret: None,
        receiver: None,
        imports: Seq::empty(),
        import_paths: Seq::empty(),
    }
}

/// The parts with one more capture: it replaces an earlier capture of its role;
/// parameter types and import parts accumulate.
pub open spec fn parts_step(p: PartsModel, c: CaptureModel) -> PartsModel {
    match c.role {
        Role::Definition => PartsModel { def: Some((c.text, c.start_line, c.end_line, c.start_char)), ..p },
        Role::Name => PartsModel { name: Some(c.text), ..p },
        Role::Body => PartsModel { body_start: Some(c.start_char), ..p },
        Role::ParamType => PartsModel { params: p.params.push(c.text), ..p },
        Role::ParentName => PartsModel { parent: Some(c.text), ..p },
        Role::ReturnType => PartsModel { ret: Some(c.text), ..p },
        Role::Receiver => PartsModel { receiver: Some(c.text), ..p },
        Role::ImportPath => PartsModel { import_paths: p.import_paths.push(c.text), ..p },
        Role::Import(k) => PartsModel { imports: p.imports.push((k, c.text)), ..p },
    }
}

/// The parts of a match, from its captures in order.
pub open spec fn parts_of(cs: Seq<CaptureModel>) -> PartsModel
    decreases cs.len(),
{
    if cs.len() == 0 {
        no_parts()
    } else {
        parts_step(parts_of(cs.drop_last()), cs.last())
    }
}

/// The node a match defines, named `name`: its code and lines from the
/// definition capture, and its skeleton where the body starts inside the code.
pub open spec fn def_node_of(f: NodeModel, p: PartsModel, t: NodeType, name: Seq<char>) -> Option<NodeModel> {
    match p.def {
        Some(d) => Some(
            NodeModel {
                name,
                typ: t,
                language: f.language,
                start_line: d.1,
                end_line: d.2,
                code: d.0,
                skeleton_code: match p.body_start {
                    Some(b) => if b >= d.3 && b - d.3 <= d.0.len() {
                        skeleton_of(d.0, b - d.3, f.language)
                    } else {
                        Seq::empty()
                    },
                    None => Seq::empty(),
                },
            },
        ),
        None => None,
    }
}

/// Whether `child` can be placed under `parent`: its name is a new definition
/// name of the file, and the parent is the file or one of its definitions.
pub open spec fn place_ok(f: NodeModel, m: ParseModel, parent: Seq<char>, child: NodeModel) -> bool {
    is_def_name(f.name, child.name) && !has_name(m.nodes, child.name) && (parent == f.name || has_name(
        m.nodes,
        parent,
    ))
}

/// The output with `child` placed under `parent` by a `Contains` edge, where
/// `place_ok` holds; otherwise unchanged.
pub open spec fn place_spec(f: NodeModel, m: ParseModel, parent: Seq<char>, child: NodeModel) -> ParseModel {
    if place_ok(f, m, parent, child) {
        ParseModel {
            nodes: m.nodes.push(child),
            edges: m.edges.push(
                EdgeModel {
                    typ: EdgeType::Contains,
                    from: if parent == f.name {
                        f
                    } else {
                        m.nodes[find_index(m.nodes, parent)]
                    },
                    to: child,
                    import: None,
                    alias: None,
                },
            ),
            ..m
        }
    } else {
        m
    }
}

/// The output with more parameter records.
pub open spec fn with_params(m: ParseModel, extra: Seq<(Seq<char>, ParamTypeModel)>) -> ParseModel {
    ParseModel { params: m.params + extra, ..m }
}

/// The node type of the definitions a pattern matches.
pub open spec fn node_type_of_pattern(p: Pattern) -> NodeType {
    match p {
        Pattern::Interface => NodeType::Interface,
        Pattern::Class => NodeType::Class,
        Pattern::Function | Pattern::Method => NodeType::Function,
        _ => NodeType::OtherType,
    }
}

proof fn lemma_contains_into_absent(es: Seq<EdgeModel>, name: Seq<char>)
    requires
        forall|k: int| 0 <= k < es.len() && es[k].typ == EdgeType::Contains ==> es[k].to.name != name,
    ensures
        contains_into(es, name) == 0,
    decreases es.len(),
{
    if es.len() > 0 {
        lemma_contains_into_absent(es.drop_last(), name);
    }
}

/// Index of the node named `name` in `nodes`, if any.
fn index_of(nodes: &Vec<Node>, name: &String) -> (r: Option<usize>)
    ensures
        match r {
            Some(i) => i < nodes@.len() && nodes@[i as int]@.name == name@,
            None => !has_name(node_views(nodes@), name@),
        },
{
    let mut i: usize = 0;
    while i < nodes.len()
        invariant
            0 <= i <= nodes@.len(),
            forall|j: int| 0 <= j < i ==> nodes@[j]@.name != name@,
        decreases nodes@.len() - i,
    {
        if nodes[i].name == *name {
            return Some(i);
        }
        i = i + 1;
    }
    assert forall|j: int| 0 <= j < node_views(nodes@).len() implies node_views(nodes@)[j].name != name@ by {
        assert(node_views(nodes@)[j] == nodes@[j]@);
    }
    None
}

/// Whether `n` starts with `f:` and has a symbol after it.
fn check_def_name(f: &String, n: &String) -> (r: bool)
    ensures
        r == is_def_name(f@, n@),
{
    let fv = crate::text::char_vec(f.as_str());
    let nv = crate::text::char_vec(n.as_str());
    let prefix = crate::text::char_vec(concat_str(f, ":").as_str());
    proof {
        reveal_strlit(":");
    }
    nv.len() > fv.len() && nv.len() - fv.len() > 1 && crate::text::starts_with(&nv, &prefix)
}

/// Places `child` under the file or under the definition named `parent` with a
/// `Contains` edge, where the parent is known, the child's name is a new
/// definition name of the file; returns whether it was placed.
fn place(file: &Node, parse: &mut FileParse, parent: &String, child: Node) -> (r: bool)
    requires
        old(parse).wf(file@.name),
    ensures
        final(parse).wf(file@.name),
        fp_model(*final(parse)) == place_spec(file@, fp_model(*old(parse)), parent@, child@),
        r == place_ok(file@, fp_model(*old(parse)), parent@, child@),
{
    let ghost ns0 = node_views(parse.nodes@);
    let ghost es0 = edge_views(parse.edges@);
    let ghost f = file@.name;
    let ghost m0 = fp_model(*parse);
    let found = index_of(&parse.nodes, &child.name);
    if !check_def_name(&file.name, &child.name) || found.is_some() {
        proof {
            if let Some(i) = found {
                assert(ns0[i as int] == parse.nodes@[i as int]@);
            }
        }
        return false;
    }
    proof {
        lemma_find_index(ns0, parent@);
    }
    let from = if *parent == file.name {
        file.copied()
    } else {
        match position_of(&parse.nodes, parent) {
            Some(i) => {
                assert(ns0[i as int] == parse.nodes@[i as int]@);
                assert(has_name(ns0, parent@));
                assert(*parent != file.name);
                parse.nodes[i].copied()
            },
            None => {
                return false;
            },
        }
    };
    assert(from@.name == parent@);
    assert(from@ == (if parent@ == file@.name { file@ } else { ns0[find_index(ns0, parent@)] }));
    assert(place_ok(file@, m0, parent@, child@));
    assert(has_name(ns0, from@.name) || from@.name == f);
    let edge = Edge::between(EdgeType::Contains, &from, &child);
    let ghost cv = child@;
    parse.nodes.push(child);
    parse.edges.push(edge);
    let ghost ns = node_views(parse.nodes@);
    let ghost es = edge_views(parse.edges@);
    proof {
        assert(edge@ == EdgeModel { typ: EdgeType::Contains, from: from@, to: cv, import: None, alias: None });
        assert(fp_model(*parse).nodes == m0.nodes.push(cv));
        assert(fp_model(*parse).edges == m0.edges.push(edge@));
        assert(fp_model(*parse).pending == m0.pending);
        assert(fp_model(*parse).params == m0.params);
        assert(fp_model(*parse) == place_spec(file@, m0, parent@, cv));
        assert(ns =~= ns0.push(child@));
        assert(es =~= es0.push(edge@));
        assert(es.drop_last() =~= es0);
        assert forall|k: int| 0 <= k < es0.len() && es0[k].typ == EdgeType::Contains implies es0[k].to.name
            != child@.name by {
            assert(has_name(ns0, es0[k].to.name));
        }
        lemma_contains_into_absent(es0, child@.name);
        assert forall|i: int, j: int| 0 <= i < ns.len() && 0 <= j < ns.len() && i != j implies ns[i].name
            != ns[j].name by {
            if i == ns0.len() {
                assert(ns0[j] == ns[j]);
            } else if j == ns0.len() {
                assert(ns0[i] == ns[i]);
            } else {
                assert(ns0[i] == ns[i] && ns0[j] == ns[j]);
            }
        }
        assert forall|i: int| 0 <= i < ns.len() implies is_def_name(f, #[trigger] ns[i].name) by {
            if i < ns0.len() {
                assert(ns0[i] == ns[i]);
            }
        }
        assert forall|i: int| 0 <= i < ns.len() implies #[trigger] contains_into(es, ns[i].name) == 1 by {
            if i < ns0.len() {
                assert(ns0[i] == ns[i]);
                assert(contains_into(es0, ns0[i].name) == 1);
            }
        }
        assert forall|k: int| 0 <= k < es.len() && #[trigger] es[k].typ == EdgeType::Contains implies has_name(
            ns,
            es[k].to.name,
        ) && (es[k].from.name == f || has_name(ns, es[k].from.name)) by {
            if k < es0.len() {
                assert(es[k] == es0[k]);
                assert(has_name(ns0, es0[k].to.name));
                let a = choose|a: int| 0 <= a < ns0.len() && ns0[a].name == es0[k].to.name;
                assert(ns[a] == ns0[a]);
                if es0[k].from.name != f {
                    let b = choose|b: int| 0 <= b < ns0.len() && ns0[b].name == es0[k].from.name;
                    assert(ns[b] == ns0[b]);
                }
            } else {
                assert(ns[ns0.len() as int] == child@);
                if from@.name != f {
                    let b = choose|b: int| 0 <= b < ns0.len() && ns0[b].name == from@.name;
                    assert(ns[b] == ns0[b]);
                }
            }
        }
    }
    true
}

/// Adds an edge that is not a `Contains` edge.
fn add_other_edge(file: &Node, parse: &mut FileParse, e: Edge)
    requires
        old(parse).wf(file@.name),
        e.edge_type != EdgeType::Contains,
    ensures
        final(parse).wf(file@.name),
        fp_model(*final(parse)) == (ParseModel { edges: fp_model(*old(parse)).edges.push(e@), ..fp_model(*old(parse)) }),
{
    let ghost es0 = edge_views(parse.edges@);
    let ghost ns = node_views(parse.nodes@);
    let ghost ev = e@;
    let ghost m0 = fp_model(*parse);
    parse.edges.push(e);
    proof {
        let es = edge_views(parse.edges@);
        assert(es =~= es0.push(ev));
        assert(edge_views(parse.edges@) =~= es0.push(ev));
        assert(fp_model(*parse) == (ParseModel { edges: m0.edges.push(ev), ..m0 }));
        assert(es.drop_last() =~= es0);
        assert forall|i: int| 0 <= i < ns.len() implies #[trigger] contains_into(es, ns[i].name) == 1 by {
            assert(contains_into(es0, ns[i].name) == 1);
        }
        assert forall|k: int| 0 <= k < es.len() && #[trigger] es[k].typ == EdgeType::Contains implies has_name(
            ns,
            es[k].to.name,
        ) && (es[k].from.name == file@.name || has_name(ns, es[k].from.name)) by {
            assert(es[k] == es0[k]);
        }
    }
}

/// The parts of one match that make a definition.
struct Parts {
    def: Option<(String, usize, usize, usize)>,
    name: Option<String>,
    body_start: Option<usize>,
    params: Vec<String>,
    parent: Option<String>,
    ret: Option<String>,
    receiver: Option<String>,
    imports: Vec<(ImportCapture, String)>,
    import_paths: Vec<String>,
}

spec fn parts_view(p: Parts) -> PartsModel {
    PartsModel {
        def: match p.def {
            Some(d) => Some((d.0@, d.1 as nat, d.2 as nat, d.3 as nat)),
            None => None,
        },
        name: crate::types::opt_view(p.name),
        body_start: match p.body_start {
            Some(b) => Some(b as nat),
            None => None,
        },
        params: views(p.params@),
        parent: crate::types::opt_view(p.parent),
        ret: crate::types::opt_view(p.ret),
        receiver: crate::types::opt_view(p.receiver),
        imports: capture_views(p.imports@),
        import_paths: views(p.import_paths@),
    }
}

/// Gathers the captures of a match by role, as `parts_of` states.
fn collect_parts(captures: &Vec<Capture>) -> (r: Parts)
    ensures
        parts_view(r) == parts_of(captures@.map_values(|c: Capture| c@)),
{
    let ghost cs = captures@.map_values(|c: Capture| c@);
    let mut p = Parts {
        def: None,
        name: None,
        body_start: None,
        params: Vec::new(),
        parent: None,
        ret: None,
        receiver: None,
        imports: Vec::new(),
        import_paths: Vec::new(),
    };
    assert(parts_view(p) == no_parts()) by {
        assert(views(p.params@) =~= Seq::<Seq<char>>::empty());
        assert(views(p.import_paths@) =~= Seq::<Seq<char>>::empty());
        assert(capture_views(p.imports@) =~= Seq::<(ImportCapture, Seq<char>)>::empty());
    }
    let mut i: usize = 0;
    while i < captures.len()
        invariant
            0 <= i <= captures@.len(),
            cs == captures@.map_values(|c: Capture| c@),
            parts_view(p) == parts_of(cs.subrange(0, i as int)),
        decreases captures@.len() - i,
    {
        let ghost before = parts_view(p);
        let ghost pa = p.params@;
        let ghost im = p.imports@;
        let ghost ip = p.import_paths@;
        let c = &captures[i];
        assert(cs.subrange(0, i + 1).drop_last() =~= cs.subrange(0, i as int));
        assert(cs.subrange(0, i + 1).last() == c@);
        match c.role {
            Role::Definition => {
                p.def = Some((c.text.clone(), c.start_line, c.end_line, c.start_char));
            },
            Role::Name => {
                p.name = Some(c.text.clone());
            },
            Role::Body => {
                p.body_start = Some(c.start_char);
            },
            Role::ParamType => {
                p.params.push(c.text.clone());
                assert(views(p.params@) =~= views(pa).push(c.text@));
            },
            Role::ParentName => {
                p.parent = Some(c.text.clone());
            },
            Role::ReturnType => {
                p.ret = Some(c.text.clone());
            },
            Role::Receiver => {
                p.receiver = Some(c.text.clone());
            },
            Role::ImportPath => {
                p.import_paths.push(c.text.clone());
                assert(views(p.import_paths@) =~= views(ip).push(c.text@));
            },
            Role::Import(k) => {
                p.imports.push((k, c.text.clone()));
                assert(capture_views(p.imports@) =~= capture_views(im).push((k, c.text@)));
            },
        }
        assert(parts_view(p) == parts_step(before, c@));
        i = i + 1;
    }
    assert(cs.subrange(0, captures@.len() as int) =~= cs);
    p
}

/// `<file>:<symbol>`.
fn def_name(file: &Node, symbol: &String) -> (r: String)
    ensures
        r@ == file@.name + ":"@ + symbol@,
{
    concat_str(&concat_str(&file.name, ":"), symbol.as_str())
}

/// `<file>:<owner>.<symbol>`.
fn member_name(file: &Node, owner: &String, symbol: &String) -> (r: String)
    ensures
        r@ == file@.name + ":"@ + owner@ + "."@ + symbol@,
{
    concat_str(&concat_str(&def_name(file, owner), "."), symbol.as_str())
}

/// The node a match defines, as `def_node_of` states.
fn definition_node(file: &Node, parts: &Parts, node_type: NodeType, name: String) -> (r: Option<Node>)
    ensures
        match r {
            Some(n) => def_node_of(file@, parts_view(*parts), node_type, name@) == Some(n@),
            None => def_node_of(file@, parts_view(*parts), node_type, name@) is None,
        },
{
    match &parts.def {
        Some((code, start_line, end_line, start_char)) => {
            let skeleton = match parts.body_start {
                Some(b) => {
                    if b >= *start_char && b - *start_char <= code.as_str().unicode_len() {
                        skeleton_code(code, b - *start_char, file.language)
                    } else {
                        String::new()
                    }
                },
                None => String::new(),
            };
            Some(
                Node {
                    name,
                    node_type,
                    language: file.language,
                    start_line: *start_line,
                    end_line: *end_line,
                    code: code.clone(),
                    skeleton_code: skeleton,
                },
            )
        },
        None => None,
    }
}

fn node_type_of(pattern: Pattern) -> (r: NodeType)
    ensures
        r == node_type_of_pattern(pattern),
{
    match pattern {
        Pattern::Interface => NodeType::Interface,
        Pattern::Class => NodeType::Class,
        Pattern::Function | Pattern::Method => NodeType::Function,
        _ => NodeType::OtherType,
    }
}

fn empty_parse() -> (r: FileParse)
    ensures
        fp_model(r) == empty_model(),
        r.nodes@.len() == 0,
        r.edges@.len() == 0,
{
    let r = FileParse {
        nodes: Vec::new(),
        edges: Vec::new(),
        pending_imports: Vec::new(),
        param_types: Vec::new(),
    };
    assert(node_views(r.nodes@) =~= Seq::<NodeModel>::empty());
    assert(edge_views(r.edges@) =~= Seq::<EdgeModel>::empty());
    assert(r.pending_imports@.map_values(|x: PendingImport| x@) =~= Seq::<PendingImportModel>::empty());
    assert(ref_views(r.param_types@) =~= Seq::<(Seq<char>, ParamTypeModel)>::empty());
    r
}

proof fn lemma_empty_wf(f: Seq<char>, p: FileParse)
    requires
        p.nodes@.len() == 0,
        p.edges@.len() == 0,
    ensures
        p.wf(f),
{
    assert(edge_views(p.edges@).len() == 0);
}

/// The parameter records of one TypeScript parameter type of the function `func`.
pub open spec fn ts_param_records(func: Seq<char>, text: Seq<char>, imports: Seq<(Seq<char>, Seq<char>)>) -> Seq<
    (Seq<char>, ParamTypeModel),
> {
    ts_type_list(regex_group_matches(TS_TYPE_PATTERN@, text, 2), true).map_values(
        |n: Seq<char>| (func, ts_param_type_of(func, n, imports)),
    )
}

/// The parameter records of the TypeScript parameter types `texts` of `func`, in order.
pub open spec fn ts_params_of(func: Seq<char>, texts: Seq<Seq<char>>, imports: Seq<(Seq<char>, Seq<char>)>) -> Seq<
    (Seq<char>, ParamTypeModel),
>
    decreases texts.len(),
{
    if texts.len() == 0 {
        Seq::empty()
    } else {
        ts_params_of(func, texts.drop_last(), imports) + ts_param_records(func, texts.last(), imports)
    }
}

/// What a TypeScript file has given so far: the output and the table from
/// imported names to source paths.
pub struct TsState {
    pub parse: ParseModel,
    pub imports: Seq<(Seq<char>, Seq<char>)>,
}

/// The pending import of an import match whose source resolved to `src`.
pub open spec fn ts_import_of(p: PartsModel, src: Seq<char>) -> PendingImportModel {
    PendingImportModel {
        language: Language::TypeScript,
        source_path: src,
        symbol: import_binding(p.imports).0,
        alias: import_binding(p.imports).1,
    }
}

/// One TypeScript match applied: an import with a resolved source becomes a
/// pending import and binds its local name; a method is placed under its class
/// as `<file>:<Class>.<method>`; any other named definition under the file as
/// `<file>:<Name>`; functions and methods record their parameter types.
pub open spec fn ts_step(f: NodeModel, st: TsState, m: MatchModel) -> TsState {
    let p = parts_of(m.captures);
    match m.pattern {
        Pattern::Import => match m.source_path {
            Some(src) => if src.len() > 0 {
                let imp = ts_import_of(p, src);
                TsState {
                    parse: ParseModel { pending: st.parse.pending.push(imp), ..st.parse },
                    imports: if imp.alias is Some || imp.symbol is Some {
                        st.imports.push((import_name_of(imp), src))
                    } else {
                        st.imports
                    },
                }
            } else {
                st
            },
            None => st,
        },
        Pattern::Method => match (p.parent, p.name) {
            (Some(c), Some(mn)) => match def_node_of(f, p, NodeType::Function, f.name + ":"@ + c + "."@ + mn) {
                Some(n) => TsState {
                    parse: place_spec(
                        f,
                        with_params(st.parse, ts_params_of(n.name, p.params, st.imports)),
                        f.name + ":"@ + c,
                        n,
                    ),
                    imports: st.imports,
                },
                None => st,
            },
            _ => st,
        },
        _ => match p.name {
            Some(sym) => match def_node_of(f, p, node_type_of_pattern(m.pattern), f.name + ":"@ + sym) {
                Some(n) => TsState {
                    parse: place_spec(
                        f,
                        if m.pattern == Pattern::Function {
                            with_params(st.parse, ts_params_of(n.name, p.params, st.imports))
                        } else {
                            st.parse
                        },
                        f.name,
                        n,
                    ),
                    imports: st.imports,
                },
                None => st,
            },
            None => st,
        },
    }
}

/// A TypeScript file's matches applied in order.
pub open spec fn ts_fold(f: NodeModel, ms: Seq<MatchModel>) -> TsState
    decreases ms.len(),
{
    if ms.len() == 0 {
        TsState { parse: empty_model(), imports: Seq::empty() }
    } else {
        ts_step(f, ts_fold(f, ms.drop_last()), ms.last())
    }
}

/// The definitions, imports and parameter types of a TypeScript file, from the
/// matches of its definition query in order, as `ts_fold` states.
pub fn parse_typescript(file_node: &Node, matches: &Vec<QueryMatch>) -> (r: FileParse)
    ensures
        r.wf(file_node@.name),
        fp_model(r) == ts_fold(file_node@, match_views(matches@)).parse,
{
    let ghost f = file_node@;
    let ghost ms = match_views(matches@);
    let mut out = empty_parse();
    proof {
        lemma_empty_wf(file_node@.name, out);
    }
    let mut import_names: Vec<(String, String)> = Vec::new();
    assert(pair_views(import_names@) =~= Seq::<(Seq<char>, Seq<char>)>::empty());
    let mut i: usize = 0;
    while i < matches.len()
        invariant
            0 <= i <= matches@.len(),
            f == file_node@,
            ms == match_views(matches@),
            out.wf(file_node@.name),
            fp_model(out) == ts_fold(f, ms.subrange(0, i as int)).parse,
            pair_views(import_names@) == ts_fold(f, ms.subrange(0, i as int)).imports,
        decreases matches@.len() - i,
    {
        let m = &matches[i];
        assert(ms.subrange(0, i + 1).drop_last() =~= ms.subrange(0, i as int));
        assert(ms.subrange(0, i + 1).last() == m@);
        let ghost st = ts_fold(f, ms.subrange(0, i as int));
        let parts = collect_parts(&m.captures);
        match m.pattern {
            Pattern::Import => {
                if let Some(source) = &m.source_path {
                    if source.as_str().unicode_len() > 0 {
                        let imp = pending_import_from_captures(&parts.imports, source);
                        assert(imp@ == ts_import_of(parts_view(parts), source@));
                        if imp.alias.is_some() || imp.symbol.is_some() {
                            let ghost before = import_names@;
                            import_names.push((imp.import_name(), source.clone()));
                            assert(pair_views(import_names@) =~= pair_views(before).push(
                                (import_name_of(imp@), source@),
                            ));
                        }
                        let ghost before = out.pending_imports@;
                        out.pending_imports.push(imp);
                        assert(out.pending_imports@.map_values(|x: PendingImport| x@) =~= before.map_values(
                            |x: PendingImport| x@,
                        ).push(imp@));
                    }
                }
            },
            Pattern::Method => {
                if let (Some(class), Some(method)) = (&parts.parent, &parts.name) {
                    let name = member_name(file_node, class, method);
                    let class_name = def_name(file_node, class);
                    if let Some(node) = definition_node(file_node, &parts, NodeType::Function, name) {
                        collect_ts_params(&mut out, &node.name, &parts.params, &import_names);
                        place(file_node, &mut out, &class_name, node);
                    }
                }
            },
            _ => {
                if let Some(symbol) = &parts.name {
                    let name = def_name(file_node, symbol);
                    let t = node_type_of(m.pattern);
                    if let Some(node) = definition_node(file_node, &parts, t, name) {
                        if m.pattern == Pattern::Function {
                            collect_ts_params(&mut out, &node.name, &parts.params, &import_names);
                        }
                        place(file_node, &mut out, &file_node.name, node);
                    }
                }
            },
        }
        i = i + 1;
    }
    assert(ms.subrange(0, matches@.len() as int) =~= ms);
    out
}

/// Records the parameter types `params` of the function `func`, as
/// `ts_params_of` states.
fn collect_ts_params(out: &mut FileParse, func: &String, params: &Vec<String>, imports: &Vec<(String, String)>)
    ensures
        fp_model(*final(out)) == with_params(fp_model(*old(out)), ts_params_of(func@, views(params@), pair_views(imports@))),
        final(out).nodes == old(out).nodes,
        final(out).edges == old(out).edges,
{
    let ghost m0 = fp_model(*out);
    let ghost pv = views(params@);
    let ghost iv = pair_views(imports@);
    let mut j: usize = 0;
    assert(m0.params + Seq::<(Seq<char>, ParamTypeModel)>::empty() =~= m0.params);
    while j < params.len()
        invariant
            0 <= j <= params@.len(),
            pv == views(params@),
            iv == pair_views(imports@),
            out.nodes == old(out).nodes,
            out.edges == old(out).edges,
            out.pending_imports == old(out).pending_imports,
            fp_model(*out) == with_params(m0, ts_params_of(func@, pv.subrange(0, j as int), iv)),
        decreases params@.len() - j,
    {
        assert(pv.subrange(0, j + 1).drop_last() =~= pv.subrange(0, j as int));
        assert(pv.subrange(0, j + 1).last() == params@[j as int]@);
        let types = parse_func_param_types(func, &params[j], imports);
        let ghost recs = ts_param_records(func@, params@[j as int]@, iv);
        assert(recs.len() == types@.len()) by {
            assert(crate::typescript::param_views(types@).len() == types@.len());
        }
        assert forall|x: int| 0 <= x < types@.len() implies recs[x] == (func@, types@[x]@) by {
            assert(crate::typescript::param_views(types@)[x] == types@[x]@);
        }
        let ghost base = ref_views(out.param_types@);
        let mut k: usize = 0;
        while k < types.len()
            invariant
                0 <= k <= types@.len(),
                out.nodes == old(out).nodes,
                out.edges == old(out).edges,
                out.pending_imports == old(out).pending_imports,
                recs.len() == types@.len(),
                forall|x: int| 0 <= x < types@.len() ==> recs[x] == (func@, types@[x]@),
                ref_views(out.param_types@) == base + recs.subrange(0, k as int),
            decreases types@.len() - k,
        {
            let ghost before = out.param_types@;
            let item = (func.clone(), types[k].duplicate());
            out.param_types.push(item);
            assert(ref_views(out.param_types@) =~= ref_views(before).push((func@, types@[k as int]@)));
            assert(recs.subrange(0, k + 1) =~= recs.subrange(0, k as int).push(recs[k as int]));
            k = k + 1;
        }
        assert(recs.subrange(0, types@.len() as int) =~= recs);
        assert(ts_params_of(func@, pv.subrange(0, j + 1), iv) =~= ts_params_of(func@, pv.subrange(0, j as int), iv) + recs);
        assert(with_params(m0, ts_params_of(func@, pv.subrange(0, j + 1), iv)).params =~= base + recs);
        j = j + 1;
    }
    assert(pv.subrange(0, params@.len() as int) =~= pv);
}

/// The import edges of the Go import specs `texts`, in order.
pub open spec fn go_import_edges_of(f: NodeModel, texts: Seq<Seq<char>>, module: Seq<char>) -> Seq<EdgeModel>
    decreases texts.len(),
{
    if texts.len() == 0 {
        Seq::empty()
    } else {
        go_import_edges_of(f, texts.drop_last(), module) + opt_seq(go_import_edge_of(f, texts.last(), module))
    }
}

/// The parameter records of the Go parameter types `texts` of `func`, given the
/// edges so far, in order.
pub open spec fn go_params_of(func: Seq<char>, texts: Seq<Seq<char>>, edges: Seq<EdgeModel>) -> Seq<
    (Seq<char>, ParamTypeModel),
>
    decreases texts.len(),
{
    if texts.len() == 0 {
        Seq::empty()
    } else {
        go_params_of(func, texts.drop_last(), edges) + match go_param_type_of(func, texts.last(), edges) {
            Some(p) => seq![(func, p)],
            None => Seq::empty(),
        }
    }
}

/// The definition a Go function or method goes under: for a function, the struct
/// named by its first return type, where that struct is declared earlier in the
/// file (a constructor); for a method, its receiver type, where that type is
/// declared earlier in the same file. A receiver declared in another file of the
/// package, or later in this one, leaves the method under the file.
pub open spec fn go_owner(f: NodeModel, m: ParseModel, q: MatchModel, p: PartsModel) -> Option<Seq<char>> {
    let t = if q.pattern == Pattern::Function {
        p.ret
    } else {
        p.receiver
    };
    match t {
        Some(t) => if has_name(m.nodes, f.name + ":"@ + t) && (q.pattern != Pattern::Function
            || m.nodes[find_index(m.nodes, f.name + ":"@ + t)].typ == NodeType::Class) {
            Some(t)
        } else {
            None
        },
        None => None,
    }
}

/// One Go match applied: imports inside the module become edges to their
/// directories; a function or method is named `<file>:<Struct>.<name>` and placed
/// under the struct where `go_owner` finds one, else `<file>:<name>` under the
/// file, and records its parameter types; other named definitions go under the
/// file.
pub open spec fn go_step(f: NodeModel, m: ParseModel, q: MatchModel, module: Option<Seq<char>>) -> ParseModel {
    let p = parts_of(q.captures);
    match q.pattern {
        Pattern::Import => match module {
            Some(mp) => ParseModel { edges: m.edges + go_import_edges_of(f, p.import_paths, mp), ..m },
            None => m,
        },
        Pattern::Function | Pattern::Method => match p.name {
            Some(sym) => {
                let owner = go_owner(f, m, q, p);
                let name = match owner {
                    Some(t) => f.name + ":"@ + t + "."@ + sym,
                    None => f.name + ":"@ + sym,
                };
                let parent = match owner {
                    Some(t) => f.name + ":"@ + t,
                    None => f.name,
                };
                match def_node_of(f, p, NodeType::Function, name) {
                    Some(n) => place_spec(f, with_params(m, go_params_of(n.name, p.params, m.edges)), parent, n),
                    None => m,
                }
            },
            None => m,
        },
        _ => match p.name {
            Some(sym) => match def_node_of(f, p, node_type_of_pattern(q.pattern), f.name + ":"@ + sym) {
                Some(n) => place_spec(f, m, f.name, n),
                None => m,
            },
            None => m,
        },
    }
}

proof fn lemma_def_name_prefix(f: Seq<char>, rest: Seq<char>)
    requires
        rest.len() > 0,
    ensures
        is_def_name(f, f + ":"@ + rest),
{
    reveal_strlit(":");
    assert((f + ":"@ + rest).subrange(0, f.len() + 1 as int) =~= f + ":"@);
}

/// A Go function or method match with a name and a definition leaves its node
/// among the nodes, however many matches the same definition has, and always
/// adds the parameter records of its parameter types.
pub proof fn law_go_definition_kept(f: NodeModel, m: ParseModel, q: MatchModel, module: Option<Seq<char>>)
    requires
        q.pattern == Pattern::Function || q.pattern == Pattern::Method,
        parts_of(q.captures).name is Some,
        parts_of(q.captures).name.unwrap().len() > 0,
        parts_of(q.captures).def is Some,
    ensures
        ({
            let p = parts_of(q.captures);
            let sym = p.name.unwrap();
            let name = match go_owner(f, m, q, p) {
                Some(t) => f.name + ":"@ + t + "."@ + sym,
                None => f.name + ":"@ + sym,
            };
            &&& has_name(go_step(f, m, q, module).nodes, name)
            &&& go_step(f, m, q, module).params == m.params + go_params_of(name, p.params, m.edges)
        }),
{
    let p = parts_of(q.captures);
    let sym = p.name.unwrap();
    let owner = go_owner(f, m, q, p);
    let name = match owner {
        Some(t) => f.name + ":"@ + t + "."@ + sym,
        None => f.name + ":"@ + sym,
    };
    match owner {
        Some(t) => {
            assert(f.name + ":"@ + t + "."@ + sym =~= f.name + ":"@ + (t + "."@ + sym));
            lemma_def_name_prefix(f.name, t + "."@ + sym);
        },
        None => {
            lemma_def_name_prefix(f.name, sym);
        },
    }
    let n = def_node_of(f, p, NodeType::Function, name).unwrap();
    let m1 = with_params(m, go_params_of(n.name, p.params, m.edges));
    let r = go_step(f, m, q, module);
    if place_ok(f, m1, match owner { Some(t) => f.name + ":"@ + t, None => f.name }, n) {
        assert(r.nodes[m1.nodes.len() as int] == n);
    }
}

/// Every Go import edge comes from an import spec whose path lies inside the
/// repository's module: its target is the directory that the path maps to.
pub proof fn law_go_import_edges_inside_module(f: NodeModel, texts: Seq<Seq<char>>, module: Seq<char>)
    ensures
        forall|k: int|
            0 <= k < go_import_edges_of(f, texts, module).len() ==> exists|j: int|
                0 <= j < texts.len() && crate::util::module_file_path(
                    Seq::empty(),
                    module,
                    crate::go::go_import_path(texts[j]),
                ) == Some(#[trigger] go_import_edges_of(f, texts, module)[k].to.name) && go_import_edge_of(
                    f,
                    texts[j],
                    module,
                ) == Some(go_import_edges_of(f, texts, module)[k]),
    decreases texts.len(),
{
    if texts.len() > 0 {
        let prev = texts.drop_last();
        law_go_import_edges_inside_module(f, prev, module);
        let all = go_import_edges_of(f, texts, module);
        let pe = go_import_edges_of(f, prev, module);
        assert forall|k: int| 0 <= k < all.len() implies exists|j: int|
            0 <= j < texts.len() && crate::util::module_file_path(Seq::empty(), module, crate::go::go_import_path(texts[j]))
                == Some(#[trigger] all[k].to.name) && go_import_edge_of(f, texts[j], module) == Some(all[k]) by {
            if k < pe.len() {
                assert(all[k] == pe[k]);
                let j = choose|j: int|
                    0 <= j < prev.len() && crate::util::module_file_path(
                        Seq::empty(),
                        module,
                        crate::go::go_import_path(prev[j]),
                    ) == Some(pe[k].to.name) && go_import_edge_of(f, prev[j], module) == Some(pe[k]);
                assert(texts[j] == prev[j]);
            } else {
                assert(texts[texts.len() - 1] == texts.last());
            }
        }
    }
}

/// A file whose tree has a syntax error yields no matches, and no matches give
/// no definitions, edges, imports or parameter records in any language; merging
/// such a file adds nothing beyond its own walk entry.
pub proof fn law_failed_parse_adds_nothing(f: NodeModel, module: Option<Seq<char>>, g: crate::graph::GraphModel)
    ensures
        go_fold(f, Seq::empty(), module) == empty_model(),
        ts_fold(f, Seq::empty()).parse == empty_model(),
        py_fold(f, Seq::empty()) == empty_model(),
        crate::graph::merge_spec(g, Seq::empty()) == g,
{
}

/// Placing a definition keeps an adapter's output well formed.
pub proof fn lemma_place_wf(f: NodeModel, m: ParseModel, parent: Seq<char>, child: NodeModel)
    requires
        file_parse_wf(f.name, m.nodes, m.edges),
    ensures
        file_parse_wf(f.name, place_spec(f, m, parent, child).nodes, place_spec(f, m, parent, child).edges),
{
    if place_ok(f, m, parent, child) {
        let ns0 = m.nodes;
        let es0 = m.edges;
        let r = place_spec(f, m, parent, child);
        let ns = r.nodes;
        let es = r.edges;
        lemma_find_index(ns0, parent);
        let from = if parent == f.name { f } else { ns0[find_index(ns0, parent)] };
        assert(from.name == parent);
        assert(es.drop_last() =~= es0);
        assert forall|k: int| 0 <= k < es0.len() && es0[k].typ == EdgeType::Contains implies es0[k].to.name
            != child.name by {
            assert(has_name(ns0, es0[k].to.name));
        }
        lemma_contains_into_absent(es0, child.name);
        assert forall|i: int, j: int| 0 <= i < ns.len() && 0 <= j < ns.len() && i != j implies ns[i].name
            != ns[j].name by {
            if i == ns0.len() {
                assert(ns0[j] == ns[j]);
            } else if j == ns0.len() {
                assert(ns0[i] == ns[i]);
            } else {
                assert(ns0[i] == ns[i] && ns0[j] == ns[j]);
            }
        }
        assert forall|i: int| 0 <= i < ns.len() implies is_def_name(f.name, #[trigger] ns[i].name) by {
            if i < ns0.len() {
                assert(ns0[i] == ns[i]);
            }
        }
        assert forall|i: int| 0 <= i < ns.len() implies #[trigger] contains_into(es, ns[i].name) == 1 by {
            if i < ns0.len() {
                assert(ns0[i] == ns[i]);
                assert(contains_into(es0, ns0[i].name) == 1);
            }
        }
        assert forall|k: int| 0 <= k < es.len() && #[trigger] es[k].typ == EdgeType::Contains implies has_name(
            ns,
            es[k].to.name,
        ) && (es[k].from.name == f.name || has_name(ns, es[k].from.name)) by {
            if k < es0.len() {
                assert(es[k] == es0[k]);
                assert(has_name(ns0, es0[k].to.name));
                let a = choose|a: int| 0 <= a < ns0.len() && ns0[a].name == es0[k].to.name;
                assert(ns[a] == ns0[a]);
                if es0[k].from.name != f.name {
                    let b = choose|b: int| 0 <= b < ns0.len() && ns0[b].name == es0[k].from.name;
                    assert(ns[b] == ns0[b]);
                }
            } else {
                assert(ns[ns0.len() as int] == child);
                if from.name != f.name {
                    let b = choose|b: int| 0 <= b < ns0.len() && ns0[b].name == from.name;
                    assert(ns[b] == ns0[b]);
                }
            }
        }
    }
}

/// Adding Go import edges keeps an adapter's output well formed.
proof fn lemma_import_edges_wf(f: NodeModel, m: ParseModel, texts: Seq<Seq<char>>, module: Seq<char>)
    requires
        file_parse_wf(f.name, m.nodes, m.edges),
    ensures
        file_parse_wf(f.name, m.nodes, m.edges + go_import_edges_of(f, texts, module)),
    decreases texts.len(),
{
    if texts.len() > 0 {
        lemma_import_edges_wf(f, m, texts.drop_last(), module);
        let prev = m.edges + go_import_edges_of(f, texts.drop_last(), module);
        let all = m.edges + go_import_edges_of(f, texts, module);
        match go_import_edge_of(f, texts.last(), module) {
            Some(e) => {
                assert(all =~= prev.push(e));
                assert(all.drop_last() =~= prev);
                assert forall|i: int| 0 <= i < m.nodes.len() implies #[trigger] contains_into(all, m.nodes[i].name) == 1 by {
                    assert(contains_into(prev, m.nodes[i].name) == 1);
                }
                assert forall|k: int| 0 <= k < all.len() && #[trigger] all[k].typ == EdgeType::Contains implies has_name(
                    m.nodes,
                    all[k].to.name,
                ) && (all[k].from.name == f.name || has_name(m.nodes, all[k].from.name)) by {
                    assert(all[k] == prev[k]);
                }
            },
            None => {
                assert(all =~= prev);
            },
        }
    }
}

/// In a Go file, however many matches a function or method has, its node is
/// among the nodes with exactly one `Contains` edge into it, the output stays
/// well formed, and the parameter records of every match are kept.
pub proof fn law_go_definition_single_container(f: NodeModel, m: ParseModel, q: MatchModel, module: Option<Seq<char>>)
    requires
        file_parse_wf(f.name, m.nodes, m.edges),
        q.pattern == Pattern::Function || q.pattern == Pattern::Method,
        parts_of(q.captures).name is Some,
        parts_of(q.captures).name.unwrap().len() > 0,
        parts_of(q.captures).def is Some,
    ensures
        ({
            let p = parts_of(q.captures);
            let sym = p.name.unwrap();
            let name = match go_owner(f, m, q, p) {
                Some(t) => f.name + ":"@ + t + "."@ + sym,
                None => f.name + ":"@ + sym,
            };
            let r = go_step(f, m, q, module);
            &&& file_parse_wf(f.name, r.nodes, r.edges)
            &&& has_name(r.nodes, name)
            &&& contains_into(r.edges, name) == 1
            &&& r.params == m.params + go_params_of(name, p.params, m.edges)
        }),
{
    let p = parts_of(q.captures);
    let sym = p.name.unwrap();
    let name = match go_owner(f, m, q, p) {
        Some(t) => f.name + ":"@ + t + "."@ + sym,
        None => f.name + ":"@ + sym,
    };
    law_go_definition_kept(f, m, q, module);
    let n = def_node_of(f, p, NodeType::Function, name).unwrap();
    let m1 = with_params(m, go_params_of(n.name, p.params, m.edges));
    let parent = match go_owner(f, m, q, p) { Some(t) => f.name + ":"@ + t, None => f.name };
    lemma_place_wf(f, m1, parent, n);
    let r = go_step(f, m, q, module);
    let i = choose|i: int| 0 <= i < r.nodes.len() && r.nodes[i].name == name;
    assert(contains_into(r.edges, r.nodes[i].name) == 1);
}

/// Each Go match keeps an adapter's output well formed.
pub proof fn lemma_go_step_wf(f: NodeModel, m: ParseModel, q: MatchModel, module: Option<Seq<char>>)
    requires
        file_parse_wf(f.name, m.nodes, m.edges),
    ensures
        file_parse_wf(f.name, go_step(f, m, q, module).nodes, go_step(f, m, q, module).edges),
{
    let p = parts_of(q.captures);
    match q.pattern {
        Pattern::Import => {
            if let Some(mp) = module {
                lemma_import_edges_wf(f, m, p.import_paths, mp);
            }
        },
        Pattern::Function | Pattern::Method => {
            if let Some(sym) = p.name {
                let owner = go_owner(f, m, q, p);
                let name = match owner {
                    Some(t) => f.name + ":"@ + t + "."@ + sym,
                    None => f.name + ":"@ + sym,
                };
                let parent = match owner { Some(t) => f.name + ":"@ + t, None => f.name };
                if let Some(n) = def_node_of(f, p, NodeType::Function, name) {
                    lemma_place_wf(f, with_params(m, go_params_of(n.name, p.params, m.edges)), parent, n);
                }
            }
        },
        _ => {
            if let Some(sym) = p.name {
                if let Some(n) = def_node_of(f, p, node_type_of_pattern(q.pattern), f.name + ":"@ + sym) {
                    lemma_place_wf(f, m, f.name, n);
                }
            }
        },
    }
}

/// A Go file's output, after any matches, has distinct definition names each
/// reached by exactly one `Contains` edge.
pub proof fn law_go_fold_wf(f: NodeModel, ms: Seq<MatchModel>, module: Option<Seq<char>>)
    ensures
        file_parse_wf(f.name, go_fold(f, ms, module).nodes, go_fold(f, ms, module).edges),
    decreases ms.len(),
{
    if ms.len() > 0 {
        law_go_fold_wf(f, ms.drop_last(), module);
        lemma_go_step_wf(f, go_fold(f, ms.drop_last(), module), ms.last(), module);
    }
}

/// A Go file's matches applied in order.
pub open spec fn go_fold(f: NodeModel, ms: Seq<MatchModel>, module: Option<Seq<char>>) -> ParseModel
    decreases ms.len(),
{
    if ms.len() == 0 {
        empty_model()
    } else {
        go_step(f, go_fold(f, ms.drop_last(), module), ms.last(), module)
    }
}

/// The definitions, import edges and parameter types of a Go file, from the
/// matches of its definition query in order, as `go_fold` states.
pub fn parse_go(file_node: &Node, matches: &Vec<QueryMatch>, go_module_path: &Option<String>) -> (r: FileParse)
    ensures
        r.wf(file_node@.name),
        fp_model(r) == go_fold(file_node@, match_views(matches@), crate::types::opt_view(*go_module_path)),
{
    let ghost f = file_node@;
    let ghost ms = match_views(matches@);
    let ghost md = crate::types::opt_view(*go_module_path);
    let mut out = empty_parse();
    proof {
        lemma_empty_wf(file_node@.name, out);
    }
    let mut i: usize = 0;
    while i < matches.len()
        invariant
            0 <= i <= matches@.len(),
            f == file_node@,
            ms == match_views(matches@),
            md == crate::types::opt_view(*go_module_path),
            out.wf(file_node@.name),
            fp_model(out) == go_fold(f, ms.subrange(0, i as int), md),
        decreases matches@.len() - i,
    {
        let m = &matches[i];
        assert(ms.subrange(0, i + 1).drop_last() =~= ms.subrange(0, i as int));
        assert(ms.subrange(0, i + 1).last() == m@);
        let ghost m0 = fp_model(out);
        let parts = collect_parts(&m.captures);
        match m.pattern {
            Pattern::Import => {
                if let Some(module) = go_module_path {
                    let ghost paths = views(parts.import_paths@);
                    let mut j: usize = 0;
                    assert(m0.edges + go_import_edges_of(f, paths.subrange(0, 0), module@) =~= m0.edges);
                    while j < parts.import_paths.len()
                        invariant
                            0 <= j <= parts.import_paths@.len(),
                            f == file_node@,
                            paths == views(parts.import_paths@),
                            out.wf(file_node@.name),
                            fp_model(out) == (ParseModel {
                                edges: m0.edges + go_import_edges_of(f, paths.subrange(0, j as int), module@),
                                ..m0
                            }),
                        decreases parts.import_paths@.len() - j,
                    {
                        assert(paths.subrange(0, j + 1).drop_last() =~= paths.subrange(0, j as int));
                        assert(paths.subrange(0, j + 1).last() == parts.import_paths@[j as int]@);
                        let ghost prev = go_import_edges_of(f, paths.subrange(0, j as int), module@);
                        assert(go_import_edges_of(f, paths.subrange(0, j + 1), module@) == prev + opt_seq(
                            go_import_edge_of(f, paths[j as int], module@),
                        ));
                        match go_import_edge(file_node, &parts.import_paths[j], module) {
                            Some(e) => {
                                let ghost ev = e@;
                                add_other_edge(file_node, &mut out, e);
                                assert(m0.edges + (prev + opt_seq(Some(ev))) =~= (m0.edges + prev).push(ev));
                            },
                            None => {
                                assert(m0.edges + (prev + opt_seq(None)) =~= m0.edges + prev);
                            },
                        }
                        j = j + 1;
                    }
                    assert(paths.subrange(0, parts.import_paths@.len() as int) =~= paths);
                }
            },
            Pattern::Function | Pattern::Method => {
                if let Some(symbol) = &parts.name {
                    let owner_type = if m.pattern == Pattern::Function {
                        &parts.ret
                    } else {
                        &parts.receiver
                    };
                    let owner = match owner_type {
                        Some(t) => {
                            let owner_name = def_name(file_node, t);
                            proof {
                                lemma_find_index(node_views(out.nodes@), owner_name@);
                            }
                            let at = position_of(&out.nodes, &owner_name);
                            let fits = match at {
                                Some(k) => {
                                    assert(node_views(out.nodes@)[k as int] == out.nodes@[k as int]@);
                                    m.pattern != Pattern::Function || out.nodes[k].node_type == NodeType::Class
                                },
                                None => false,
                            };
                            if fits {
                                Some((t.clone(), owner_name))
                            } else {
                                None
                            }
                        },
                        None => None,
                    };
                    let (name, parent) = match &owner {
                        Some((t, owner_name)) => (member_name(file_node, t, symbol), owner_name.clone()),
                        None => (def_name(file_node, symbol), file_node.name.clone()),
                    };
                    if let Some(node) = definition_node(file_node, &parts, NodeType::Function, name) {
                        let ghost texts = views(parts.params@);
                        let ghost es = m0.edges;
                        let mut j: usize = 0;
                        assert(m0.params + go_params_of(node@.name, texts.subrange(0, 0), es) =~= m0.params);
                        while j < parts.params.len()
                            invariant
                                0 <= j <= parts.params@.len(),
                                texts == views(parts.params@),
                                es == m0.edges,
                                out.wf(file_node@.name),
                                fp_model(out) == with_params(m0, go_params_of(node@.name, texts.subrange(0, j as int), es)),
                            decreases parts.params@.len() - j,
                        {
                            assert(texts.subrange(0, j + 1).drop_last() =~= texts.subrange(0, j as int));
                            assert(texts.subrange(0, j + 1).last() == parts.params@[j as int]@);
                            let ghost prev = go_params_of(node@.name, texts.subrange(0, j as int), es);
                            assert(edge_views(out.edges@) == es);
                            assert(go_params_of(node@.name, texts.subrange(0, j + 1), es) == prev + match go_param_type_of(
                                node@.name,
                                texts[j as int],
                                es,
                            ) {
                                Some(p) => seq![(node@.name, p)],
                                None => Seq::empty(),
                            });
                            if let Some(p) = parse_func_param_type(&node.name, &parts.params[j], &out.edges) {
                                let ghost before = out.param_types@;
                                let item = (node.name.clone(), p);
                                out.param_types.push(item);
                                assert(ref_views(out.param_types@) =~= ref_views(before).push((node@.name, item.1@)));
                                assert(m0.params + (prev + seq![(node@.name, item.1@)]) =~= (m0.params + prev).push(
                                    (node@.name, item.1@),
                                ));
                            } else {
                                assert(m0.params + (prev + Seq::<(Seq<char>, ParamTypeModel)>::empty()) =~= m0.params
                                    + prev);
                            }
                            j = j + 1;
                        }
                        assert(texts.subrange(0, parts.params@.len() as int) =~= texts);
                        place(file_node, &mut out, &parent, node);
                    }
                }
            },
            _ => {
                if let Some(symbol) = &parts.name {
                    let name = def_name(file_node, symbol);
                    if let Some(node) = definition_node(file_node, &parts, node_type_of(m.pattern), name) {
                        place(file_node, &mut out, &file_node.name, node);
                    }
                }
            },
        }
        i = i + 1;
    }
    assert(ms.subrange(0, matches@.len() as int) =~= ms);
    out
}

/// One Python match applied: a class match with a name and a definition becomes a
/// Class node `<file>:<Name>` with its code and lines and no skeleton, under the
/// file; nothing else is taken.
pub open spec fn py_step(f: NodeModel, m: ParseModel, q: MatchModel) -> ParseModel {
    let p = parts_of(q.captures);
    if q.pattern == Pattern::Class {
        match (p.name, p.def) {
            (Some(sym), Some(d)) => place_spec(
                f,
                m,
                f.name,
                NodeModel {
                    name: f.name + ":"@ + sym,
                    typ: NodeType::Class,
                    language: f.language,
                    start_line: d.1,
                    end_line: d.2,
                    code: d.0,
                    skeleton_code: Seq::empty(),
                },
            ),
            _ => m,
        }
    } else {
        m
    }
}

/// A Python file's matches applied in order.
pub open spec fn py_fold(f: NodeModel, ms: Seq<MatchModel>) -> ParseModel
    decreases ms.len(),
{
    if ms.len() == 0 {
        empty_model()
    } else {
        py_step(f, py_fold(f, ms.drop_last()), ms.last())
    }
}

/// The classes of a Python file, from the matches of its definition query, as
/// `py_fold` states.
pub fn parse_python(file_node: &Node, matches: &Vec<QueryMatch>) -> (r: FileParse)
    ensures
        r.wf(file_node@.name),
        fp_model(r) == py_fold(file_node@, match_views(matches@)),
{
    let ghost f = file_node@;
    let ghost ms = match_views(matches@);
    let mut out = empty_parse();
    proof {
        lemma_empty_wf(file_node@.name, out);
    }
    let mut i: usize = 0;
    while i < matches.len()
        invariant
            0 <= i <= matches@.len(),
            f == file_node@,
            ms == match_views(matches@),
            out.wf(file_node@.name),
            fp_model(out) == py_fold(f, ms.subrange(0, i as int)),
        decreases matches@.len() - i,
    {
        let m = &matches[i];
        assert(ms.subrange(0, i + 1).drop_last() =~= ms.subrange(0, i as int));
        assert(ms.subrange(0, i + 1).last() == m@);
        if m.pattern == Pattern::Class {
            let parts = collect_parts(&m.captures);
            if let (Some(symbol), Some((code, start_line, end_line, _))) = (&parts.name, &parts.def) {
                let node = Node {
                    name: def_name(file_node, symbol),
                    node_type: NodeType::Class,
                    language: file_node.language,
                    start_line: *start_line,
                    end_line: *end_line,
                    code: code.clone(),
                    skeleton_code: String::new(),
                };
                place(file_node, &mut out, &file_node.name, node);
            }
        }
        i = i + 1;
    }
    assert(ms.subrange(0, matches@.len() as int) =~= ms);
    out
}

} // verus!
