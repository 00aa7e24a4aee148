use vstd::prelude::*;

use crate::text::{
    after_first, after_last, before_first, char_vec, concat_str, find_first, find_last, has_char,
    last_index_of, lemma_first_index_bounds, lemma_first_index_of_join, lemma_last_index_bounds,
    lemma_split_first, lower_of, lowercase, slice_string, tail_after_last,
};

verus! {

/// The kind of a code entity.
#[derive(Debug, Clone, Copy, PartialEq, Eq, Structural, Hash)]
pub enum NodeType {
    Unparsed,
    Directory,
    File,
    Interface,
    Class,
    Function,
    OtherType,
}

/// The kind of a relation between two entities.
#[derive(Debug, Clone, Copy, PartialEq, Eq, Structural, Hash)]
pub enum EdgeType {
    Contains,
    Imports,
    Inherits,
    References,
}

/// The language a file is written in, as told by its extension.
#[derive(Debug, Clone, Copy, PartialEq, Eq, Structural, Hash)]
pub enum Language {
    Text,
    Python,
    Go,
    TypeScript,
}

/// The lower-case name of a node type, as used in relation identities.
pub open spec fn node_type_name(t: NodeType) -> Seq<char> {
    match t {
        NodeType::Unparsed => "unparsed"@,
        NodeType::Directory => "directory"@,
        NodeType::File => "file"@,
        NodeType::Interface => "interface"@,
        NodeType::Class => "class"@,
        NodeType::Function => "function"@,
        NodeType::OtherType => "othertype"@,
    }
}

/// The lower-case name of an edge type.
pub open spec fn edge_type_name(t: EdgeType) -> Seq<char> {
    match t {
        EdgeType::Contains => "contains"@,
        EdgeType::Imports => "imports"@,
        EdgeType::Inherits => "inherits"@,
        EdgeType::References => "references"@,
    }
}

impl NodeType {
    /// The lower-case name of this node type.
    pub fn name(&self) -> (r: &'static str)
        ensures
            r@ == node_type_name(*self),
    {
        match self {
            NodeType::Unparsed => "unparsed",
            NodeType::Directory => "directory",
            NodeType::File => "file",
            NodeType::Interface => "interface",
            NodeType::Class => "class",
            NodeType::Function => "function",
            NodeType::OtherType => "othertype",
        }
    }
}

impl EdgeType {
    /// The lower-case name of this edge type.
    pub fn name(&self) -> (r: &'static str)
        ensures
            r@ == edge_type_name(*self),
    {
        match self {
            EdgeType::Contains => "contains",
            EdgeType::Imports => "imports",
            EdgeType::Inherits => "inherits",
            EdgeType::References => "references",
        }
    }
}

/// The last component of a `/`-separated path.
pub open spec fn file_name_of(path: Seq<char>) -> Seq<char> {
    after_last(path, '/')
}

/// The extension of a path's last component: what follows its last `.`, where
/// that dot is not the component's first character.
pub open spec fn extension_of(path: Seq<char>) -> Option<Seq<char>> {
    let f = file_name_of(path);
    let k = last_index_of(f, '.');
    if k <= 0 {
        None
    } else {
        Some(f.subrange(k + 1, f.len() as int))
    }
}

/// The language that a file extension stands for.
pub open spec fn language_of_extension(ext: Option<Seq<char>>) -> Language {
    match ext {
        Some(e) => if e == "py"@ {
            Language::Python
        } else if e == "go"@ {
            Language::Go
        } else if e == "ts"@ {
            Language::TypeScript
        } else {
            Language::Text
        },
        None => Language::Text,
    }
}

/// Whether two character vectors are equal.
pub fn chars_eq(a: &Vec<char>, b: &Vec<char>) -> (r: bool)
    ensures
        r == (a@ == b@),
{
    if a.len() != b.len() {
        return false;
    }
    let mut i: usize = 0;
    while i < a.len()
        invariant
            0 <= i <= a@.len() == b@.len(),
            forall|j: int| 0 <= j < i ==> a@[j] == b@[j],
        decreases a@.len() - i,
    {
        if a[i] != b[i] {
            return false;
        }
        i = i + 1;
    }
    assert(a@ =~= b@);
    true
}

impl Language {
    /// The language of the file at `path`, by its extension: `.py`, `.go` and `.ts`
    /// are known, anything else is plain text.
    pub fn from_path(path: &str) -> (r: Language)
        ensures
            r == language_of_extension(extension_of(path@)),
    {
        let f = char_vec(tail_after_last(path, '/').as_str());
        proof {
            lemma_last_index_bounds(path@, '/');
        }
        proof {
            lemma_last_index_bounds(f@, '.');
        }
        let k = match find_last(&f, '.') {
            Some(k) => k,
            None => {
                return Language::Text;
            },
        };
        if k == 0 {
            return Language::Text;
        }
        let n = f.len();
        let ext = char_vec(slice_string(&f, k + 1, n).as_str());
        if chars_eq(&ext, &char_vec("py")) {
            Language::Python
        } else if chars_eq(&ext, &char_vec("go")) {
            Language::Go
        } else if chars_eq(&ext, &char_vec("ts")) {
            Language::TypeScript
        } else {
            Language::Text
        }
    }
}

/// A code entity: a directory, a file or a definition inside a file.
#[derive(Debug, Clone)]
pub struct Node {
    /// Unique identity: a repository-relative path, `<file>:<Symbol>` or
    /// `<file>:<Type>.<Method>`; the repository root is the empty string.
    pub name: String,
    pub node_type: NodeType,
    pub language: Language,
    /// First line, counted from 0.
    pub start_line: usize,
    /// Last line, counted from 0, inclusive.
    pub end_line: usize,
    /// The source text of the entity.
    pub code: String,
    /// The signature, with the body abbreviated.
    pub skeleton_code: String,
}

/// The value of a node.
pub struct NodeModel {
    pub name: Seq<char>,
    pub typ: NodeType,
    pub language: Language,
    pub start_line: nat,
    pub end_line: nat,
    pub code: Seq<char>,
    pub skeleton_code: Seq<char>,
}

impl View for Node {
    type V = NodeModel;

    open spec fn view(&self) -> NodeModel {
        NodeModel {
            name: self.name@,
            typ: self.node_type,
            language: self.language,
            start_line: self.start_line as nat,
            end_line: self.end_line as nat,
            code: self.code@,
            skeleton_code: self.skeleton_code@,
        }
    }
}

/// The trailing symbol of a node name: the method of `<file>:<Type>.<Method>`,
/// the symbol of `<file>:<Symbol>`, the last path component of a path.
pub open spec fn name_tail(name: Seq<char>) -> Seq<char> {
    if name.contains(':') {
        after_last(after_last(name, ':'), '.')
    } else {
        after_last(name, '/')
    }
}

/// The case-folded trailing symbol of a node name, used for type lookups.
pub open spec fn short_name_of(name: Seq<char>) -> Seq<char> {
    lower_of(name_tail(name))
}

impl Node {
    /// A node of the given type and name, with every other attribute empty.
    pub fn from_type_and_name(node_type: NodeType, name: String) -> (r: Node)
        ensures
            r@.name == name@,
            r@.typ == node_type,
            r@.language == Language::Text,
            r@.start_line == 0,
            r@.end_line == 0,
            r@.code == Seq::<char>::empty(),
            r@.skeleton_code == Seq::<char>::empty(),
    {
        Node {
            name,
            node_type,
            language: Language::Text,
            start_line: 0,
            end_line: 0,
            code: String::new(),
            skeleton_code: String::new(),
        }
    }

    /// The case-folded trailing symbol of this node's name.
    pub fn short_name(&self) -> (r: String)
        ensures
            r@ == short_name_of(self.name@),
    {
        if has_char(self.name.as_str(), ':') {
            let attr = tail_after_last(self.name.as_str(), ':');
            proof {
                lemma_last_index_bounds(self.name@, ':');
            }
            let tail = tail_after_last(attr.as_str(), '.');
            lowercase(tail.as_str())
        } else {
            let tail = tail_after_last(self.name.as_str(), '/');
            lowercase(tail.as_str())
        }
    }

    /// A copy of this node.
    pub fn copied(&self) -> (r: Node)
        ensures
            r@ == self@,
    {
        Node {
            name: self.name.clone(),
            node_type: self.node_type,
            language: self.language,
            start_line: self.start_line,
            end_line: self.end_line,
            code: self.code.clone(),
            skeleton_code: self.skeleton_code.clone(),
        }
    }
}

/// A copy of an optional string.
pub fn copy_opt(s: &Option<String>) -> (r: Option<String>)
    ensures
        opt_view(*s) == opt_view(r),
{
    match s {
        Some(v) => Some(v.clone()),
        None => None,
    }
}

/// The view of an optional string.
pub open spec fn opt_view(s: Option<String>) -> Option<Seq<char>> {
    match s {
        Some(v) => Some(v@),
        None => None,
    }
}

/// A typed, directed relation between two nodes.
#[derive(Debug, Clone)]
pub struct Edge {
    pub edge_type: EdgeType,
    pub from: Node,
    pub to: Node,
    /// The imported symbol's name where it is defined, on import relations.
    pub import: Option<String>,
    /// The local name bound by an import.
    pub alias: Option<String>,
}

/// The value of an edge.
pub struct EdgeModel {
    pub typ: EdgeType,
    pub from: NodeModel,
    pub to: NodeModel,
    pub import: Option<Seq<char>>,
    pub alias: Option<Seq<char>>,
}

impl View for Edge {
    type V = EdgeModel;

    open spec fn view(&self) -> EdgeModel {
        EdgeModel {
            typ: self.edge_type,
            from: self.from@,
            to: self.to@,
            import: opt_view(self.import),
            alias: opt_view(self.alias),
        }
    }
}

/// The views of a sequence of nodes.
pub open spec fn node_views(s: Seq<Node>) -> Seq<NodeModel> {
    s.map_values(|n: Node| n@)
}

/// The views of a sequence of edges.
pub open spec fn edge_views(s: Seq<Edge>) -> Seq<EdgeModel> {
    s.map_values(|e: Edge| e@)
}

/// The storage identity of the endpoint types of a relation: `<from>_<to>`.
pub open spec fn from_to_of(from: NodeType, to: NodeType) -> Seq<char> {
    node_type_name(from) + "_"@ + node_type_name(to)
}

impl Edge {
    /// A relation of type `t` from `from` to `to`, with no import or alias.
    pub fn between(t: EdgeType, from: &Node, to: &Node) -> (r: Edge)
        ensures
            r@.typ == t,
            r@.from == from@,
            r@.to == to@,
            r@.import is None,
            r@.alias is None,
    {
        Edge { edge_type: t, from: from.copied(), to: to.copied(), import: None, alias: None }
    }

    /// The endpoint types of this relation, `<from>_<to>` in lower case.
    pub fn from_to(&self) -> (r: String)
        ensures
            r@ == from_to_of(self.from.node_type, self.to.node_type),
    {
        let a = String::from_str(self.from.node_type.name());
        let b = concat_str(&a, "_");
        concat_str(&b, self.to.node_type.name())
    }

    /// A copy of this edge.
    pub fn copied(&self) -> (r: Edge)
        ensures
            r@ == self@,
    {
        Edge {
            edge_type: self.edge_type,
            from: self.from.copied(),
            to: self.to.copied(),
            import: copy_opt(&self.import),
            alias: copy_opt(&self.alias),
        }
    }
}

fn is_name(s: &Vec<char>, lit: &str) -> (r: bool)
    ensures
        r == (s@ == lit@),
{
    chars_eq(s, &char_vec(lit))
}

impl NodeType {
    /// The node type whose lower-case name is `s`, if any.
    pub fn from_name(s: &str) -> (r: Option<NodeType>)
        ensures
            match r {
                Some(t) => node_type_name(t) == s@,
                None => forall|t: NodeType| node_type_name(t) != s@,
            },
    {
        let v = char_vec(s);
        if is_name(&v, "unparsed") {
            Some(NodeType::Unparsed)
        } else if is_name(&v, "directory") {
            Some(NodeType::Directory)
        } else if is_name(&v, "file") {
            Some(NodeType::File)
        } else if is_name(&v, "interface") {
            Some(NodeType::Interface)
        } else if is_name(&v, "class") {
            Some(NodeType::Class)
        } else if is_name(&v, "function") {
            Some(NodeType::Function)
        } else if is_name(&v, "othertype") {
            Some(NodeType::OtherType)
        } else {
            None
        }
    }
}

impl EdgeType {
    /// The edge type whose lower-case name is `s`, if any.
    pub fn from_name(s: &str) -> (r: Option<EdgeType>)
        ensures
            match r {
                Some(t) => edge_type_name(t) == s@,
                None => forall|t: EdgeType| edge_type_name(t) != s@,
            },
    {
        let v = char_vec(s);
        if is_name(&v, "contains") {
            Some(EdgeType::Contains)
        } else if is_name(&v, "imports") {
            Some(EdgeType::Imports)
        } else if is_name(&v, "inherits") {
            Some(EdgeType::Inherits)
        } else if is_name(&v, "references") {
            Some(EdgeType::References)
        } else {
            None
        }
    }
}

proof fn lemma_no_underscore(t: NodeType)
    ensures
        !node_type_name(t).contains('_'),
{
    reveal_strlit("unparsed");
    reveal_strlit("directory");
    reveal_strlit("file");
    reveal_strlit("interface");
    reveal_strlit("class");
    reveal_strlit("function");
    reveal_strlit("othertype");
    let n = node_type_name(t);
    if n.contains('_') {
        let k = choose|k: int| 0 <= k < n.len() && n[k] == '_';
        assert(n[k] != '_');
    }
}

/// The endpoint types of a stored relation identity `<from>_<to>`, if it is one.
pub fn parse_from_to(s: &str) -> (r: Option<(NodeType, NodeType)>)
    ensures
        match r {
            Some((a, b)) => from_to_of(a, b) == s@,
            None => forall|a: NodeType, b: NodeType| from_to_of(a, b) != s@,
        },
{
    let v = char_vec(s);
    proof {
        reveal_strlit("_");
        lemma_first_index_bounds(v@, '_');
        assert forall|a: NodeType, b: NodeType| from_to_of(a, b) == s@ implies before_first(s@, '_')
            == node_type_name(a) && after_first(s@, '_') == node_type_name(b) by {
            lemma_no_underscore(a);
            assert("_"@ =~= seq!['_']);
            lemma_first_index_of_join(node_type_name(a), '_', node_type_name(b));
        }
    }
    let k = match find_first(&v, '_') {
        Some(k) => k,
        None => {
            proof {
                assert forall|a: NodeType, b: NodeType| from_to_of(a, b) != s@ by {
                    if from_to_of(a, b) == s@ {
                        assert("_"@ =~= seq!['_']);
                        assert(s@[node_type_name(a).len() as int] == '_');
                    }
                }
            }
            return None;
        },
    };
    let n = v.len();
    let from = slice_string(&v, 0, k);
    let to = slice_string(&v, k + 1, n);
    proof {
        assert(v@.contains('_'));
        lemma_split_first(v@, '_');
        assert("_"@ =~= seq!['_']);
    }
    match (NodeType::from_name(from.as_str()), NodeType::from_name(to.as_str())) {
        (Some(a), Some(b)) => Some((a, b)),
        _ => None,
    }
}

} // verus!
