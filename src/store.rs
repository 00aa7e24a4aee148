use vstd::prelude::*;

use crate::text::{char_vec, string_of, views};
use crate::types::{node_type_name, short_name_of, Edge, EdgeModel, EdgeType, Language, Node, NodeModel, NodeType};

verus! {

/// The lower-case hexadecimal digit of `d`, for `d < 16`.
pub open spec fn hex_digit(d: nat) -> char {
    seq!['0', '1', '2', '3', '4', '5', '6', '7', '8', '9', 'a', 'b', 'c', 'd', 'e', 'f'][d as int]
}

/// The decimal digit of `d`, for `d < 10`.
pub open spec fn dec_digit(d: nat) -> char {
    hex_digit(d)
}

/// The decimal representation of `n`, without leading zeros.
pub open spec fn decimal(n: nat) -> Seq<char>
    decreases n,
{
    if n < 10 {
        seq![dec_digit(n)]
    } else {
        decimal(n / 10).push(dec_digit(n % 10))
    }
}

/// How one character appears inside a double-quoted statement literal: quotes
/// and backslashes escaped, NUL, backspace and form feed as `\0`, `\b`, `\f`,
/// newline, carriage return and tab kept, other ASCII control characters as
/// `\xHH`.
pub open spec fn escape_char(c: char) -> Seq<char> {
    let u = c as u32;
    if c == '"' {
        seq!['\\', '"']
    } else if c == '\\' {
        seq!['\\', '\\']
    } else if u == 0 {
        seq!['\\', '0']
    } else if u == 8 {
        seq!['\\', 'b']
    } else if u == 12 {
        seq!['\\', 'f']
    } else if c == '\n' || c == '\r' || c == '\t' {
        seq![c]
    } else if u < 32 || u == 127 {
        seq!['\\', 'x', hex_digit((u / 16) as nat), hex_digit((u % 16) as nat)]
    } else {
        seq![c]
    }
}

/// Every character of `s` escaped in turn.
pub open spec fn escaped(s: Seq<char>) -> Seq<char>
    decreases s.len(),
{
    if s.len() == 0 {
        Seq::empty()
    } else {
        escaped(s.drop_last()) + escape_char(s.last())
    }
}

/// `s` as a double-quoted statement literal.
pub open spec fn quoted(s: Seq<char>) -> Seq<char> {
    seq!['"'] + escaped(s) + seq!['"']
}

fn hex_char(d: u32) -> (r: char)
    requires
        d < 16,
    ensures
        r == hex_digit(d as nat),
{
    match d {
        0 => '0',
        1 => '1',
        2 => '2',
        3 => '3',
        4 => '4',
        5 => '5',
        6 => '6',
        7 => '7',
        8 => '8',
        9 => '9',
        10 => 'a',
        11 => 'b',
        12 => 'c',
        13 => 'd',
        14 => 'e',
        _ => 'f',
    }
}

fn push_escaped(out: &mut Vec<char>, c: char)
    ensures
        final(out)@ == old(out)@ + escape_char(c),
{
    let ghost start = out@;
    let u = c as u32;
    if c == '"' {
        out.push('\\');
        out.push('"');
    } else if c == '\\' {
        out.push('\\');
        out.push('\\');
    } else if u == 0 {
        out.push('\\');
        out.push('0');
    } else if u == 8 {
        out.push('\\');
        out.push('b');
    } else if u == 12 {
        out.push('\\');
        out.push('f');
    } else if c == '\n' || c == '\r' || c == '\t' {
        out.push(c);
    } else if u < 32 || u == 127 {
        out.push('\\');
        out.push('x');
        out.push(hex_char(u / 16));
        out.push(hex_char(u % 16));
    } else {
        out.push(c);
    }
    assert(out@ =~= start + escape_char(c));
}

/// `s` as a double-quoted literal of a graph statement.
pub fn string_repr(s: &str) -> (r: String)
    ensures
        r@ == quoted(s@),
{
    let v = char_vec(s);
    let mut out: Vec<char> = Vec::new();
    out.push('"');
    let mut i: usize = 0;
    while i < v.len()
        invariant
            0 <= i <= v@.len(),
            out@ == seq!['"'] + escaped(v@.subrange(0, i as int)),
        decreases v@.len() - i,
    {
        assert(v@.subrange(0, i + 1).drop_last() =~= v@.subrange(0, i as int));
        assert(v@.subrange(0, i + 1).last() == v@[i as int]);
        push_escaped(&mut out, v[i]);
        assert(out@ =~= seq!['"'] + escaped(v@.subrange(0, i + 1)));
        i = i + 1;
    }
    assert(v@.subrange(0, v@.len() as int) =~= v@);
    out.push('"');
    string_of(out.as_slice())
}

fn push_decimal(out: &mut Vec<char>, n: usize)
    ensures
        final(out)@ == old(out)@ + decimal(n as nat),
    decreases n,
{
    if n >= 10 {
        push_decimal(out, n / 10);
    }
    out.push(hex_char((n % 10) as u32));
    assert(out@ =~= old(out)@ + decimal(n as nat));
}

/// The decimal representation of `n`.
pub fn decimal_string(n: usize) -> (r: String)
    ensures
        r@ == decimal(n as nat),
{
    let mut out: Vec<char> = Vec::new();
    push_decimal(&mut out, n);
    assert(out@ =~= decimal(n as nat));
    string_of(out.as_slice())
}

/// The name of the node table of a node type.
pub open spec fn table_name_of(t: NodeType) -> Seq<char> {
    match t {
        NodeType::Unparsed => "Unparsed"@,
        NodeType::Directory => "Directory"@,
        NodeType::File => "File"@,
        NodeType::Interface => "Interface"@,
        NodeType::Class => "Class"@,
        NodeType::Function => "Function"@,
        NodeType::OtherType => "OtherType"@,
    }
}

/// The name of the relation table of an edge type.
pub open spec fn relation_name_of(t: EdgeType) -> Seq<char> {
    match t {
        EdgeType::Contains => "CONTAINS"@,
        EdgeType::Imports => "IMPORTS"@,
        EdgeType::Inherits => "INHERITS"@,
        EdgeType::References => "REFERENCES"@,
    }
}

/// The stored name of a language.
pub open spec fn language_name_of(l: Language) -> Seq<char> {
    match l {
        Language::Text => "Text"@,
        Language::Python => "Python"@,
        Language::Go => "Go"@,
        Language::TypeScript => "TypeScript"@,
    }
}

/// The name of the node table of a node type.
pub fn table_name(t: NodeType) -> (r: &'static str)
    ensures
        r@ == table_name_of(t),
{
    match t {
        NodeType::Unparsed => "Unparsed",
        NodeType::Directory => "Directory",
        NodeType::File => "File",
        NodeType::Interface => "Interface",
        NodeType::Class => "Class",
        NodeType::Function => "Function",
        NodeType::OtherType => "OtherType",
    }
}

/// The name of the relation table of an edge type.
pub fn relation_name(t: EdgeType) -> (r: &'static str)
    ensures
        r@ == relation_name_of(t),
{
    match t {
        EdgeType::Contains => "CONTAINS",
        EdgeType::Imports => "IMPORTS",
        EdgeType::Inherits => "INHERITS",
        EdgeType::References => "REFERENCES",
    }
}

/// The stored name of a language.
pub fn language_name(l: Language) -> (r: &'static str)
    ensures
        r@ == language_name_of(l),
{
    match l {
        Language::Text => "Text",
        Language::Python => "Python",
        Language::Go => "Go",
        Language::TypeScript => "TypeScript",
    }
}

/// The attribute assignments that store a node, its name aside, given its short
/// name: type and short name for every node; language, code and skeleton for
/// files and definitions; line span for definitions.
pub open spec fn node_assignments_of(n: NodeModel, short: Seq<char>) -> Seq<char> {
    let base = "n.type = "@ + quoted(node_type_name(n.typ)) + ", n.short_name = "@ + quoted(short);
    let text = base + ", n.language = "@ + quoted(language_name_of(n.language)) + ", n.code = "@
        + quoted(n.code) + ", n.skeleton_code = "@ + quoted(n.skeleton_code);
    match n.typ {
        NodeType::Unparsed | NodeType::Directory => base,
        NodeType::File => text,
        _ => text + ", n.start_line = "@ + decimal(n.start_line) + ", n.end_line = "@ + decimal(
            n.end_line,
        ),
    }
}

/// The statement that creates or updates a node by name.
pub open spec fn merge_node_statement_of(n: NodeModel, short: Seq<char>) -> Seq<char> {
    "MERGE (n:"@ + table_name_of(n.typ) + " { name: "@ + quoted(n.name) + " }) ON CREATE SET "@
        + node_assignments_of(n, short) + " ON MATCH SET "@ + node_assignments_of(n, short)
}

fn append(out: &mut String, s: &str)
    ensures
        final(out)@ == old(out)@ + s@,
{
    out.append(s);
}

/// The attribute assignments that store `node`, with `short` as its short name,
/// as `node_assignments_of` states.
pub fn node_assignments(node: &Node, short: &String) -> (r: String)
    ensures
        r@ == node_assignments_of(node@, short@),
{
    let mut out = String::from_str("n.type = ");
    append(&mut out, string_repr(node.node_type.name()).as_str());
    append(&mut out, ", n.short_name = ");
    append(&mut out, string_repr(short.as_str()).as_str());
    if node.node_type == NodeType::Unparsed || node.node_type == NodeType::Directory {
        return out;
    }
    append(&mut out, ", n.language = ");
    append(&mut out, string_repr(language_name(node.language)).as_str());
    append(&mut out, ", n.code = ");
    append(&mut out, string_repr(node.code.as_str()).as_str());
    append(&mut out, ", n.skeleton_code = ");
    append(&mut out, string_repr(node.skeleton_code.as_str()).as_str());
    if node.node_type == NodeType::File {
        return out;
    }
    append(&mut out, ", n.start_line = ");
    append(&mut out, decimal_string(node.start_line).as_str());
    append(&mut out, ", n.end_line = ");
    append(&mut out, decimal_string(node.end_line).as_str());
    out
}

/// The statement that creates or updates `node`, with `short` as its short name,
/// as `merge_node_statement_of` states.
pub fn merge_node_statement_with(node: &Node, short: &String) -> (r: String)
    ensures
        r@ == merge_node_statement_of(node@, short@),
{
    let set = node_assignments(node, short);
    let mut out = String::from_str("MERGE (n:");
    append(&mut out, table_name(node.node_type));
    append(&mut out, " { name: ");
    append(&mut out, string_repr(node.name.as_str()).as_str());
    append(&mut out, " }) ON CREATE SET ");
    append(&mut out, set.as_str());
    append(&mut out, " ON MATCH SET ");
    append(&mut out, set.as_str());
    out
}

/// The statement that creates or updates `node` by name.
pub fn merge_node_statement(node: &Node) -> (r: String)
    ensures
        r@ == merge_node_statement_of(node@, short_name_of(node@.name)),
{
    merge_node_statement_with(node, &node.short_name())
}

/// A statement literal for an optional string: quoted, or `null`.
pub open spec fn opt_literal(s: Option<Seq<char>>) -> Seq<char> {
    match s {
        Some(v) => quoted(v),
        None => "null"@,
    }
}

/// The attribute assignments that store an edge: its endpoint types, and for
/// imports the import and alias.
pub open spec fn edge_assignments_of(e: crate::types::EdgeModel) -> Seq<char> {
    let base = "e.type = "@ + quoted(crate::types::from_to_of(e.from.typ, e.to.typ));
    if e.typ == EdgeType::Imports {
        base + ", e.import = "@ + opt_literal(e.import) + ", e.alias = "@ + opt_literal(e.alias)
    } else {
        base
    }
}

/// The statement that creates or updates an edge between two stored nodes.
pub open spec fn merge_edge_statement_of(e: crate::types::EdgeModel) -> Seq<char> {
    "MATCH (a:"@ + table_name_of(e.from.typ) + "), (b:"@ + table_name_of(e.to.typ)
        + ") WHERE a.name = "@ + quoted(e.from.name) + " AND b.name = "@ + quoted(e.to.name)
        + " MERGE (a)-[e:"@ + relation_name_of(e.typ) + "]->(b) ON CREATE SET "@
        + edge_assignments_of(e) + " ON MATCH SET "@ + edge_assignments_of(e)
}

fn opt_literal_string(s: &Option<String>) -> (r: String)
    ensures
        r@ == opt_literal(crate::types::opt_view(*s)),
{
    match s {
        Some(v) => string_repr(v.as_str()),
        None => String::from_str("null"),
    }
}

/// The statement that creates or updates `edge`, as `merge_edge_statement_of`
/// states.
pub fn merge_edge_statement(edge: &Edge) -> (r: String)
    ensures
        r@ == merge_edge_statement_of(edge@),
{
    let mut set = String::from_str("e.type = ");
    append(&mut set, string_repr(edge.from_to().as_str()).as_str());
    if edge.edge_type == EdgeType::Imports {
        append(&mut set, ", e.import = ");
        append(&mut set, opt_literal_string(&edge.import).as_str());
        append(&mut set, ", e.alias = ");
        append(&mut set, opt_literal_string(&edge.alias).as_str());
    }
    let mut out = String::from_str("MATCH (a:");
    append(&mut out, table_name(edge.from.node_type));
    append(&mut out, "), (b:");
    append(&mut out, table_name(edge.to.node_type));
    append(&mut out, ") WHERE a.name = ");
    append(&mut out, string_repr(edge.from.name.as_str()).as_str());
    append(&mut out, " AND b.name = ");
    append(&mut out, string_repr(edge.to.name.as_str()).as_str());
    append(&mut out, " MERGE (a)-[e:");
    append(&mut out, relation_name(edge.edge_type));
    append(&mut out, "]->(b) ON CREATE SET ");
    append(&mut out, set.as_str());
    append(&mut out, " ON MATCH SET ");
    append(&mut out, set.as_str());
    out
}

/// The items of `names` quoted and joined by `, ` inside brackets.
pub open spec fn list_body(names: Seq<Seq<char>>) -> Seq<char>
    decreases names.len(),
{
    if names.len() == 0 {
        Seq::empty()
    } else if names.len() == 1 {
        quoted(names[0])
    } else {
        list_body(names.drop_last()) + ", "@ + quoted(names.last())
    }
}

/// A list literal of quoted strings.
pub open spec fn list_literal(names: Seq<Seq<char>>) -> Seq<char> {
    "["@ + list_body(names) + "]"@
}

/// The list literal of `names`, as `list_literal` states.
pub fn string_list(names: &Vec<String>) -> (r: String)
    ensures
        r@ == list_literal(views(names@)),
{
    let ghost nv = views(names@);
    let mut body = String::new();
    let mut i: usize = 0;
    while i < names.len()
        invariant
            0 <= i <= names@.len(),
            nv == views(names@),
            body@ == list_body(nv.subrange(0, i as int)),
        decreases names@.len() - i,
    {
        let ghost pre = nv.subrange(0, i + 1);
        assert(pre.drop_last() =~= nv.subrange(0, i as int));
        assert(pre.last() == names@[i as int]@);
        if i > 0 {
            append(&mut body, ", ");
        } else {
            assert(pre =~= seq![names@[0]@]);
        }
        append(&mut body, string_repr(names[i].as_str()).as_str());
        i = i + 1;
    }
    assert(nv.subrange(0, names@.len() as int) =~= nv);
    let mut out = String::from_str("[");
    append(&mut out, body.as_str());
    append(&mut out, "]");
    out
}

/// The statement that removes the nodes named in `names` with every edge
/// touching them.
pub fn delete_nodes_statement(names: &Vec<String>) -> (r: String)
    ensures
        r@ == "MATCH (n) WHERE n.name IN "@ + list_literal(views(names@)) + " DETACH DELETE n"@,
{
    let mut out = String::from_str("MATCH (n) WHERE n.name IN ");
    append(&mut out, string_list(names).as_str());
    append(&mut out, " DETACH DELETE n");
    out
}

/// The statement that looks up, under the node named `owner`, the nodes
/// `depth` `Contains` steps down whose short name is one of `short_names`.
pub fn lookup_statement(owner: &String, depth: usize, short_names: &Vec<String>) -> (r: String)
    ensures
        r@ == "MATCH (o { name: "@ + quoted(owner@) + " }) MATCH (o)-[:CONTAINS*"@ + decimal(
            depth as nat,
        ) + "]->(typ) WHERE typ.short_name IN "@ + list_literal(views(short_names@))
            + " RETURN typ"@,
{
    let mut out = String::from_str("MATCH (o { name: ");
    append(&mut out, string_repr(owner.as_str()).as_str());
    append(&mut out, " }) MATCH (o)-[:CONTAINS*");
    append(&mut out, decimal_string(depth).as_str());
    append(&mut out, "]->(typ) WHERE typ.short_name IN ");
    append(&mut out, string_list(short_names).as_str());
    append(&mut out, " RETURN typ");
    out
}

/// The statement that finds the definitions of the file named `file`: the nodes
/// one or two `Contains` steps below it.
pub fn file_definitions_statement(file: &String) -> (r: String)
    ensures
        r@ == "MATCH (file)-[:CONTAINS*1..2]->(def) WHERE file.name = "@ + quoted(file@) + " RETURN def"@,
{
    let mut out = String::from_str("MATCH (file)-[:CONTAINS*1..2]->(def) WHERE file.name = ");
    append(&mut out, string_repr(file.as_str()).as_str());
    append(&mut out, " RETURN def");
    out
}

/// The statement that removes every edge leaving a node named in `names`.
pub fn delete_outgoing_edges_statement(names: &Vec<String>) -> (r: String)
    ensures
        r@ == "MATCH (a)-[e]->() WHERE a.name IN "@ + list_literal(views(names@)) + " DELETE e"@,
{
    let mut out = String::from_str("MATCH (a)-[e]->() WHERE a.name IN ");
    append(&mut out, string_list(names).as_str());
    append(&mut out, " DELETE e");
    out
}

/// The statement that finds the types referenced by the parameters of the
/// functions of the file named `file` whose span strictly encloses line `line`,
/// each with the skeletons of its methods.
pub fn param_types_statement(file: &String, line: usize) -> (r: String)
    ensures
        r@ == "MATCH (file { name: "@ + quoted(file@)
            + " }) MATCH (file)-[:CONTAINS*1..2]->(func) MATCH (func)-[:REFERENCES]->(typ) WHERE func.start_line < "@
            + decimal(line as nat) + " AND func.end_line > "@ + decimal(line as nat)
            + " OPTIONAL MATCH (typ)-[r:CONTAINS]->(meth) RETURN typ.language, typ.type, typ.name, typ.start_line, typ.end_line, typ.code, typ.skeleton_code, COLLECT(meth.skeleton_code) AS methods"@,
{
    let n = decimal_string(line);
    let mut out = String::from_str("MATCH (file { name: ");
    append(&mut out, string_repr(file.as_str()).as_str());
    append(
        &mut out,
        " }) MATCH (file)-[:CONTAINS*1..2]->(func) MATCH (func)-[:REFERENCES]->(typ) WHERE func.start_line < ",
    );
    append(&mut out, n.as_str());
    append(&mut out, " AND func.end_line > ");
    append(&mut out, n.as_str());
    append(
        &mut out,
        " OPTIONAL MATCH (typ)-[r:CONTAINS]->(meth) RETURN typ.language, typ.type, typ.name, typ.start_line, typ.end_line, typ.code, typ.skeleton_code, COLLECT(meth.skeleton_code) AS methods",
    );
    out
}

/// The name under which a node is staged for bulk loading: the root, whose name
/// is empty, as `.`.
pub open spec fn staged_name_of(name: Seq<char>) -> Seq<char> {
    if name.len() == 0 {
        "."@
    } else {
        name
    }
}

/// The name under which a node is staged for bulk loading.
pub fn staged_name(name: &String) -> (r: String)
    ensures
        r@ == staged_name_of(name@),
{
    if name.as_str().unicode_len() == 0 {
        String::from_str(".")
    } else {
        name.clone()
    }
}

/// The node name a stored name stands for: `.` is the root.
pub open spec fn stored_name_of(name: Seq<char>) -> Seq<char> {
    if name == "."@ {
        Seq::empty()
    } else {
        name
    }
}

/// The node name a stored name stands for.
pub fn stored_name(name: &String) -> (r: String)
    ensures
        r@ == stored_name_of(name@),
{
    if *name == String::from_str(".") {
        String::new()
    } else {
        name.clone()
    }
}

/// Staging a name and reading it back gives it unchanged, for every name but
/// `.` itself.
pub proof fn law_staged_name_round_trip(name: Seq<char>)
    requires
        name != "."@,
    ensures
        stored_name_of(staged_name_of(name)) == name,
{
}

/// The storage group of an edge: its type and the types of its endpoints.
pub open spec fn group_key(e: EdgeModel) -> (EdgeType, NodeType, NodeType) {
    (e.typ, e.from.typ, e.to.typ)
}

/// Index of the first group with key `k`, or -1.
pub open spec fn group_index(g: Seq<(EdgeType, NodeType, NodeType, Seq<EdgeModel>)>, k: (EdgeType, NodeType, NodeType)) -> int
    decreases g.len(),
{
    if g.len() == 0 {
        -1
    } else if (g[0].0, g[0].1, g[0].2) == k {
        0
    } else if group_index(g.drop_first(), k) < 0 {
        -1
    } else {
        group_index(g.drop_first(), k) + 1
    }
}

/// The edges grouped by storage group, in order of first appearance, each group
/// keeping the order of its edges.
pub open spec fn groups_of(es: Seq<EdgeModel>) -> Seq<(EdgeType, NodeType, NodeType, Seq<EdgeModel>)>
    decreases es.len(),
{
    if es.len() == 0 {
        Seq::empty()
    } else {
        let g = groups_of(es.drop_last());
        let e = es.last();
        let k = group_key(e);
        let i = group_index(g, k);
        if i >= 0 {
            g.update(i, (k.0, k.1, k.2, g[i].3.push(e)))
        } else {
            g.push((k.0, k.1, k.2, seq![e]))
        }
    }
}

proof fn lemma_group_index(g: Seq<(EdgeType, NodeType, NodeType, Seq<EdgeModel>)>, k: (EdgeType, NodeType, NodeType), a: int)
    requires
        0 <= a <= g.len(),
        forall|j: int| 0 <= j < a ==> (g[j].0, g[j].1, g[j].2) != k,
        a < g.len() ==> (g[a].0, g[a].1, g[a].2) == k,
    ensures
        group_index(g, k) == if a < g.len() { a } else { -1 },
    decreases g.len(),
{
    if g.len() > 0 && a > 0 {
        assert forall|j: int| 0 <= j < a - 1 implies (g.drop_first()[j].0, g.drop_first()[j].1, g.drop_first()[j].2) != k by {
            assert(g.drop_first()[j] == g[j + 1]);
        }
        if a < g.len() {
            assert(g.drop_first()[a - 1] == g[a]);
        }
        lemma_group_index(g.drop_first(), k, a - 1);
        assert((g[0].0, g[0].1, g[0].2) != k);
    }
}

/// A copy of a sequence of edges.
fn copy_edges(v: &Vec<Edge>) -> (r: Vec<Edge>)
    ensures
        crate::types::edge_views(r@) == crate::types::edge_views(v@),
{
    let mut out: Vec<Edge> = Vec::new();
    let mut i: usize = 0;
    while i < v.len()
        invariant
            0 <= i <= v@.len(),
            crate::types::edge_views(out@) == crate::types::edge_views(v@).subrange(0, i as int),
        decreases v@.len() - i,
    {
        let ghost before = out@;
        out.push(v[i].copied());
        assert(crate::types::edge_views(out@) =~= crate::types::edge_views(before).push(v@[i as int]@));
        assert(crate::types::edge_views(v@).subrange(0, i + 1) =~= crate::types::edge_views(v@).subrange(0, i as int).push(v@[i as int]@));
        i = i + 1;
    }
    assert(crate::types::edge_views(v@).subrange(0, v@.len() as int) =~= crate::types::edge_views(v@));
    out
}

/// The views of edge groups.
pub open spec fn group_views(g: Seq<(EdgeType, NodeType, NodeType, Vec<Edge>)>) -> Seq<(EdgeType, NodeType, NodeType, Seq<EdgeModel>)> {
    g.map_values(|x: (EdgeType, NodeType, NodeType, Vec<Edge>)| (x.0, x.1, x.2, crate::types::edge_views(x.3@)))
}

/// The edges grouped by storage group (edge type, source type, target type), as
/// `groups_of` states: one group per key, in order of first appearance, each
/// edge in the group of its key, in input order.
pub fn relation_groups(edges: &Vec<Edge>) -> (r: Vec<(EdgeType, NodeType, NodeType, Vec<Edge>)>)
    ensures
        group_views(r@) == groups_of(crate::types::edge_views(edges@)),
{
    let ghost ev = crate::types::edge_views(edges@);
    let mut out: Vec<(EdgeType, NodeType, NodeType, Vec<Edge>)> = Vec::new();
    let mut i: usize = 0;
    while i < edges.len()
        invariant
            0 <= i <= edges@.len(),
            ev == crate::types::edge_views(edges@),
            group_views(out@) == groups_of(ev.subrange(0, i as int)),
        decreases edges@.len() - i,
    {
        let e = &edges[i];
        assert(ev.subrange(0, i + 1).drop_last() =~= ev.subrange(0, i as int));
        assert(ev.subrange(0, i + 1).last() == e@);
        let ghost g0 = group_views(out@);
        let ghost k = group_key(e@);
        let mut a: usize = 0;
        while a < out.len() && !(out[a].0 == e.edge_type && out[a].1 == e.from.node_type && out[a].2 == e.to.node_type)
            invariant
                0 <= a <= out@.len(),
                g0 == group_views(out@),
                k == group_key(e@),
                forall|j: int| 0 <= j < a ==> (g0[j].0, g0[j].1, g0[j].2) != k,
            decreases out@.len() - a,
        {
            assert(g0[a as int] == (out@[a as int].0, out@[a as int].1, out@[a as int].2, crate::types::edge_views(out@[a as int].3@)));
            assert(k == (e@.typ, e@.from.typ, e@.to.typ));
            assert(!(out@[a as int].0 == e@.typ && out@[a as int].1 == e@.from.typ && out@[a as int].2 == e@.to.typ));
            assert((g0[a as int].0, g0[a as int].1, g0[a as int].2) != k);
            a = a + 1;
        }
        proof {
            if a < out@.len() {
                assert(g0[a as int] == (out@[a as int].0, out@[a as int].1, out@[a as int].2, crate::types::edge_views(out@[a as int].3@)));
            }
            lemma_group_index(g0, k, a as int);
        }
        if a < out.len() {
            let ghost gv = g0[a as int].3;
            assert(crate::types::edge_views(out@[a as int].3@) == gv);
            let mut group = copy_edges(&out[a].3);
            group.push(e.copied());
            assert(crate::types::edge_views(group@) =~= gv.push(e@));
            out.set(a, (e.edge_type, e.from.node_type, e.to.node_type, group));
            assert(group_views(out@) =~= g0.update(a as int, (k.0, k.1, k.2, gv.push(e@))));
        } else {
            let mut group: Vec<Edge> = Vec::new();
            group.push(e.copied());
            assert(crate::types::edge_views(group@) =~= seq![e@]);
            out.push((e.edge_type, e.from.node_type, e.to.node_type, group));
            assert(group_views(out@) =~= g0.push((k.0, k.1, k.2, seq![e@])));
        }
        i = i + 1;
    }
    assert(ev.subrange(0, edges@.len() as int) =~= ev);
    out
}

/// An optional text as a staged field: empty where absent.
pub open spec fn field_of(s: Option<Seq<char>>) -> Seq<char> {
    match s {
        Some(v) => v,
        None => Seq::empty(),
    }
}

/// The staged fields of an edge, in the column order of its table: source and
/// target names (the root as `.`), the endpoint types, and for imports the
/// import and alias.
pub open spec fn relation_row_of(e: EdgeModel) -> Seq<Seq<char>> {
    let base = seq![staged_name_of(e.from.name), staged_name_of(e.to.name), crate::types::from_to_of(e.from.typ, e.to.typ)];
    if e.typ == EdgeType::Imports {
        base + seq![field_of(e.import), field_of(e.alias)]
    } else {
        base
    }
}

/// The views of staged rows.
pub open spec fn row_views(r: Seq<Vec<String>>) -> Seq<Seq<Seq<char>>> {
    r.map_values(|x: Vec<String>| views(x@))
}

fn field_string(s: &Option<String>) -> (r: String)
    ensures
        r@ == field_of(crate::types::opt_view(*s)),
{
    match s {
        Some(v) => v.clone(),
        None => String::new(),
    }
}

/// The staged row of one edge, as `relation_row_of` states.
pub fn relation_row(e: &Edge) -> (r: Vec<String>)
    ensures
        views(r@) == relation_row_of(e@),
{
    let mut row: Vec<String> = Vec::new();
    row.push(staged_name(&e.from.name));
    row.push(staged_name(&e.to.name));
    row.push(e.from_to());
    if e.edge_type == EdgeType::Imports {
        row.push(field_string(&e.import));
        row.push(field_string(&e.alias));
    }
    assert(views(row@) =~= relation_row_of(e@));
    row
}

/// The staged rows of `edges`, one per edge, in order.
pub fn relation_rows(edges: &Vec<Edge>) -> (r: Vec<Vec<String>>)
    ensures
        row_views(r@) == crate::types::edge_views(edges@).map_values(|e: EdgeModel| relation_row_of(e)),
{
    let ghost ev = crate::types::edge_views(edges@);
    let mut out: Vec<Vec<String>> = Vec::new();
    let mut i: usize = 0;
    while i < edges.len()
        invariant
            0 <= i <= edges@.len(),
            ev == crate::types::edge_views(edges@),
            row_views(out@) == ev.subrange(0, i as int).map_values(|e: EdgeModel| relation_row_of(e)),
        decreases edges@.len() - i,
    {
        let ghost before = out@;
        let row = relation_row(&edges[i]);
        out.push(row);
        assert(row_views(out@) =~= row_views(before).push(relation_row_of(edges@[i as int]@)));
        assert(ev.subrange(0, i + 1).map_values(|e: EdgeModel| relation_row_of(e)) =~= ev.subrange(0, i as int).map_values(
            |e: EdgeModel| relation_row_of(e),
        ).push(relation_row_of(ev[i as int])));
        i = i + 1;
    }
    assert(ev.subrange(0, edges@.len() as int) =~= ev);
    out
}

/// The edge type whose relation table is named `s`, if any.
pub fn relation_type(s: &str) -> (r: Option<EdgeType>)
    ensures
        match r {
            Some(t) => relation_name_of(t) == s@,
            None => forall|t: EdgeType| relation_name_of(t) != s@,
        },
{
    let v = char_vec(s);
    if crate::types::chars_eq(&v, &char_vec("CONTAINS")) {
        Some(EdgeType::Contains)
    } else if crate::types::chars_eq(&v, &char_vec("IMPORTS")) {
        Some(EdgeType::Imports)
    } else if crate::types::chars_eq(&v, &char_vec("INHERITS")) {
        Some(EdgeType::Inherits)
    } else if crate::types::chars_eq(&v, &char_vec("REFERENCES")) {
        Some(EdgeType::References)
    } else {
        None
    }
}

/// The edge a stored row stands for: the relation table `rel`, the endpoint
/// names (`.` read back as the root) and types, the import and alias; `None`
/// where the table or a type is unknown.
pub fn edge_from_row(
    rel: &str,
    from_name: &String,
    from_type: &str,
    to_name: &String,
    to_type: &str,
    import: Option<String>,
    alias: Option<String>,
) -> (r: Option<Edge>)
    ensures
        r is None <==> ((forall|t: EdgeType| relation_name_of(t) != rel@) || (forall|t: NodeType|
            node_type_name(t) != from_type@) || (forall|t: NodeType| node_type_name(t) != to_type@)),
        r matches Some(e) ==> {
            &&& relation_name_of(e@.typ) == rel@
            &&& node_type_name(e@.from.typ) == from_type@
            &&& node_type_name(e@.to.typ) == to_type@
            &&& e@.from == crate::go::bare_node(e@.from.typ, stored_name_of(from_name@))
            &&& e@.to == crate::go::bare_node(e@.to.typ, stored_name_of(to_name@))
            &&& e@.import == crate::types::opt_view(import)
            &&& e@.alias == crate::types::opt_view(alias)
        },
{
    match (relation_type(rel), NodeType::from_name(from_type), NodeType::from_name(to_type)) {
        (Some(t), Some(a), Some(b)) => {
            let from = Node::from_type_and_name(a, stored_name(from_name));
            let to = Node::from_type_and_name(b, stored_name(to_name));
            let e = Edge { edge_type: t, from, to, import, alias };
            assert(e@.from == crate::go::bare_node(a, stored_name_of(from_name@)));
            assert(e@.to == crate::go::bare_node(b, stored_name_of(to_name@)));
            Some(e)
        },
        _ => None,
    }
}

/// Index of the first node group of type `t`, or -1.
pub open spec fn node_group_index(g: Seq<(NodeType, Seq<NodeModel>)>, t: NodeType) -> int
    decreases g.len(),
{
    if g.len() == 0 {
        -1
    } else if g[0].0 == t {
        0
    } else if node_group_index(g.drop_first(), t) < 0 {
        -1
    } else {
        node_group_index(g.drop_first(), t) + 1
    }
}

/// The nodes grouped by node type (one table each), in order of first
/// appearance, each group keeping the order of its nodes.
pub open spec fn node_groups_of(ns: Seq<NodeModel>) -> Seq<(NodeType, Seq<NodeModel>)>
    decreases ns.len(),
{
    if ns.len() == 0 {
        Seq::empty()
    } else {
        let g = node_groups_of(ns.drop_last());
        let n = ns.last();
        let i = node_group_index(g, n.typ);
        if i >= 0 {
            g.update(i, (n.typ, g[i].1.push(n)))
        } else {
            g.push((n.typ, seq![n]))
        }
    }
}

proof fn lemma_node_group_index(g: Seq<(NodeType, Seq<NodeModel>)>, t: NodeType, a: int)
    requires
        0 <= a <= g.len(),
        forall|j: int| 0 <= j < a ==> g[j].0 != t,
        a < g.len() ==> g[a].0 == t,
    ensures
        node_group_index(g, t) == if a < g.len() { a } else { -1 },
    decreases g.len(),
{
    if g.len() > 0 && a > 0 {
        assert forall|j: int| 0 <= j < a - 1 implies g.drop_first()[j].0 != t by {
            assert(g.drop_first()[j] == g[j + 1]);
        }
        if a < g.len() {
            assert(g.drop_first()[a - 1] == g[a]);
        }
        lemma_node_group_index(g.drop_first(), t, a - 1);
    }
}

/// The views of node groups.
pub open spec fn node_group_views(g: Seq<(NodeType, Vec<Node>)>) -> Seq<(NodeType, Seq<NodeModel>)> {
    g.map_values(|x: (NodeType, Vec<Node>)| (x.0, crate::types::node_views(x.1@)))
}

fn copy_nodes(v: &Vec<Node>) -> (r: Vec<Node>)
    ensures
        crate::types::node_views(r@) == crate::types::node_views(v@),
{
    let mut out: Vec<Node> = Vec::new();
    let mut i: usize = 0;
    while i < v.len()
        invariant
            0 <= i <= v@.len(),
            crate::types::node_views(out@) == crate::types::node_views(v@).subrange(0, i as int),
        decreases v@.len() - i,
    {
        let ghost before = out@;
        out.push(v[i].copied());
        assert(crate::types::node_views(out@) =~= crate::types::node_views(before).push(v@[i as int]@));
        assert(crate::types::node_views(v@).subrange(0, i + 1) =~= crate::types::node_views(v@).subrange(0, i as int).push(v@[i as int]@));
        i = i + 1;
    }
    assert(crate::types::node_views(v@).subrange(0, v@.len() as int) =~= crate::types::node_views(v@));
    out
}

/// The nodes grouped by node type, as `node_groups_of` states: one group per
/// type, in order of first appearance, each node in the group of its type, in
/// input order.
pub fn node_groups(nodes: &Vec<Node>) -> (r: Vec<(NodeType, Vec<Node>)>)
    ensures
        node_group_views(r@) == node_groups_of(crate::types::node_views(nodes@)),
{
    let ghost nv = crate::types::node_views(nodes@);
    let mut out: Vec<(NodeType, Vec<Node>)> = Vec::new();
    let mut i: usize = 0;
    while i < nodes.len()
        invariant
            0 <= i <= nodes@.len(),
            nv == crate::types::node_views(nodes@),
            node_group_views(out@) == node_groups_of(nv.subrange(0, i as int)),
        decreases nodes@.len() - i,
    {
        let n = &nodes[i];
        assert(nv.subrange(0, i + 1).drop_last() =~= nv.subrange(0, i as int));
        assert(nv.subrange(0, i + 1).last() == n@);
        let ghost g0 = node_group_views(out@);
        let mut a: usize = 0;
        while a < out.len() && out[a].0 != n.node_type
            invariant
                0 <= a <= out@.len(),
                g0 == node_group_views(out@),
                forall|j: int| 0 <= j < a ==> g0[j].0 != n@.typ,
            decreases out@.len() - a,
        {
            assert(g0[a as int].0 == out@[a as int].0);
            a = a + 1;
        }
        proof {
            if a < out@.len() {
                assert(g0[a as int].0 == out@[a as int].0);
            }
            lemma_node_group_index(g0, n@.typ, a as int);
        }
        if a < out.len() {
            let ghost gv = g0[a as int].1;
            assert(crate::types::node_views(out@[a as int].1@) == gv);
            let mut group = copy_nodes(&out[a].1);
            group.push(n.copied());
            assert(crate::types::node_views(group@) =~= gv.push(n@));
            out.set(a, (n.node_type, group));
            assert(node_group_views(out@) =~= g0.update(a as int, (n@.typ, gv.push(n@))));
        } else {
            let mut group: Vec<Node> = Vec::new();
            group.push(n.copied());
            assert(crate::types::node_views(group@) =~= seq![n@]);
            out.push((n.node_type, group));
            assert(node_group_views(out@) =~= g0.push((n@.typ, seq![n@])));
        }
        i = i + 1;
    }
    assert(nv.subrange(0, nodes@.len() as int) =~= nv);
    out
}

/// The staged fields of a node with short name `short`, in the column order of
/// its table: name (the root as `.`), type and short name; for files and
/// definitions language, code and skeleton; for definitions the line span.
pub open spec fn node_row_of(n: NodeModel, short: Seq<char>) -> Seq<Seq<char>> {
    let base = seq![staged_name_of(n.name), node_type_name(n.typ), short];
    let text = base + seq![language_name_of(n.language), n.code, n.skeleton_code];
    match n.typ {
        NodeType::Unparsed | NodeType::Directory => base,
        NodeType::File => text,
        _ => text + seq![decimal(n.start_line), decimal(n.end_line)],
    }
}

/// The staged row of `node` with short name `short`, as `node_row_of` states.
pub fn node_row_with(node: &Node, short: &String) -> (r: Vec<String>)
    ensures
        views(r@) == node_row_of(node@, short@),
{
    let mut row: Vec<String> = Vec::new();
    row.push(staged_name(&node.name));
    row.push(String::from_str(node.node_type.name()));
    row.push(short.clone());
    if node.node_type == NodeType::Unparsed || node.node_type == NodeType::Directory {
        assert(views(row@) =~= node_row_of(node@, short@));
        return row;
    }
    row.push(String::from_str(language_name(node.language)));
    row.push(node.code.clone());
    row.push(node.skeleton_code.clone());
    if node.node_type == NodeType::File {
        assert(views(row@) =~= node_row_of(node@, short@));
        return row;
    }
    row.push(decimal_string(node.start_line));
    row.push(decimal_string(node.end_line));
    assert(views(row@) =~= node_row_of(node@, short@));
    row
}

/// The staged row of `node`.
pub fn node_row(node: &Node) -> (r: Vec<String>)
    ensures
        views(r@) == node_row_of(node@, short_name_of(node@.name)),
{
    node_row_with(node, &node.short_name())
}

/// The language whose stored name is `s`, if any.
pub fn language_from_name(s: &str) -> (r: Option<Language>)
    ensures
        match r {
            Some(l) => language_name_of(l) == s@,
            None => forall|l: Language| language_name_of(l) != s@,
        },
{
    let v = char_vec(s);
    if crate::types::chars_eq(&v, &char_vec("Text")) {
        Some(Language::Text)
    } else if crate::types::chars_eq(&v, &char_vec("Python")) {
        Some(Language::Python)
    } else if crate::types::chars_eq(&v, &char_vec("Go")) {
        Some(Language::Go)
    } else if crate::types::chars_eq(&v, &char_vec("TypeScript")) {
        Some(Language::TypeScript)
    } else {
        None
    }
}

/// The node a stored row stands for: its type and language by their stored
/// names, its name with `.` read back as the root; `None` where the type or the
/// language is unknown.
pub fn node_from_row(
    node_type: &str,
    name: &String,
    language: &str,
    start_line: usize,
    end_line: usize,
    code: String,
    skeleton_code: String,
) -> (r: Option<Node>)
    ensures
        r is None <==> ((forall|t: NodeType| node_type_name(t) != node_type@) || (forall|l: Language|
            language_name_of(l) != language@)),
        r matches Some(n) ==> {
            &&& node_type_name(n@.typ) == node_type@
            &&& language_name_of(n@.language) == language@
            &&& n@.name == stored_name_of(name@)
            &&& n@.start_line == start_line
            &&& n@.end_line == end_line
            &&& n@.code == code@
            &&& n@.skeleton_code == skeleton_code@
        },
{
    match (NodeType::from_name(node_type), language_from_name(language)) {
        (Some(t), Some(l)) => Some(
            Node { name: stored_name(name), node_type: t, language: l, start_line, end_line, code, skeleton_code },
        ),
        _ => None,
    }
}

} // verus!
