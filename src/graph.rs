use vstd::prelude::*;

use crate::text::{char_vec, slice_string, views};
use crate::types::{edge_views, node_views, Edge, EdgeModel, EdgeType, Node, NodeModel, NodeType};

verus! {

/// Nodes and edges accumulated while indexing.
pub struct Graph {
    pub nodes: Vec<Node>,
    pub edges: Vec<Edge>,
}

/// The value of a graph.
pub struct GraphModel {
    pub nodes: Seq<NodeModel>,
    pub edges: Seq<EdgeModel>,
}

impl View for Graph {
    type V = GraphModel;

    open spec fn view(&self) -> GraphModel {
        GraphModel { nodes: node_views(self.nodes@), edges: edge_views(self.edges@) }
    }
}

/// Index of the first node named `name`, or -1.
pub open spec fn find_index(ns: Seq<NodeModel>, name: Seq<char>) -> int
    decreases ns.len(),
{
    if ns.len() == 0 {
        -1
    } else if find_index(ns.drop_last(), name) >= 0 {
        find_index(ns.drop_last(), name)
    } else if ns.last().name == name {
        ns.len() - 1
    } else {
        -1
    }
}

/// Whether some node is named `name`.
pub open spec fn has_name(ns: Seq<NodeModel>, name: Seq<char>) -> bool {
    exists|i: int| 0 <= i < ns.len() && ns[i].name == name
}

/// No two nodes share a name.
pub open spec fn names_unique(ns: Seq<NodeModel>) -> bool {
    forall|i: int, j: int| 0 <= i < ns.len() && 0 <= j < ns.len() && i != j ==> ns[i].name != ns[j].name
}

/// The number of `Contains` edges into the node named `name`.
pub open spec fn contains_into(es: Seq<EdgeModel>, name: Seq<char>) -> nat
    decreases es.len(),
{
    if es.len() == 0 {
        0
    } else {
        contains_into(es.drop_last(), name) + if es.last().typ == EdgeType::Contains
            && es.last().to.name == name {
            1nat
        } else {
            0nat
        }
    }
}

/// The number of `Contains` edges from the node named `from` to the node named `to`.
pub open spec fn contains_between(es: Seq<EdgeModel>, from: Seq<char>, to: Seq<char>) -> nat
    decreases es.len(),
{
    if es.len() == 0 {
        0
    } else {
        contains_between(es.drop_last(), from, to) + if es.last().typ == EdgeType::Contains
            && es.last().from.name == from && es.last().to.name == to {
            1nat
        } else {
            0nat
        }
    }
}

/// Every edge joins two nodes of the graph.
pub open spec fn endpoints_exist(g: GraphModel) -> bool {
    forall|k: int|
        0 <= k < g.edges.len() ==> has_name(g.nodes, #[trigger] g.edges[k].from.name) && has_name(
            g.nodes,
            g.edges[k].to.name,
        )
}

/// The shape of an indexed repository: unique names, the root directory present, every
/// edge between nodes of the graph, and every node but the root reached by
/// exactly one `Contains` edge, the root by none.
pub open spec fn well_formed(g: GraphModel) -> bool {
    &&& names_unique(g.nodes)
    &&& has_name(g.nodes, Seq::empty())
    &&& exists|i: int| 0 <= i < g.nodes.len() && g.nodes[i].name.len() == 0 && g.nodes[i].typ == NodeType::Directory
    &&& endpoints_exist(g)
    &&& forall|i: int|
        0 <= i < g.nodes.len() ==> #[trigger] contains_into(g.edges, g.nodes[i].name) == if g.nodes[i].name.len()
            == 0 {
            0nat
        } else {
            1nat
        }
}

/// The graph with `child` placed under the node named `parent`, where the parent
/// exists and no node has the child's name yet; otherwise the graph unchanged.
pub open spec fn add_child_spec(g: GraphModel, parent: Seq<char>, child: NodeModel) -> GraphModel {
    if has_name(g.nodes, parent) && !has_name(g.nodes, child.name) && child.name.len() > 0 {
        GraphModel {
            nodes: g.nodes.push(child),
            edges: g.edges.push(
                EdgeModel {
                    typ: EdgeType::Contains,
                    from: g.nodes[find_index(g.nodes, parent)],
                    to: child,
                    import: None,
                    alias: None,
                },
            ),
        }
    } else {
        g
    }
}

/// The graph with the relation `e` added, where it is not a `Contains` edge and
/// both its endpoints are nodes of the graph; otherwise the graph unchanged.
pub open spec fn add_edge_spec(g: GraphModel, e: EdgeModel) -> GraphModel {
    if e.typ != EdgeType::Contains && has_name(g.nodes, e.from.name) && has_name(g.nodes, e.to.name) {
        GraphModel { nodes: g.nodes, edges: g.edges.push(e) }
    } else {
        g
    }
}

/// The graph with a file's edges merged in order: a `Contains` edge places its
/// target under its source, any other edge is added as `add_edge_spec` says.
pub open spec fn merge_spec(g: GraphModel, es: Seq<EdgeModel>) -> GraphModel
    decreases es.len(),
{
    if es.len() == 0 {
        g
    } else if es.last().typ == EdgeType::Contains {
        add_child_spec(merge_spec(g, es.drop_last()), es.last().from.name, es.last().to)
    } else {
        add_edge_spec(merge_spec(g, es.drop_last()), es.last())
    }
}

/// The graph with each of `es` added in order as `add_edge_spec` says.
pub open spec fn add_edges_spec(g: GraphModel, es: Seq<EdgeModel>) -> GraphModel
    decreases es.len(),
{
    if es.len() == 0 {
        g
    } else {
        add_edge_spec(add_edges_spec(g, es.drop_last()), es.last())
    }
}

/// The graph with the ancestor directories of `path` from position `k` on
/// placed in turn: each prefix of `path` that ends just before a `/` (other than
/// the empty one) becomes a Directory node under the previous one, starting
/// under `parent`; with the parent of `path` itself.
pub open spec fn entry_walk(g: GraphModel, path: Seq<char>, parent: Seq<char>, k: int) -> (GraphModel, Seq<char>)
    decreases path.len() - k,
{
    if k >= path.len() || k < 0 {
        (g, parent)
    } else if path[k] == '/' && k > 0 {
        let d = path.subrange(0, k);
        entry_walk(add_child_spec(g, parent, crate::go::bare_node(NodeType::Directory, d)), path, d, k + 1)
    } else {
        entry_walk(g, path, parent, k + 1)
    }
}

/// The graph with the walk entry `n` added: its missing ancestor directories
/// first, from the root down, then `n` under its parent directory.
pub open spec fn add_entry_spec(g: GraphModel, n: NodeModel) -> GraphModel {
    let w = entry_walk(g, n.name, Seq::empty(), 0);
    add_child_spec(w.0, w.1, n)
}

/// The file node a walk finds at the repository-relative path `name`.
pub open spec fn walked_file(name: Seq<char>) -> NodeModel {
    NodeModel {
        name,
        typ: NodeType::File,
        language: crate::types::language_of_extension(crate::types::extension_of(name)),
        start_line: 0,
        end_line: 0,
        code: Seq::empty(),
        skeleton_code: Seq::empty(),
    }
}

/// The graph after one walk entry: a directory adds nothing by itself (it enters
/// as the ancestor of a file); a file is added with its ancestors.
pub open spec fn walk_entry_spec(g: GraphModel, name: Seq<char>, is_dir: bool) -> GraphModel {
    if is_dir {
        g
    } else {
        add_entry_spec(g, walked_file(name))
    }
}

/// The graph after the walk entries `es`, in order.
pub open spec fn walk_spec(g: GraphModel, es: Seq<(Seq<char>, bool)>) -> GraphModel
    decreases es.len(),
{
    if es.len() == 0 {
        g
    } else {
        walk_entry_spec(walk_spec(g, es.drop_last()), es.last().0, es.last().1)
    }
}

/// A walk that finds no supported file, only directories, leaves the graph as it
/// was: from `Graph::new`, the root alone.
pub proof fn law_walk_without_files_keeps_root_only(g: GraphModel, es: Seq<(Seq<char>, bool)>)
    requires
        forall|i: int| 0 <= i < es.len() ==> es[i].1,
    ensures
        walk_spec(g, es) == g,
    decreases es.len(),
{
    if es.len() > 0 {
        assert(es[es.len() - 1].1);
        law_walk_without_files_keeps_root_only(g, es.drop_last());
    }
}

/// Whether the edge touches a node named in `names`.
pub open spec fn touches(e: EdgeModel, names: Seq<Seq<char>>) -> bool {
    names.contains(e.from.name) || names.contains(e.to.name)
}

/// The nodes not named in `names`, in order.
pub open spec fn keep_nodes(ns: Seq<NodeModel>, names: Seq<Seq<char>>) -> Seq<NodeModel>
    decreases ns.len(),
{
    if ns.len() == 0 {
        Seq::empty()
    } else if names.contains(ns.last().name) {
        keep_nodes(ns.drop_last(), names)
    } else {
        keep_nodes(ns.drop_last(), names).push(ns.last())
    }
}

/// The edges that touch no node named in `names`, in order.
pub open spec fn keep_edges(es: Seq<EdgeModel>, names: Seq<Seq<char>>) -> Seq<EdgeModel>
    decreases es.len(),
{
    if es.len() == 0 {
        Seq::empty()
    } else if touches(es.last(), names) {
        keep_edges(es.drop_last(), names)
    } else {
        keep_edges(es.drop_last(), names).push(es.last())
    }
}

pub proof fn lemma_find_index(ns: Seq<NodeModel>, name: Seq<char>)
    ensures
        -1 <= find_index(ns, name) < ns.len(),
        find_index(ns, name) >= 0 ==> ns[find_index(ns, name)].name == name,
        find_index(ns, name) < 0 <==> !has_name(ns, name),
    decreases ns.len(),
{
    if ns.len() > 0 {
        lemma_find_index(ns.drop_last(), name);
        if has_name(ns, name) && find_index(ns.drop_last(), name) < 0 {
            let i = choose|i: int| 0 <= i < ns.len() && ns[i].name == name;
            if i < ns.len() - 1 {
                assert(ns.drop_last()[i].name == name);
            }
        }
        if find_index(ns.drop_last(), name) >= 0 {
            let i = find_index(ns.drop_last(), name);
            assert(ns[i] == ns.drop_last()[i]);
        }
    }
}

proof fn lemma_contains_into_absent(es: Seq<EdgeModel>, name: Seq<char>)
    requires
        forall|k: int| 0 <= k < es.len() ==> es[k].to.name != name,
    ensures
        contains_into(es, name) == 0,
    decreases es.len(),
{
    if es.len() > 0 {
        lemma_contains_into_absent(es.drop_last(), name);
    }
}

proof fn lemma_between_le_into(es: Seq<EdgeModel>, from: Seq<char>, to: Seq<char>)
    ensures
        contains_between(es, from, to) <= contains_into(es, to),
    decreases es.len(),
{
    if es.len() > 0 {
        lemma_between_le_into(es.drop_last(), from, to);
    }
}

/// Placing a child keeps a graph well formed.
pub proof fn lemma_add_child_well_formed(g: GraphModel, parent: Seq<char>, child: NodeModel)
    requires
        well_formed(g),
    ensures
        well_formed(add_child_spec(g, parent, child)),
{
    let h = add_child_spec(g, parent, child);
    if h != g {
        lemma_find_index(g.nodes, parent);
        assert forall|k: int| 0 <= k < g.edges.len() implies g.edges[k].to.name != child.name by {
            assert(has_name(g.nodes, g.edges[k].from.name) && has_name(g.nodes, g.edges[k].to.name));
        }
        lemma_contains_into_absent(g.edges, child.name);
        assert(h.edges.drop_last() =~= g.edges);
        assert(h.nodes.drop_last() =~= g.nodes);
        assert forall|i: int, j: int|
            0 <= i < h.nodes.len() && 0 <= j < h.nodes.len() && i != j implies h.nodes[i].name
            != h.nodes[j].name by {
            if i == g.nodes.len() {
                assert(g.nodes[j] == h.nodes[j]);
            } else if j == g.nodes.len() {
                assert(g.nodes[i] == h.nodes[i]);
            }
        }
        let root = choose|i: int| 0 <= i < g.nodes.len() && g.nodes[i].name == Seq::<char>::empty();
        assert(h.nodes[root].name == Seq::<char>::empty());
        let rd = choose|i: int| 0 <= i < g.nodes.len() && g.nodes[i].name.len() == 0 && g.nodes[i].typ == NodeType::Directory;
        assert(h.nodes[rd] == g.nodes[rd]);
        assert forall|k: int| 0 <= k < h.edges.len() implies has_name(
            h.nodes,
            #[trigger] h.edges[k].from.name,
        ) && has_name(h.nodes, h.edges[k].to.name) by {
            if k < g.edges.len() {
                assert(h.edges[k] == g.edges[k]);
                let a = choose|i: int| 0 <= i < g.nodes.len() && g.nodes[i].name == g.edges[k].from.name;
                let b = choose|i: int| 0 <= i < g.nodes.len() && g.nodes[i].name == g.edges[k].to.name;
                assert(h.nodes[a] == g.nodes[a]);
                assert(h.nodes[b] == g.nodes[b]);
            } else {
                let p = find_index(g.nodes, parent);
                assert(h.nodes[p] == g.nodes[p]);
                assert(h.nodes[g.nodes.len() as int] == child);
            }
        }
        assert forall|i: int| 0 <= i < h.nodes.len() implies #[trigger] contains_into(
            h.edges,
            h.nodes[i].name,
        ) == if h.nodes[i].name.len() == 0 {
            0nat
        } else {
            1nat
        } by {
            if i < g.nodes.len() {
                assert(h.nodes[i] == g.nodes[i]);
                assert(contains_into(g.edges, g.nodes[i].name) == if g.nodes[i].name.len() == 0 {
                    0nat
                } else {
                    1nat
                });
            }
        }
    }
}

/// Adding a relation keeps a graph well formed.
pub proof fn lemma_add_edge_well_formed(g: GraphModel, e: EdgeModel)
    requires
        well_formed(g),
    ensures
        well_formed(add_edge_spec(g, e)),
{
    let h = add_edge_spec(g, e);
    if h != g {
        assert(h.edges.drop_last() =~= g.edges);
        assert forall|k: int| 0 <= k < h.edges.len() implies has_name(
            h.nodes,
            #[trigger] h.edges[k].from.name,
        ) && has_name(h.nodes, h.edges[k].to.name) by {
            if k < g.edges.len() {
                assert(h.edges[k] == g.edges[k]);
            }
        }
        assert forall|i: int| 0 <= i < h.nodes.len() implies #[trigger] contains_into(
            h.edges,
            h.nodes[i].name,
        ) == if h.nodes[i].name.len() == 0 {
            0nat
        } else {
            1nat
        } by {
            assert(contains_into(g.edges, g.nodes[i].name) == if g.nodes[i].name.len() == 0 {
                0nat
            } else {
                1nat
            });
        }
    }
}

/// In a graph built from the root by placing children and adding relations, every
/// node but the root is reached by exactly one `Contains` edge, and the root by
/// none.
pub proof fn law_single_container(g: GraphModel, parent: Seq<char>, child: NodeModel, e: EdgeModel)
    requires
        well_formed(g),
    ensures
        well_formed(add_child_spec(g, parent, child)),
        well_formed(add_edge_spec(g, e)),
        forall|i: int|
            0 <= i < g.nodes.len() ==> #[trigger] contains_into(g.edges, g.nodes[i].name) == if g.nodes[i].name.len()
                == 0 {
                0nat
            } else {
                1nat
            },
{
    lemma_add_child_well_formed(g, parent, child);
    lemma_add_edge_well_formed(g, e);
}

/// Placing the same definition under its file any number of times leaves exactly
/// one `Contains` edge from the file to it.
pub proof fn law_repeated_child_single_edge(g: GraphModel, parent: Seq<char>, child: NodeModel)
    requires
        well_formed(g),
        has_name(g.nodes, parent),
        !has_name(g.nodes, child.name),
        child.name.len() > 0,
    ensures
        add_child_spec(add_child_spec(g, parent, child), parent, child) == add_child_spec(g, parent, child),
        contains_between(add_child_spec(g, parent, child).edges, parent, child.name) == 1,
{
    let h = add_child_spec(g, parent, child);
    lemma_find_index(g.nodes, parent);
    assert(h.nodes[g.nodes.len() as int] == child);
    assert(has_name(h.nodes, child.name));
    lemma_add_child_well_formed(g, parent, child);
    assert(contains_into(h.edges, h.nodes[g.nodes.len() as int].name) == 1);
    lemma_between_le_into(g.edges, parent, child.name);
    assert forall|k: int| 0 <= k < g.edges.len() implies g.edges[k].to.name != child.name by {
        assert(has_name(g.nodes, g.edges[k].from.name) && has_name(g.nodes, g.edges[k].to.name));
    }
    lemma_contains_into_absent(g.edges, child.name);
    assert(h.edges.drop_last() =~= g.edges);
}

/// Removing nodes leaves no edge that touches any of them.
pub proof fn law_delete_leaves_no_incident_edge(es: Seq<EdgeModel>, names: Seq<Seq<char>>)
    ensures
        forall|k: int| 0 <= k < keep_edges(es, names).len() ==> !touches(#[trigger] keep_edges(es, names)[k], names),
    decreases es.len(),
{
    if es.len() > 0 {
        law_delete_leaves_no_incident_edge(es.drop_last(), names);
        let prev = keep_edges(es.drop_last(), names);
        assert forall|k: int| 0 <= k < keep_edges(es, names).len() implies !touches(
            #[trigger] keep_edges(es, names)[k],
            names,
        ) by {
            if k < prev.len() {
                assert(keep_edges(es, names)[k] == prev[k]);
            }
        }
    }
}

/// Whether `names` holds `s`.
fn holds_name(names: &Vec<String>, s: &String) -> (r: bool)
    ensures
        r == views(names@).contains(s@),
{
    let mut i: usize = 0;
    while i < names.len()
        invariant
            0 <= i <= names@.len(),
            forall|j: int| 0 <= j < i ==> names@[j]@ != s@,
        decreases names@.len() - i,
    {
        if names[i] == *s {
            assert(views(names@)[i as int] == s@);
            return true;
        }
        i = i + 1;
    }
    assert forall|j: int| 0 <= j < views(names@).len() implies views(names@)[j] != s@ by {
        assert(views(names@)[j] == names@[j]@);
    }
    false
}

impl Graph {
    /// The graph of an empty repository: the root directory alone.
    pub fn new() -> (r: Graph)
        ensures
            well_formed(r@),
            r@.nodes.len() == 1,
            r@.nodes[0].name.len() == 0,
            r@.nodes[0].typ == NodeType::Directory,
            r@.edges.len() == 0,
    {
        let root = Node::from_type_and_name(NodeType::Directory, String::new());
        let mut nodes: Vec<Node> = Vec::new();
        nodes.push(root);
        let g = Graph { nodes, edges: Vec::new() };
        assert(g@.nodes[0].name =~= Seq::<char>::empty());
        assert(contains_into(g@.edges, g@.nodes[0].name) == 0);
        g
    }

    /// Index of the node named `name`, as `find_index` states.
    pub fn find(&self, name: &String) -> (r: Option<usize>)
        ensures
            match r {
                Some(i) => i as int == find_index(self@.nodes, name@) && i < self@.nodes.len(),
                None => find_index(self@.nodes, name@) == -1,
            },
    {
        position_of(&self.nodes, name)
    }

    /// Places `child` under the node named `parent_name` with a `Contains` edge,
    /// where the parent exists and the child's name is new and not the root's;
    /// returns whether it was placed.
    pub fn add_child(&mut self, parent_name: &String, child: Node) -> (r: bool)
        requires
            well_formed(old(self)@),
        ensures
            final(self)@ == add_child_spec(old(self)@, parent_name@, child@),
            well_formed(final(self)@),
            r == (final(self)@ != old(self)@),
    {
        proof {
            lemma_add_child_well_formed(self@, parent_name@, child@);
            lemma_find_index(self@.nodes, parent_name@);
            lemma_find_index(self@.nodes, child@.name);
        }
        let p = match self.find(parent_name) {
            Some(p) => p,
            None => {
                return false;
            },
        };
        if self.find(&child.name).is_some() || child.name.as_str().unicode_len() == 0 {
            return false;
        }
        let edge = Edge::between(EdgeType::Contains, &self.nodes[p], &child);
        let ghost old_g = self@;
        self.nodes.push(child);
        self.edges.push(edge);
        assert(self@.nodes =~= old_g.nodes.push(child@));
        assert(self@.edges =~= old_g.edges.push(edge@));
        assert(self@.nodes.len() != old_g.nodes.len());
        true
    }

    /// Adds the relation `e` where it is not a `Contains` edge and both its
    /// endpoints are nodes of the graph; returns whether it was added.
    pub fn add_edge(&mut self, e: Edge) -> (r: bool)
        requires
            well_formed(old(self)@),
        ensures
            final(self)@ == add_edge_spec(old(self)@, e@),
            well_formed(final(self)@),
            r == (final(self)@ != old(self)@),
    {
        proof {
            lemma_add_edge_well_formed(self@, e@);
            lemma_find_index(self@.nodes, e@.from.name);
            lemma_find_index(self@.nodes, e@.to.name);
        }
        if e.edge_type == EdgeType::Contains || self.find(&e.from.name).is_none() || self.find(
            &e.to.name,
        ).is_none() {
            return false;
        }
        let ghost old_g = self@;
        self.edges.push(e);
        assert(self@.edges =~= old_g.edges.push(e@));
        assert(self@.edges.len() != old_g.edges.len());
        true
    }

    /// Adds the walk entry `node`, found at the repository-relative path
    /// `node.name`: each missing ancestor directory is created first, then the
    /// node is placed under its parent directory (the root where the path has no
    /// `/`). A path already present is left as it is.
    pub fn add_entry(&mut self, node: Node)
        requires
            well_formed(old(self)@),
        ensures
            well_formed(final(self)@),
            final(self)@ == add_entry_spec(old(self)@, node@),
            node@.name.len() > 0 ==> has_name(final(self)@.nodes, node@.name),
            forall|i: int| 0 <= i < old(self)@.nodes.len() ==> final(self)@.nodes[i] == old(self)@.nodes[i],
    {
        let path = char_vec(node.name.as_str());
        let mut parent = String::new();
        let mut k: usize = 0;
        proof {
            assert(parent@ =~= Seq::<char>::empty());
        }
        while k < path.len()
            invariant
                0 <= k <= path@.len(),
                path@ == node@.name,
                well_formed(self@),
                has_name(self@.nodes, parent@),
                forall|i: int| 0 <= i < old(self)@.nodes.len() ==> self@.nodes[i] == old(self)@.nodes[i],
                old(self)@.nodes.len() <= self@.nodes.len(),
                entry_walk(self@, path@, parent@, k as int) == entry_walk(old(self)@, node@.name, Seq::empty(), 0),
            decreases path@.len() - k,
        {
            if path[k] == '/' && k > 0 {
                let dir_name = slice_string(&path, 0, k);
                let dir = Node::from_type_and_name(NodeType::Directory, dir_name.clone());
                assert(dir@ == crate::go::bare_node(NodeType::Directory, dir_name@));
                let ghost before = self@;
                self.add_child(&parent, dir);
                proof {
                    if self@ == before {
                        if !has_name(before.nodes, dir_name@) {
                            assert(dir_name@.len() > 0);
                            assert(false);
                        }
                    } else {
                        assert(self@.nodes[before.nodes.len() as int].name == dir_name@);
                        assert forall|i: int| 0 <= i < old(self)@.nodes.len() implies self@.nodes[i]
                            == old(self)@.nodes[i] by {
                            assert(self@.nodes[i] == before.nodes[i]);
                        }
                    }
                    assert(has_name(self@.nodes, dir_name@));
                }
                parent = dir_name;
            }
            k = k + 1;
        }
        let ghost before = self@;
        let ghost nv = node@;
        assert(entry_walk(self@, path@, parent@, k as int) == (self@, parent@));
        self.add_child(&parent, node);
        proof {
            if self@ != before {
                assert(self@.nodes[before.nodes.len() as int] == nv);
                assert forall|i: int| 0 <= i < old(self)@.nodes.len() implies self@.nodes[i]
                    == old(self)@.nodes[i] by {
                    assert(self@.nodes[i] == before.nodes[i]);
                }
            }
        }
    }

    /// Adds the outcome of a file's adapter, as `merge_spec` states: each
    /// `Contains` edge places its target under its source, every other edge is
    /// added where its endpoints are present.
    pub fn merge_file(&mut self, edges: &Vec<Edge>)
        requires
            well_formed(old(self)@),
        ensures
            well_formed(final(self)@),
            final(self)@ == merge_spec(old(self)@, edge_views(edges@)),
    {
        let ghost g0 = self@;
        let ghost ev = edge_views(edges@);
        let mut k: usize = 0;
        while k < edges.len()
            invariant
                0 <= k <= edges@.len(),
                ev == edge_views(edges@),
                well_formed(self@),
                self@ == merge_spec(g0, ev.subrange(0, k as int)),
            decreases edges@.len() - k,
        {
            let e = &edges[k];
            assert(ev.subrange(0, k + 1).drop_last() =~= ev.subrange(0, k as int));
            assert(ev.subrange(0, k + 1).last() == e@);
            if e.edge_type == EdgeType::Contains {
                self.add_child(&e.from.name, e.to.copied());
            } else {
                self.add_edge(e.copied());
            }
            k = k + 1;
        }
        assert(ev.subrange(0, edges@.len() as int) =~= ev);
    }

    /// Adds each of `edges` as `add_edge` does, in order.
    pub fn add_edges(&mut self, edges: &Vec<Edge>)
        requires
            well_formed(old(self)@),
        ensures
            well_formed(final(self)@),
            final(self)@ == add_edges_spec(old(self)@, edge_views(edges@)),
            final(self)@.nodes == old(self)@.nodes,
    {
        let ghost g0 = self@;
        let ghost ev = edge_views(edges@);
        let mut k: usize = 0;
        while k < edges.len()
            invariant
                0 <= k <= edges@.len(),
                ev == edge_views(edges@),
                well_formed(self@),
                self@ == add_edges_spec(g0, ev.subrange(0, k as int)),
                self@.nodes == g0.nodes,
            decreases edges@.len() - k,
        {
            assert(ev.subrange(0, k + 1).drop_last() =~= ev.subrange(0, k as int));
            assert(ev.subrange(0, k + 1).last() == edges@[k as int]@);
            self.add_edge(edges[k].copied());
            k = k + 1;
        }
        assert(ev.subrange(0, edges@.len() as int) =~= ev);
    }

    /// Adds one walk entry found at the repository-relative path `name`, as
    /// `walk_entry_spec` states: a file with its language and missing ancestors,
    /// nothing for a directory.
    pub fn add_walk_entry(&mut self, name: String, is_dir: bool)
        requires
            well_formed(old(self)@),
        ensures
            well_formed(final(self)@),
            final(self)@ == walk_entry_spec(old(self)@, name@, is_dir),
    {
        if is_dir {
            return;
        }
        let language = crate::types::Language::from_path(name.as_str());
        let mut node = Node::from_type_and_name(NodeType::File, name);
        node.language = language;
        assert(node@ == walked_file(node@.name));
        self.add_entry(node);
    }

    /// Removes the nodes named in `names` and every edge that touches one of them.
    pub fn delete_nodes(&mut self, names: &Vec<String>)
        ensures
            final(self)@.nodes == keep_nodes(old(self)@.nodes, views(names@)),
            final(self)@.edges == keep_edges(old(self)@.edges, views(names@)),
            forall|k: int|
                0 <= k < final(self)@.edges.len() ==> !touches(#[trigger] final(self)@.edges[k], views(names@)),
    {
        let ghost old_g = self@;
        let ghost ns = views(names@);
        let mut nodes: Vec<Node> = Vec::new();
        let mut i: usize = 0;
        while i < self.nodes.len()
            invariant
                0 <= i <= self.nodes@.len(),
                self@ == old_g,
                ns == views(names@),
                node_views(nodes@) == keep_nodes(old_g.nodes.subrange(0, i as int), ns),
            decreases self.nodes@.len() - i,
        {
            assert(old_g.nodes.subrange(0, i + 1).drop_last() =~= old_g.nodes.subrange(0, i as int));
            assert(old_g.nodes.subrange(0, i + 1).last() == self.nodes@[i as int]@);
            if !holds_name(names, &self.nodes[i].name) {
                let ghost before = nodes@;
                nodes.push(self.nodes[i].copied());
                assert(node_views(nodes@) =~= node_views(before).push(self.nodes@[i as int]@));
            }
            i = i + 1;
        }
        let mut edges: Vec<Edge> = Vec::new();
        let mut k: usize = 0;
        while k < self.edges.len()
            invariant
                0 <= k <= self.edges@.len(),
                self@ == old_g,
                ns == views(names@),
                edge_views(edges@) == keep_edges(old_g.edges.subrange(0, k as int), ns),
            decreases self.edges@.len() - k,
        {
            assert(old_g.edges.subrange(0, k + 1).drop_last() =~= old_g.edges.subrange(0, k as int));
            assert(old_g.edges.subrange(0, k + 1).last() == self.edges@[k as int]@);
            let e = &self.edges[k];
            if !holds_name(names, &e.from.name) && !holds_name(names, &e.to.name) {
                let ghost before = edges@;
                edges.push(e.copied());
                assert(edge_views(edges@) =~= edge_views(before).push(self.edges@[k as int]@));
            }
            k = k + 1;
        }
        assert(old_g.nodes.subrange(0, old_g.nodes.len() as int) =~= old_g.nodes);
        assert(old_g.edges.subrange(0, old_g.edges.len() as int) =~= old_g.edges);
        self.nodes = nodes;
        self.edges = edges;
        proof {
            law_delete_leaves_no_incident_edge(old_g.edges, ns);
        }
    }
}

/// Index of the first node of `nodes` named `name`, as `find_index` states.
pub fn position_of(nodes: &Vec<Node>, name: &String) -> (r: Option<usize>)
    ensures
        match r {
            Some(i) => i as int == find_index(node_views(nodes@), name@) && i < nodes@.len(),
            None => find_index(node_views(nodes@), name@) == -1,
        },
{
    let ghost ns = node_views(nodes@);
    let mut i: usize = 0;
    while i < nodes.len()
        invariant
            0 <= i <= nodes@.len(),
            ns == node_views(nodes@),
            forall|j: int| 0 <= j < i ==> nodes@[j]@.name != name@,
        decreases nodes@.len() - i,
    {
        if nodes[i].name == *name {
            proof {
                lemma_find_index(ns, name@);
                assert forall|j: int| 0 <= j < i implies ns[j].name != name@ by {
                    assert(ns[j] == nodes@[j]@);
                }
                lemma_first_match(ns, name@, i as int);
            }
            return Some(i);
        }
        i = i + 1;
    }
    proof {
        lemma_find_index(ns, name@);
        assert forall|j: int| 0 <= j < ns.len() implies ns[j].name != name@ by {
            assert(ns[j] == nodes@[j]@);
        }
    }
    None
}

pub proof fn lemma_first_match(ns: Seq<NodeModel>, name: Seq<char>, i: int)
    requires
        0 <= i < ns.len(),
        ns[i].name == name,
        forall|j: int| 0 <= j < i ==> ns[j].name != name,
    ensures
        find_index(ns, name) == i,
    decreases ns.len(),
{
    if i < ns.len() - 1 {
        lemma_first_match(ns.drop_last(), name, i);
    } else {
        lemma_find_index(ns.drop_last(), name);
        if find_index(ns.drop_last(), name) >= 0 {
            let j = find_index(ns.drop_last(), name);
            assert(ns[j] == ns.drop_last()[j]);
        }
    }
}

} // verus!
