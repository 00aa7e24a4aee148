use vstd::prelude::*;

use crate::graph::{
    find_index, has_name, keep_edges, keep_nodes, lemma_find_index, lemma_first_match, position_of,
    Graph, GraphModel,
};
use crate::text::views;
use crate::types::{edge_views, node_views, Edge, EdgeModel, Node, NodeModel};

verus! {

/// `ns` with `n` written over the first node of the same name, or appended.
pub open spec fn upsert_node(ns: Seq<NodeModel>, n: NodeModel) -> Seq<NodeModel> {
    let i = find_index(ns, n.name);
    if i >= 0 {
        ns.update(i, n)
    } else {
        ns.push(n)
    }
}

/// `ns` with each of `l` upserted in turn.
pub open spec fn upsert_nodes(ns: Seq<NodeModel>, l: Seq<NodeModel>) -> Seq<NodeModel>
    decreases l.len(),
{
    if l.len() == 0 {
        ns
    } else {
        upsert_node(upsert_nodes(ns, l.drop_last()), l.last())
    }
}

/// Whether two edges have the same storage identity: type and endpoint names.
pub open spec fn same_key(a: EdgeModel, b: EdgeModel) -> bool {
    a.typ == b.typ && a.from.name == b.from.name && a.to.name == b.to.name
}

/// Whether some edge of `es` has the identity of `e`.
pub open spec fn has_key(es: Seq<EdgeModel>, e: EdgeModel) -> bool {
    exists|k: int| 0 <= k < es.len() && same_key(es[k], e)
}

/// Whether both endpoints of `e` are nodes of `ns`.
pub open spec fn endpoints_in(ns: Seq<NodeModel>, e: EdgeModel) -> bool {
    has_name(ns, e.from.name) && has_name(ns, e.to.name)
}

/// `es` with each of `l` merged in turn: added where both its endpoints are nodes
/// of `ns` and no edge with its identity is already there.
pub open spec fn merge_edges(ns: Seq<NodeModel>, es: Seq<EdgeModel>, l: Seq<EdgeModel>) -> Seq<EdgeModel>
    decreases l.len(),
{
    if l.len() == 0 {
        es
    } else {
        let m = merge_edges(ns, es, l.drop_last());
        if has_key(m, l.last()) || !endpoints_in(ns, l.last()) {
            m
        } else {
            m.push(l.last())
        }
    }
}

/// The edges of `es` that do not start at a node named in `srcs`, in order.
pub open spec fn drop_sources(es: Seq<EdgeModel>, srcs: Seq<Seq<char>>) -> Seq<EdgeModel>
    decreases es.len(),
{
    if es.len() == 0 {
        Seq::empty()
    } else if srcs.contains(es.last().from.name) {
        drop_sources(es.drop_last(), srcs)
    } else {
        drop_sources(es.drop_last(), srcs).push(es.last())
    }
}

/// The names of a sequence of nodes.
pub open spec fn names_of(ns: Seq<NodeModel>) -> Seq<Seq<char>> {
    ns.map_values(|n: NodeModel| n.name)
}

/// The names of `old` that no node of `nodes` carries, in order.
pub open spec fn stale_names(old: Seq<Seq<char>>, nodes: Seq<NodeModel>) -> Seq<Seq<char>>
    decreases old.len(),
{
    if old.len() == 0 {
        Seq::empty()
    } else if names_of(nodes).contains(old.last()) {
        stale_names(old.drop_last(), nodes)
    } else {
        stale_names(old.drop_last(), nodes).push(old.last())
    }
}

/// The graph after re-indexing the file `file`, whose definitions were named
/// `old` and are now `nodes` with the edges `edges` (its own and the resolved
/// ones): definitions that are gone are removed with every edge touching them;
/// every edge leaving the file or one of its former definitions is removed; the
/// file and its definitions are upserted by name; the edges are merged where
/// both their endpoints are nodes after the upsert.
pub open spec fn file_update(
    g: GraphModel,
    file: NodeModel,
    old: Seq<Seq<char>>,
    nodes: Seq<NodeModel>,
    edges: Seq<EdgeModel>,
) -> GraphModel {
    let stale = stale_names(old, nodes);
    let ns = upsert_nodes(keep_nodes(g.nodes, stale), seq![file] + nodes);
    GraphModel {
        nodes: ns,
        edges: merge_edges(ns, drop_sources(keep_edges(g.edges, stale), seq![file.name] + old), edges),
    }
}

proof fn lemma_keep_nothing(g: GraphModel)
    ensures
        keep_nodes(g.nodes, Seq::empty()) == g.nodes,
        keep_edges(g.edges, Seq::empty()) == g.edges,
{
    lemma_keep_nodes_nothing(g.nodes);
    lemma_keep_edges_nothing(g.edges);
}

proof fn lemma_keep_nodes_nothing(ns: Seq<NodeModel>)
    ensures
        keep_nodes(ns, Seq::empty()) == ns,
    decreases ns.len(),
{
    if ns.len() > 0 {
        lemma_keep_nodes_nothing(ns.drop_last());
        assert(ns.drop_last().push(ns.last()) =~= ns);
    }
}

proof fn lemma_keep_edges_nothing(es: Seq<EdgeModel>)
    ensures
        keep_edges(es, Seq::empty()) == es,
    decreases es.len(),
{
    if es.len() > 0 {
        lemma_keep_edges_nothing(es.drop_last());
        assert(es.drop_last().push(es.last()) =~= es);
    }
}

proof fn lemma_stale_none(nodes: Seq<NodeModel>)
    ensures
        stale_names(names_of(nodes), nodes) == Seq::<Seq<char>>::empty(),
{
    lemma_stale_none_of(names_of(nodes), nodes);
}

proof fn lemma_stale_none_of(old: Seq<Seq<char>>, nodes: Seq<NodeModel>)
    requires
        forall|i: int| 0 <= i < old.len() ==> names_of(nodes).contains(old[i]),
    ensures
        stale_names(old, nodes) == Seq::<Seq<char>>::empty(),
    decreases old.len(),
{
    if old.len() > 0 {
        assert(names_of(nodes).contains(old[old.len() - 1]));
        lemma_stale_none_of(old.drop_last(), nodes);
    }
}

/// Writing a node over one of the same name keeps where each name first occurs.
proof fn lemma_find_after_update(ns: Seq<NodeModel>, i: int, n: NodeModel, name: Seq<char>)
    requires
        0 <= i < ns.len(),
        ns[i].name == n.name,
    ensures
        find_index(ns.update(i, n), name) == find_index(ns, name),
{
    let u = ns.update(i, n);
    lemma_find_index(ns, name);
    lemma_find_index(u, name);
    let a = find_index(ns, name);
    let b = find_index(u, name);
    if a >= 0 {
        assert forall|j: int| 0 <= j < a implies u[j].name != name by {
            assert(u[j].name == ns[j].name);
            if ns[j].name == name {
                lemma_not_before(ns, name, j);
            }
        }
        assert(u[a].name == ns[a].name);
        lemma_first_match(u, name, a);
    } else {
        if b >= 0 {
            assert(ns[b].name == u[b].name);
        }
    }
}

/// No node before the first occurrence of a name carries it.
proof fn lemma_not_before(ns: Seq<NodeModel>, name: Seq<char>, j: int)
    requires
        0 <= j < ns.len(),
        ns[j].name == name,
    ensures
        find_index(ns, name) <= j,
        find_index(ns, name) >= 0,
    decreases ns.len(),
{
    lemma_find_index(ns, name);
    if j < ns.len() - 1 {
        lemma_not_before(ns.drop_last(), name, j);
    } else {
        lemma_find_index(ns.drop_last(), name);
    }
}

/// Appending a node keeps where each name already present first occurs, and puts
/// a new name at the end.
proof fn lemma_find_after_push(ns: Seq<NodeModel>, n: NodeModel, name: Seq<char>)
    ensures
        find_index(ns, name) >= 0 ==> find_index(ns.push(n), name) == find_index(ns, name),
        find_index(ns, name) < 0 && n.name == name ==> find_index(ns.push(n), name) == ns.len(),
{
    assert(ns.push(n).drop_last() =~= ns);
}

/// After upserting distinctly named nodes, each of them is found by its name.
proof fn lemma_upserted_found(ns: Seq<NodeModel>, l: Seq<NodeModel>)
    requires
        forall|a: int, b: int| 0 <= a < l.len() && 0 <= b < l.len() && a != b ==> l[a].name != l[b].name,
    ensures
        forall|k: int|
            0 <= k < l.len() ==> find_index(upsert_nodes(ns, l), #[trigger] l[k].name) >= 0 && upsert_nodes(
                ns,
                l,
            )[find_index(upsert_nodes(ns, l), l[k].name)] == l[k],
    decreases l.len(),
{
    if l.len() > 0 {
        let p = l.drop_last();
        lemma_upserted_found(ns, p);
        let r0 = upsert_nodes(ns, p);
        let n = l.last();
        let r = upsert_nodes(ns, l);
        lemma_find_index(r0, n.name);
        let i = find_index(r0, n.name);
        assert forall|k: int| 0 <= k < l.len() implies find_index(r, #[trigger] l[k].name) >= 0
            && r[find_index(r, l[k].name)] == l[k] by {
            if k < l.len() - 1 {
                assert(l[k] == p[k]);
                let j = find_index(r0, p[k].name);
                lemma_find_index(r0, p[k].name);
                assert(j >= 0 && r0[j] == p[k]);
                assert(p[k].name != n.name);
                if i >= 0 {
                    lemma_find_after_update(r0, i, n, p[k].name);
                    assert(j != i);
                    assert(r == r0.update(i, n));
                    assert(r[j] == r0[j]);
                } else {
                    lemma_find_after_push(r0, n, p[k].name);
                    assert(r == r0.push(n));
                    assert(r[j] == r0[j]);
                }
            } else {
                assert(l[k] == n);
                if i >= 0 {
                    lemma_find_after_update(r0, i, n, n.name);
                    assert(r == r0.update(i, n));
                    assert(r[i] == n);
                } else {
                    lemma_find_after_push(r0, n, n.name);
                    assert(r == r0.push(n));
                    assert(r[r0.len() as int] == n);
                }
            }
        }
    }
}

/// Upserting nodes that are already in place changes nothing.
proof fn lemma_upsert_in_place(u: Seq<NodeModel>, l: Seq<NodeModel>)
    requires
        forall|k: int|
            0 <= k < l.len() ==> find_index(u, #[trigger] l[k].name) >= 0 && u[find_index(u, l[k].name)] == l[k],
    ensures
        upsert_nodes(u, l) == u,
    decreases l.len(),
{
    if l.len() > 0 {
        let p = l.drop_last();
        assert forall|k: int| 0 <= k < p.len() implies find_index(u, #[trigger] p[k].name) >= 0
            && u[find_index(u, p[k].name)] == p[k] by {
            assert(p[k] == l[k]);
        }
        lemma_upsert_in_place(u, p);
        let n = l.last();
        assert(n == l[l.len() - 1]);
        lemma_find_index(u, n.name);
        assert(find_index(u, l[l.len() - 1].name) >= 0);
        assert(u[find_index(u, n.name)] == n);
        assert(u.update(find_index(u, n.name), n) =~= u);
    }
}

/// Merging keeps what was there and adds only edges of the merged list.
proof fn lemma_merge_extends(ns: Seq<NodeModel>, es: Seq<EdgeModel>, l: Seq<EdgeModel>)
    ensures
        merge_edges(ns, es, l).len() >= es.len(),
        merge_edges(ns, es, l).subrange(0, es.len() as int) == es,
        forall|k: int|
            es.len() <= k < merge_edges(ns, es, l).len() ==> exists|j: int|
                0 <= j < l.len() && #[trigger] merge_edges(ns, es, l)[k] == l[j],
    decreases l.len(),
{
    if l.len() == 0 {
        assert(es.subrange(0, es.len() as int) =~= es);
    } else {
        let p = l.drop_last();
        lemma_merge_extends(ns, es, p);
        let m = merge_edges(ns, es, p);
        let r = merge_edges(ns, es, l);
        assert(r.subrange(0, es.len() as int) =~= m.subrange(0, es.len() as int));
        assert forall|k: int| es.len() <= k < r.len() implies exists|j: int|
            0 <= j < l.len() && #[trigger] r[k] == l[j] by {
            if k < m.len() {
                assert(r[k] == m[k]);
                let j = choose|j: int| 0 <= j < p.len() && m[k] == p[j];
                assert(p[j] == l[j]);
            } else {
                assert(r[k] == l[l.len() - 1]);
            }
        }
    }
}

proof fn lemma_drop_sources_append(a: Seq<EdgeModel>, x: Seq<EdgeModel>, s: Seq<Seq<char>>)
    ensures
        drop_sources(a + x, s) == drop_sources(a, s) + drop_sources(x, s),
    decreases x.len(),
{
    if x.len() == 0 {
        assert(a + x =~= a);
        assert(drop_sources(a, s) + Seq::<EdgeModel>::empty() =~= drop_sources(a, s));
    } else {
        lemma_drop_sources_append(a, x.drop_last(), s);
        assert((a + x).drop_last() =~= a + x.drop_last());
        assert((a + x).last() == x.last());
        if !s.contains(x.last().from.name) {
            assert(drop_sources(a, s) + drop_sources(x.drop_last(), s).push(x.last()) =~= (drop_sources(
                a,
                s,
            ) + drop_sources(x.drop_last(), s)).push(x.last()));
        }
    }
}

proof fn lemma_drop_none(a: Seq<EdgeModel>, s: Seq<Seq<char>>)
    requires
        forall|k: int| 0 <= k < a.len() ==> !s.contains(#[trigger] a[k].from.name),
    ensures
        drop_sources(a, s) == a,
    decreases a.len(),
{
    if a.len() > 0 {
        lemma_drop_none(a.drop_last(), s);
        assert(a.drop_last().push(a.last()) =~= a);
    }
}

proof fn lemma_drop_all(a: Seq<EdgeModel>, s: Seq<Seq<char>>)
    requires
        forall|k: int| 0 <= k < a.len() ==> s.contains(#[trigger] a[k].from.name),
    ensures
        drop_sources(a, s) == Seq::<EdgeModel>::empty(),
    decreases a.len(),
{
    if a.len() > 0 {
        lemma_drop_all(a.drop_last(), s);
        assert(s.contains(a[a.len() - 1].from.name));
    }
}

/// Re-indexing a file that has not changed since it was last indexed leaves the
/// graph as it is: with the same definitions and edges as before, the former
/// definitions being those of the last run, the nodes and edges stay identical.
/// Each edge of the file's run starts at the file or one of its definitions; no
/// other edge that the last run kept does.
pub proof fn law_reindex_unchanged_file_is_identity(
    g: GraphModel,
    file: NodeModel,
    old: Seq<Seq<char>>,
    nodes: Seq<NodeModel>,
    edges: Seq<EdgeModel>,
)
    requires
        forall|a: int, b: int|
            0 <= a < (seq![file] + nodes).len() && 0 <= b < (seq![file] + nodes).len() && a != b
                ==> (seq![file] + nodes)[a].name != (seq![file] + nodes)[b].name,
        forall|k: int|
            0 <= k < edges.len() ==> (seq![file.name] + names_of(nodes)).contains(
                #[trigger] edges[k].from.name,
            ),
        forall|k: int|
            0 <= k < drop_sources(keep_edges(g.edges, stale_names(old, nodes)), seq![file.name] + old).len()
                ==> !(seq![file.name] + names_of(nodes)).contains(
                #[trigger] drop_sources(keep_edges(g.edges, stale_names(old, nodes)), seq![file.name] + old)[k].from.name,
            ),
    ensures
        file_update(file_update(g, file, old, nodes, edges), file, names_of(nodes), nodes, edges)
            == file_update(g, file, old, nodes, edges),
{
    let g1 = file_update(g, file, old, nodes, edges);
    let l = seq![file] + nodes;
    let k0 = keep_nodes(g.nodes, stale_names(old, nodes));
    let a = drop_sources(keep_edges(g.edges, stale_names(old, nodes)), seq![file.name] + old);
    let s1 = seq![file.name] + names_of(nodes);
    lemma_stale_none(nodes);
    lemma_keep_nothing(g1);
    lemma_upserted_found(k0, l);
    lemma_upsert_in_place(g1.nodes, l);
    lemma_merge_extends(g1.nodes, a, edges);
    let m = g1.edges;
    let x = m.subrange(a.len() as int, m.len() as int);
    assert(m =~= a + x);
    assert forall|k: int| 0 <= k < x.len() implies s1.contains(#[trigger] x[k].from.name) by {
        assert(x[k] == m[k + a.len()]);
        let j = choose|j: int| 0 <= j < edges.len() && m[k + a.len()] == edges[j];
        assert(s1.contains(edges[j].from.name));
    }
    lemma_drop_sources_append(a, x, s1);
    lemma_drop_none(a, s1);
    lemma_drop_all(x, s1);
    assert(drop_sources(m, s1) =~= a);
    assert(names_of(nodes) =~= names_of(nodes));
}

fn has_node_named(nodes: &Vec<Node>, name: &String) -> (r: bool)
    ensures
        r == names_of(node_views(nodes@)).contains(name@),
{
    let ghost ns = node_views(nodes@);
    proof {
        lemma_find_index(ns, name@);
        if names_of(ns).contains(name@) {
            let k = choose|k: int| 0 <= k < names_of(ns).len() && names_of(ns)[k] == name@;
            assert(ns[k].name == name@);
        }
        if has_name(ns, name@) {
            let k = choose|k: int| 0 <= k < ns.len() && ns[k].name == name@;
            assert(names_of(ns)[k] == name@);
        }
    }
    position_of(nodes, name).is_some()
}

/// The names of `old` that no node of `nodes` carries, as `stale_names` states.
pub fn stale_node_names(old: &Vec<String>, nodes: &Vec<Node>) -> (r: Vec<String>)
    ensures
        views(r@) == stale_names(views(old@), node_views(nodes@)),
{
    let ghost ov = views(old@);
    let mut out: Vec<String> = Vec::new();
    let mut i: usize = 0;
    while i < old.len()
        invariant
            0 <= i <= old@.len(),
            ov == views(old@),
            views(out@) == stale_names(ov.subrange(0, i as int), node_views(nodes@)),
        decreases old@.len() - i,
    {
        assert(ov.subrange(0, i + 1).drop_last() =~= ov.subrange(0, i as int));
        assert(ov.subrange(0, i + 1).last() == old@[i as int]@);
        if !has_node_named(nodes, &old[i]) {
            let ghost before = out@;
            out.push(old[i].clone());
            assert(views(out@) =~= views(before).push(old@[i as int]@));
        }
        i = i + 1;
    }
    assert(ov.subrange(0, old@.len() as int) =~= ov);
    out
}

fn holds(names: &Vec<String>, s: &String) -> (r: bool)
    ensures
        r == views(names@).contains(s@),
{
    let mut i: usize = 0;
    while i < names.len()
        invariant
            0 <= i <= names@.len(),
            forall|j: int| 0 <= j < i ==> names@[j]@ != s@,
        decreases names@.len() - i,
    {
        if names[i] == *s {
            assert(views(names@)[i as int] == s@);
            return true;
        }
        i = i + 1;
    }
    assert forall|j: int| 0 <= j < views(names@).len() implies views(names@)[j] != s@ by {
        assert(views(names@)[j] == names@[j]@);
    }
    false
}

impl Graph {
    /// Removes every edge that starts at a node named in `srcs`.
    pub fn drop_edges_from(&mut self, srcs: &Vec<String>)
        ensures
            final(self)@.nodes == old(self)@.nodes,
            final(self)@.edges == drop_sources(old(self)@.edges, views(srcs@)),
    {
        let ghost es0 = self@.edges;
        let mut kept: Vec<Edge> = Vec::new();
        let mut k: usize = 0;
        while k < self.edges.len()
            invariant
                0 <= k <= self.edges@.len(),
                self@ == old(self)@,
                es0 == self@.edges,
                edge_views(kept@) == drop_sources(es0.subrange(0, k as int), views(srcs@)),
            decreases self.edges@.len() - k,
        {
            assert(es0.subrange(0, k + 1).drop_last() =~= es0.subrange(0, k as int));
            assert(es0.subrange(0, k + 1).last() == self.edges@[k as int]@);
            if !holds(srcs, &self.edges[k].from.name) {
                let ghost before = kept@;
                kept.push(self.edges[k].copied());
                assert(edge_views(kept@) =~= edge_views(before).push(self.edges@[k as int]@));
            }
            k = k + 1;
        }
        assert(es0.subrange(0, es0.len() as int) =~= es0);
        self.edges = kept;
    }

    /// Writes `n` over the first node of the same name, or appends it.
    pub fn upsert_node(&mut self, n: &Node)
        ensures
            final(self)@.nodes == upsert_node(old(self)@.nodes, n@),
            final(self)@.edges == old(self)@.edges,
    {
        proof {
            lemma_find_index(self@.nodes, n@.name);
        }
        match position_of(&self.nodes, &n.name) {
            Some(i) => {
                let ghost before = self@.nodes;
                self.nodes.set(i, n.copied());
                assert(self@.nodes =~= before.update(i as int, n@));
            },
            None => {
                let ghost before = self@.nodes;
                self.nodes.push(n.copied());
                assert(self@.nodes =~= before.push(n@));
            },
        }
    }

    /// Adds `e` where both its endpoints are nodes of the graph and no edge with
    /// the same type and endpoint names is there.
    pub fn merge_edge(&mut self, e: &Edge)
        ensures
            final(self)@.nodes == old(self)@.nodes,
            final(self)@.edges == if has_key(old(self)@.edges, e@) || !endpoints_in(old(self)@.nodes, e@) {
                old(self)@.edges
            } else {
                old(self)@.edges.push(e@)
            },
    {
        proof {
            lemma_find_index(self@.nodes, e@.from.name);
            lemma_find_index(self@.nodes, e@.to.name);
        }
        if position_of(&self.nodes, &e.from.name).is_none() || position_of(&self.nodes, &e.to.name).is_none() {
            return;
        }
        let ghost es = self@.edges;
        let mut k: usize = 0;
        while k < self.edges.len()
            invariant
                0 <= k <= self.edges@.len(),
                self@ == old(self)@,
                es == self@.edges,
                forall|j: int| 0 <= j < k ==> !same_key(es[j], e@),
            decreases self.edges@.len() - k,
        {
            let x = &self.edges[k];
            assert(es[k as int] == x@);
            if x.edge_type == e.edge_type && x.from.name == e.from.name && x.to.name == e.to.name {
                assert(same_key(es[k as int], e@));
                return;
            }
            k = k + 1;
        }
        let ghost before = self@.edges;
        self.edges.push(e.copied());
        assert(self@.edges =~= before.push(e@));
    }

    /// Re-indexes the file `file`, whose definitions in the graph are named
    /// `old_names` and which now has the definitions `nodes` and the edges
    /// `edges`, as `file_update` states: definitions that are gone leave with every
    /// edge touching them, the edges leaving the file or its former definitions
    /// are dropped, the file and its definitions are upserted, the edges merged.
    pub fn reindex_file(&mut self, file: &Node, old_names: &Vec<String>, nodes: &Vec<Node>, edges: &Vec<Edge>)
        ensures
            final(self)@ == file_update(
                old(self)@,
                file@,
                views(old_names@),
                node_views(nodes@),
                edge_views(edges@),
            ),
    {
        let ghost g0 = self@;
        let stale = stale_node_names(old_names, nodes);
        self.delete_nodes(&stale);
        let mut srcs: Vec<String> = Vec::new();
        srcs.push(file.name.clone());
        let mut i: usize = 0;
        while i < old_names.len()
            invariant
                0 <= i <= old_names@.len(),
                views(srcs@) == seq![file@.name] + views(old_names@).subrange(0, i as int),
            decreases old_names@.len() - i,
        {
            let ghost before = srcs@;
            srcs.push(old_names[i].clone());
            assert(views(srcs@) =~= views(before).push(old_names@[i as int]@));
            assert(views(old_names@).subrange(0, i + 1) =~= views(old_names@).subrange(0, i as int).push(
                old_names@[i as int]@,
            ));
            i = i + 1;
        }
        assert(views(old_names@).subrange(0, old_names@.len() as int) =~= views(old_names@));
        self.drop_edges_from(&srcs);
        let ghost l = seq![file@] + node_views(nodes@);
        let ghost base = self@.nodes;
        self.upsert_node(file);
        assert(l.subrange(0, 1).drop_last() =~= Seq::<NodeModel>::empty());
        assert(l.subrange(0, 1).last() == file@);
        assert(upsert_nodes(base, Seq::<NodeModel>::empty()) == base);
        assert(upsert_nodes(base, l.subrange(0, 1)) == upsert_node(base, file@));
        let mut j: usize = 0;
        while j < nodes.len()
            invariant
                0 <= j <= nodes@.len(),
                l == seq![file@] + node_views(nodes@),
                self@.nodes == upsert_nodes(base, l.subrange(0, j + 1)),
                self@.edges == drop_sources(
                    keep_edges(g0.edges, stale_names(views(old_names@), node_views(nodes@))),
                    seq![file@.name] + views(old_names@),
                ),
            decreases nodes@.len() - j,
        {
            assert(l.subrange(0, j + 2).drop_last() =~= l.subrange(0, j + 1));
            assert(l.subrange(0, j + 2).last() == nodes@[j as int]@);
            self.upsert_node(&nodes[j]);
            j = j + 1;
        }
        assert(l.subrange(0, nodes@.len() + 1 as int) =~= l);
        let ghost ebase = self@.edges;
        let ghost ev = edge_views(edges@);
        let mut k: usize = 0;
        assert(ev.subrange(0, 0) =~= Seq::<EdgeModel>::empty());
        while k < edges.len()
            invariant
                0 <= k <= edges@.len(),
                ev == edge_views(edges@),
                self@.edges == merge_edges(upsert_nodes(base, l), ebase, ev.subrange(0, k as int)),
                self@.nodes == upsert_nodes(base, l),
            decreases edges@.len() - k,
        {
            assert(ev.subrange(0, k + 1).drop_last() =~= ev.subrange(0, k as int));
            assert(ev.subrange(0, k + 1).last() == edges@[k as int]@);
            self.merge_edge(&edges[k]);
            k = k + 1;
        }
        assert(ev.subrange(0, edges@.len() as int) =~= ev);
    }
}

} // verus!
