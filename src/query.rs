use vstd::prelude::*;

use crate::graph::{find_index, lemma_find_index, position_of, Graph, GraphModel};
use crate::snippet::{snippet_content_of, Snippet};
use crate::text::{before_first, views};
use crate::types::{node_views, EdgeModel, EdgeType, Node, NodeModel};

verus! {

/// The value of a snippet: path, first and last line, content.
pub struct SnippetModel {
    pub path: Seq<char>,
    pub start_line: nat,
    pub end_line: nat,
    pub content: Seq<char>,
}

impl View for Snippet {
    type V = SnippetModel;

    open spec fn view(&self) -> SnippetModel {
        SnippetModel {
            path: self.path@,
            start_line: self.start_line as nat,
            end_line: self.end_line as nat,
            content: self.content@,
        }
    }
}

/// The views of a sequence of snippets.
pub open spec fn snippet_views(s: Seq<Snippet>) -> Seq<SnippetModel> {
    s.map_values(|x: Snippet| x@)
}

/// Whether some `Contains` edge goes from the node named `from` to the node named `to`.
pub open spec fn has_contains(es: Seq<EdgeModel>, from: Seq<char>, to: Seq<char>) -> bool {
    exists|k: int| 0 <= k < es.len() && es[k].typ == EdgeType::Contains && es[k].from.name == from && es[k].to.name == to
}

/// Whether the node named `name` is one or two `Contains` steps below the node
/// named `file`.
pub open spec fn below_file(es: Seq<EdgeModel>, file: Seq<char>, name: Seq<char>) -> bool {
    has_contains(es, file, name) || exists|k: int|
        0 <= k < es.len() && es[k].typ == EdgeType::Contains && es[k].from.name == file && has_contains(
            es,
            es[k].to.name,
            name,
        )
}

/// Whether the function named `func` is a node of the file named `file` whose
/// span strictly encloses `line`.
pub open spec fn encloses_line(g: GraphModel, file: Seq<char>, line: nat, func: Seq<char>) -> bool {
    let i = find_index(g.nodes, func);
    i >= 0 && g.nodes[i].start_line < line && line < g.nodes[i].end_line && below_file(g.edges, file, func)
}

/// The skeletons of the nodes that the node named `typ` contains, in edge order.
pub open spec fn method_skeletons(es: Seq<EdgeModel>, typ: Seq<char>) -> Seq<Seq<char>>
    decreases es.len(),
{
    if es.len() == 0 {
        Seq::empty()
    } else if es.last().typ == EdgeType::Contains && es.last().from.name == typ {
        method_skeletons(es.drop_last(), typ).push(es.last().to.skeleton_code)
    } else {
        method_skeletons(es.drop_last(), typ)
    }
}

/// The snippet for the type that a reference edge ends at.
pub open spec fn snippet_for(es: Seq<EdgeModel>, t: NodeModel) -> SnippetModel {
    SnippetModel {
        path: before_first(t.name, ':'),
        start_line: t.start_line,
        end_line: t.end_line,
        content: snippet_content_of(t.language, t.typ, t.code, t.skeleton_code, method_skeletons(es, t.name)),
    }
}

/// One snippet for each reference edge among `es` that leaves a function of the
/// file named `file` enclosing `line`, in edge order.
pub open spec fn param_snippets(g: GraphModel, file: Seq<char>, line: nat, es: Seq<EdgeModel>) -> Seq<SnippetModel>
    decreases es.len(),
{
    if es.len() == 0 {
        Seq::empty()
    } else if es.last().typ == EdgeType::References && encloses_line(g, file, line, es.last().from.name) {
        param_snippets(g, file, line, es.drop_last()).push(snippet_for(g.edges, es.last().to))
    } else {
        param_snippets(g, file, line, es.drop_last())
    }
}

impl Graph {
    fn has_contains_edge(&self, from: &String, to: &String) -> (r: bool)
        ensures
            r == has_contains(self@.edges, from@, to@),
    {
        let ghost es = self@.edges;
        let mut k: usize = 0;
        while k < self.edges.len()
            invariant
                0 <= k <= self.edges@.len(),
                es == self@.edges,
                forall|j: int| 0 <= j < k ==> !(es[j].typ == EdgeType::Contains && es[j].from.name == from@
                    && es[j].to.name == to@),
            decreases self.edges@.len() - k,
        {
            let e = &self.edges[k];
            assert(es[k as int] == e@);
            if e.edge_type == EdgeType::Contains && e.from.name == *from && e.to.name == *to {
                return true;
            }
            k = k + 1;
        }
        false
    }

    fn is_below_file(&self, file: &String, name: &String) -> (r: bool)
        ensures
            r == below_file(self@.edges, file@, name@),
    {
        if self.has_contains_edge(file, name) {
            return true;
        }
        let ghost es = self@.edges;
        let mut k: usize = 0;
        while k < self.edges.len()
            invariant
                0 <= k <= self.edges@.len(),
                es == self@.edges,
                !has_contains(es, file@, name@),
                forall|j: int| 0 <= j < k ==> !(es[j].typ == EdgeType::Contains && es[j].from.name == file@
                    && has_contains(es, es[j].to.name, name@)),
            decreases self.edges@.len() - k,
        {
            let e = &self.edges[k];
            assert(es[k as int] == e@);
            if e.edge_type == EdgeType::Contains && e.from.name == *file && self.has_contains_edge(&e.to.name, name) {
                return true;
            }
            k = k + 1;
        }
        false
    }

    fn skeletons_under(&self, typ: &String) -> (r: Vec<String>)
        ensures
            views(r@) == method_skeletons(self@.edges, typ@),
    {
        let ghost es = self@.edges;
        let mut out: Vec<String> = Vec::new();
        let mut k: usize = 0;
        while k < self.edges.len()
            invariant
                0 <= k <= self.edges@.len(),
                es == self@.edges,
                views(out@) == method_skeletons(es.subrange(0, k as int), typ@),
            decreases self.edges@.len() - k,
        {
            let e = &self.edges[k];
            assert(es.subrange(0, k + 1).drop_last() =~= es.subrange(0, k as int));
            assert(es.subrange(0, k + 1).last() == e@);
            if e.edge_type == EdgeType::Contains && e.from.name == *typ {
                let ghost before = out@;
                out.push(e.to.skeleton_code.clone());
                assert(views(out@) =~= views(before).push(e@.to.skeleton_code));
            }
            k = k + 1;
        }
        assert(es.subrange(0, es.len() as int) =~= es);
        out
    }

    fn encloses(&self, file: &String, line: usize, func: &String) -> (r: bool)
        ensures
            r == encloses_line(self@, file@, line as nat, func@),
    {
        proof {
            lemma_find_index(self@.nodes, func@);
        }
        match position_of(&self.nodes, func) {
            Some(i) => {
                assert(self@.nodes[i as int] == self.nodes@[i as int]@);
                let n = &self.nodes[i];
                n.start_line < line && line < n.end_line && self.is_below_file(file, func)
            },
            None => false,
        }
    }

    /// The snippets of the types that the parameters of the functions of the file
    /// named `file` refer to, for the functions whose span strictly encloses
    /// `line`: one for each such reference, in edge order, each with the type's
    /// file, lines and content as `snippet_content_of` states.
    pub fn func_param_snippets(&self, file: &String, line: usize) -> (r: Vec<Snippet>)
        ensures
            snippet_views(r@) == param_snippets(self@, file@, line as nat, self@.edges),
    {
        let ghost g = self@;
        let mut out: Vec<Snippet> = Vec::new();
        let mut k: usize = 0;
        while k < self.edges.len()
            invariant
                0 <= k <= self.edges@.len(),
                g == self@,
                snippet_views(out@) == param_snippets(g, file@, line as nat, g.edges.subrange(0, k as int)),
            decreases self.edges@.len() - k,
        {
            let e = &self.edges[k];
            assert(g.edges.subrange(0, k + 1).drop_last() =~= g.edges.subrange(0, k as int));
            assert(g.edges.subrange(0, k + 1).last() == e@);
            if e.edge_type == EdgeType::References && self.encloses(file, line, &e.from.name) {
                let t = &e.to;
                let methods = self.skeletons_under(&t.name);
                let s = Snippet::for_type(
                    &t.name,
                    t.language,
                    t.node_type,
                    t.start_line,
                    t.end_line,
                    &t.code,
                    &t.skeleton_code,
                    &methods,
                );
                let ghost before = out@;
                out.push(s);
                assert(snippet_views(out@) =~= snippet_views(before).push(s@));
            }
            k = k + 1;
        }
        assert(g.edges.subrange(0, g.edges.len() as int) =~= g.edges);
        out
    }
}

/// The targets of the `Contains` edges leaving the node named `name`, in edge order.
pub open spec fn children_of(es: Seq<EdgeModel>, name: Seq<char>) -> Seq<NodeModel>
    decreases es.len(),
{
    if es.len() == 0 {
        Seq::empty()
    } else if es.last().typ == EdgeType::Contains && es.last().from.name == name {
        children_of(es.drop_last(), name).push(es.last().to)
    } else {
        children_of(es.drop_last(), name)
    }
}

/// The children of each of `ns`, in turn.
pub open spec fn next_level(es: Seq<EdgeModel>, ns: Seq<NodeModel>) -> Seq<NodeModel>
    decreases ns.len(),
{
    if ns.len() == 0 {
        Seq::empty()
    } else {
        next_level(es, ns.drop_last()) + children_of(es, ns.last().name)
    }
}

/// The nodes exactly `depth` `Contains` steps below the node named `name`.
pub open spec fn below_of(es: Seq<EdgeModel>, name: Seq<char>, depth: nat) -> Seq<NodeModel>
    decreases depth,
{
    if depth == 0 {
        Seq::empty()
    } else if depth == 1 {
        children_of(es, name)
    } else {
        next_level(es, below_of(es, name, (depth - 1) as nat))
    }
}

/// The nodes of `ns` whose short name is one of `names`, each paired with `owner`.
pub open spec fn matching(owner: Seq<char>, ns: Seq<NodeModel>, names: Seq<Seq<char>>) -> Seq<(Seq<char>, NodeModel)>
    decreases ns.len(),
{
    if ns.len() == 0 {
        Seq::empty()
    } else if names.contains(crate::types::short_name_of(ns.last().name)) {
        matching(owner, ns.drop_last(), names).push((owner, ns.last()))
    } else {
        matching(owner, ns.drop_last(), names)
    }
}

/// What the lookups `(owner, short names)` find, `depth` steps below each owner.
pub open spec fn found_of(es: Seq<EdgeModel>, reqs: Seq<(Seq<char>, Seq<Seq<char>>)>, depth: nat) -> Seq<(Seq<char>, NodeModel)>
    decreases reqs.len(),
{
    if reqs.len() == 0 {
        Seq::empty()
    } else {
        found_of(es, reqs.drop_last(), depth) + matching(reqs.last().0, below_of(es, reqs.last().0, depth), reqs.last().1)
    }
}

fn append_nodes(out: &mut Vec<Node>, more: Vec<Node>)
    ensures
        node_views(final(out)@) == node_views(old(out)@) + node_views(more@),
{
    let ghost start = node_views(out@);
    let mut i: usize = 0;
    while i < more.len()
        invariant
            0 <= i <= more@.len(),
            node_views(out@) == start + node_views(more@).subrange(0, i as int),
        decreases more@.len() - i,
    {
        let ghost before = out@;
        out.push(more[i].copied());
        assert(node_views(out@) =~= node_views(before).push(more@[i as int]@));
        assert(node_views(more@).subrange(0, i + 1) =~= node_views(more@).subrange(0, i as int).push(more@[i as int]@));
        i = i + 1;
    }
    assert(node_views(more@).subrange(0, more@.len() as int) =~= node_views(more@));
}

impl Graph {
    /// The nodes that the node named `name` contains, in edge order.
    pub fn children(&self, name: &String) -> (r: Vec<Node>)
        ensures
            node_views(r@) == children_of(self@.edges, name@),
    {
        let ghost es = self@.edges;
        let mut out: Vec<Node> = Vec::new();
        let mut k: usize = 0;
        while k < self.edges.len()
            invariant
                0 <= k <= self.edges@.len(),
                es == self@.edges,
                node_views(out@) == children_of(es.subrange(0, k as int), name@),
            decreases self.edges@.len() - k,
        {
            let e = &self.edges[k];
            assert(es.subrange(0, k + 1).drop_last() =~= es.subrange(0, k as int));
            assert(es.subrange(0, k + 1).last() == e@);
            if e.edge_type == EdgeType::Contains && e.from.name == *name {
                let ghost before = out@;
                out.push(e.to.copied());
                assert(node_views(out@) =~= node_views(before).push(e@.to));
            }
            k = k + 1;
        }
        assert(es.subrange(0, es.len() as int) =~= es);
        out
    }

    fn next_level_of(&self, ns: &Vec<Node>) -> (r: Vec<Node>)
        ensures
            node_views(r@) == next_level(self@.edges, node_views(ns@)),
    {
        let ghost nv = node_views(ns@);
        let mut out: Vec<Node> = Vec::new();
        let mut i: usize = 0;
        while i < ns.len()
            invariant
                0 <= i <= ns@.len(),
                nv == node_views(ns@),
                node_views(out@) == next_level(self@.edges, nv.subrange(0, i as int)),
            decreases ns@.len() - i,
        {
            assert(nv.subrange(0, i + 1).drop_last() =~= nv.subrange(0, i as int));
            assert(nv.subrange(0, i + 1).last() == ns@[i as int]@);
            let c = self.children(&ns[i].name);
            append_nodes(&mut out, c);
            i = i + 1;
        }
        assert(nv.subrange(0, ns@.len() as int) =~= nv);
        out
    }

    /// The nodes exactly `depth` `Contains` steps below the node named `name`,
    /// as `below_of` states.
    pub fn below(&self, name: &String, depth: usize) -> (r: Vec<Node>)
        ensures
            node_views(r@) == below_of(self@.edges, name@, depth as nat),
    {
        if depth == 0 {
            let r: Vec<Node> = Vec::new();
            assert(node_views(r@) =~= Seq::<NodeModel>::empty());
            return r;
        }
        let mut level = self.children(name);
        let mut d: usize = 1;
        while d < depth
            invariant
                1 <= d <= depth,
                node_views(level@) == below_of(self@.edges, name@, d as nat),
            decreases depth - d,
        {
            level = self.next_level_of(&level);
            d = d + 1;
        }
        level
    }

    /// What each lookup `(owner, short names)` finds `depth` steps below its
    /// owner: the nodes there whose short name is one of the names, each with
    /// its owner, as `found_of` states.
    pub fn found_for_requests(&self, requests: &Vec<(String, Vec<String>)>, depth: usize) -> (r: Vec<(String, Node)>)
        ensures
            crate::resolve::found_views(r@) == found_of(
                self@.edges,
                crate::resolve::request_views(requests@),
                depth as nat,
            ),
    {
        let ghost rv = crate::resolve::request_views(requests@);
        let mut out: Vec<(String, Node)> = Vec::new();
        let mut i: usize = 0;
        while i < requests.len()
            invariant
                0 <= i <= requests@.len(),
                rv == crate::resolve::request_views(requests@),
                crate::resolve::found_views(out@) == found_of(self@.edges, rv.subrange(0, i as int), depth as nat),
            decreases requests@.len() - i,
        {
            assert(rv.subrange(0, i + 1).drop_last() =~= rv.subrange(0, i as int));
            assert(rv.subrange(0, i + 1).last() == (requests@[i as int].0@, views(requests@[i as int].1@)));
            let owner = &requests[i].0;
            let names = &requests[i].1;
            let under = self.below(owner, depth);
            let ghost un = node_views(under@);
            let ghost base = crate::resolve::found_views(out@);
            let mut j: usize = 0;
            while j < under.len()
                invariant
                    0 <= j <= under@.len(),
                    un == node_views(under@),
                    crate::resolve::found_views(out@) == base + matching(owner@, un.subrange(0, j as int), views(names@)),
                decreases under@.len() - j,
            {
                assert(un.subrange(0, j + 1).drop_last() =~= un.subrange(0, j as int));
                assert(un.subrange(0, j + 1).last() == under@[j as int]@);
                let short = under[j].short_name();
                if holds_string(names, &short) {
                    let ghost before = out@;
                    let item = (owner.clone(), under[j].copied());
                    out.push(item);
                    assert(crate::resolve::found_views(out@) =~= crate::resolve::found_views(before).push((owner@, under@[j as int]@)));
                }
                j = j + 1;
            }
            assert(un.subrange(0, under@.len() as int) =~= un);
            i = i + 1;
        }
        assert(rv.subrange(0, requests@.len() as int) =~= rv);
        out
    }
}

fn holds_string(v: &Vec<String>, s: &String) -> (r: bool)
    ensures
        r == views(v@).contains(s@),
{
    let mut i: usize = 0;
    while i < v.len()
        invariant
            0 <= i <= v@.len(),
            forall|j: int| 0 <= j < i ==> v@[j]@ != s@,
        decreases v@.len() - i,
    {
        if v[i] == *s {
            assert(views(v@)[i as int] == s@);
            return true;
        }
        i = i + 1;
    }
    assert forall|j: int| 0 <= j < views(v@).len() implies views(v@)[j] != s@ by {
        assert(views(v@)[j] == v@[j]@);
    }
    false
}

/// What `pathdiff::diff_paths` gives for `path` relative to `base`, as text; it
/// depends on the two paths alone.
pub uninterp spec fn relative_path_of(path: Seq<char>, base: Seq<char>) -> Option<Seq<char>>;

/// Relies on `pathdiff::diff_paths`: `path` relative to `base`, where it can be
/// expressed.
#[verifier::external_body]
fn diff_paths(path: &str, base: &str) -> (r: Option<String>)
    ensures
        crate::types::opt_view(r) == relative_path_of(path@, base@),
{
    pathdiff::diff_paths(path, base).map(|p| p.to_string_lossy().to_string())
}

/// The node name that a file path given to a query stands for: the path relative
/// to the repository at `root` where it can be expressed, else the path itself,
/// with empty components dropped.
pub open spec fn query_file_name(root: Seq<char>, path: Seq<char>) -> Seq<char> {
    crate::util::normalized(
        match relative_path_of(path, root) {
            Some(p) => p,
            None => path,
        },
    )
}

impl Graph {
    /// The snippets of `func_param_snippets` for the file at `file_path`, which
    /// may be absolute or relative to the repository at `root`.
    pub fn param_snippets_for_path(&self, root: &String, file_path: &String, line: usize) -> (r: Vec<Snippet>)
        ensures
            snippet_views(r@) == param_snippets(self@, query_file_name(root@, file_path@), line as nat, self@.edges),
    {
        let rel = match diff_paths(file_path.as_str(), root.as_str()) {
            Some(p) => p,
            None => file_path.clone(),
        };
        let name = crate::util::normalize_path(&rel);
        self.func_param_snippets(&name, line)
    }
}

} // verus!
