use vstd::prelude::*;

use crate::graph::{find_index, lemma_find_index, position_of};
use crate::parser::{FuncParamType, ParamTypeModel, PendingImport, PendingImportModel};
use crate::text::{concat_str, lower_of, lowercase, views};
use crate::types::{
    copy_opt, edge_views, node_views, short_name_of, Edge, EdgeModel, EdgeType, Node, NodeModel,
};

verus! {

/// The node named `name`, if any.
pub open spec fn find_node(ns: Seq<NodeModel>, name: Seq<char>) -> Option<NodeModel> {
    if find_index(ns, name) >= 0 {
        Some(ns[find_index(ns, name)])
    } else {
        None
    }
}

/// The name of the node an import refers to: the module's file for a
/// whole-module import, `<file>:<symbol>` otherwise.
pub open spec fn import_target_name(imp: PendingImportModel) -> Seq<char> {
    match imp.symbol {
        Some(s) => imp.source_path + ":"@ + s,
        None => imp.source_path,
    }
}

/// The import edge for the import `imp` of the file named `file`, where both the
/// file and the import's target are nodes of `ns`.
pub open spec fn resolve_import(ns: Seq<NodeModel>, file: Seq<char>, imp: PendingImportModel) -> Option<
    EdgeModel,
> {
    match (find_node(ns, file), find_node(ns, import_target_name(imp))) {
        (Some(f), Some(t)) => Some(
            EdgeModel { typ: EdgeType::Imports, from: f, to: t, import: imp.symbol, alias: imp.alias },
        ),
        _ => None,
    }
}

/// The edge of an optional edge, as a sequence of at most one.
pub open spec fn opt_seq(e: Option<EdgeModel>) -> Seq<EdgeModel> {
    match e {
        Some(x) => seq![x],
        None => Seq::empty(),
    }
}

/// The import edges resolved from the pending imports, in order, unresolvable
/// ones dropped.
pub open spec fn import_edges(ns: Seq<NodeModel>, pend: Seq<(Seq<char>, PendingImportModel)>) -> Seq<
    EdgeModel,
>
    decreases pend.len(),
{
    if pend.len() == 0 {
        Seq::empty()
    } else {
        import_edges(ns, pend.drop_last()) + opt_seq(resolve_import(ns, pend.last().0, pend.last().1))
    }
}

/// The views of the pending imports, each with the file that made it.
pub open spec fn pending_views(p: Seq<(String, PendingImport)>) -> Seq<(Seq<char>, PendingImportModel)> {
    p.map_values(|x: (String, PendingImport)| (x.0@, x.1@))
}

/// The node of `nodes` named `name`, copied, as `find_node` states.
fn lookup_node(nodes: &Vec<Node>, name: &String) -> (r: Option<Node>)
    ensures
        match r {
            Some(n) => find_node(node_views(nodes@), name@) == Some(n@),
            None => find_node(node_views(nodes@), name@) is None,
        },
{
    match position_of(nodes, name) {
        Some(i) => {
            assert(node_views(nodes@)[i as int] == nodes@[i as int]@);
            Some(nodes[i].copied())
        },
        None => None,
    }
}

fn push_opt(out: &mut Vec<Edge>, e: Option<Edge>)
    ensures
        edge_views(final(out)@) == edge_views(old(out)@) + opt_seq(
            match e {
                Some(x) => Some(x@),
                None => None,
            },
        ),
{
    let ghost before = out@;
    match e {
        Some(x) => {
            let ghost xv = x@;
            out.push(x);
            assert(edge_views(out@) =~= edge_views(before) + seq![xv]);
        },
        None => {
            assert(edge_views(out@) =~= edge_views(before) + Seq::<EdgeModel>::empty());
        },
    }
}

/// The import edge for one pending import, as `resolve_import` states.
fn resolve_one_import(nodes: &Vec<Node>, file: &String, imp: &PendingImport) -> (r: Option<Edge>)
    ensures
        match r {
            Some(e) => resolve_import(node_views(nodes@), file@, imp@) == Some(e@),
            None => resolve_import(node_views(nodes@), file@, imp@) is None,
        },
{
    let target = match &imp.symbol {
        Some(s) => concat_str(&concat_str(&imp.source_path, ":"), s.as_str()),
        None => imp.source_path.clone(),
    };
    match (lookup_node(nodes, file), lookup_node(nodes, &target)) {
        (Some(f), Some(t)) => Some(
            Edge {
                edge_type: EdgeType::Imports,
                from: f,
                to: t,
                import: copy_opt(&imp.symbol),
                alias: copy_opt(&imp.alias),
            },
        ),
        _ => None,
    }
}

/// The import edges for the pending imports, each paired with the file that made
/// it: one edge for each import whose file and target are both among `nodes`,
/// with the import's symbol and alias, in order.
pub fn resolve_pending_imports(nodes: &Vec<Node>, pending: &Vec<(String, PendingImport)>) -> (r: Vec<Edge>)
    ensures
        edge_views(r@) == import_edges(node_views(nodes@), pending_views(pending@)),
{
    let ghost ns = node_views(nodes@);
    let ghost pv = pending_views(pending@);
    let mut out: Vec<Edge> = Vec::new();
    let mut i: usize = 0;
    while i < pending.len()
        invariant
            0 <= i <= pending@.len(),
            ns == node_views(nodes@),
            pv == pending_views(pending@),
            edge_views(out@) == import_edges(ns, pv.subrange(0, i as int)),
        decreases pending@.len() - i,
    {
        assert(pv.subrange(0, i + 1).drop_last() =~= pv.subrange(0, i as int));
        assert(pv.subrange(0, i + 1).last() == (pending@[i as int].0@, pending@[i as int].1@));
        let e = resolve_one_import(nodes, &pending[i].0, &pending[i].1);
        push_opt(&mut out, e);
        i = i + 1;
    }
    assert(pv.subrange(0, pending@.len() as int) =~= pv);
    out
}

/// Every resolved import edge joins two nodes of the graph, and carries the
/// symbol and alias of an import made by its source file, unchanged.
pub proof fn law_import_edges_join_nodes(ns: Seq<NodeModel>, pend: Seq<(Seq<char>, PendingImportModel)>)
    ensures
        forall|k: int|
            0 <= k < import_edges(ns, pend).len() ==> {
                let e = #[trigger] import_edges(ns, pend)[k];
                &&& e.typ == EdgeType::Imports
                &&& ns.contains(e.from)
                &&& ns.contains(e.to)
                &&& exists|i: int|
                    0 <= i < pend.len() && pend[i].0 == e.from.name && pend[i].1.symbol == e.import
                        && pend[i].1.alias == e.alias
            },
    decreases pend.len(),
{
    if pend.len() > 0 {
        let prev = pend.drop_last();
        law_import_edges_join_nodes(ns, prev);
        let last = pend.last();
        lemma_find_index(ns, last.0);
        lemma_find_index(ns, import_target_name(last.1));
        let all = import_edges(ns, pend);
        let pe = import_edges(ns, prev);
        assert forall|k: int| 0 <= k < all.len() implies {
            let e = #[trigger] all[k];
            &&& e.typ == EdgeType::Imports
            &&& ns.contains(e.from)
            &&& ns.contains(e.to)
            &&& exists|i: int|
                0 <= i < pend.len() && pend[i].0 == e.from.name && pend[i].1.symbol == e.import
                    && pend[i].1.alias == e.alias
        } by {
            if k < pe.len() {
                assert(all[k] == pe[k]);
                let e = pe[k];
                let i = choose|i: int|
                    0 <= i < prev.len() && prev[i].0 == e.from.name && prev[i].1.symbol == e.import
                        && prev[i].1.alias == e.alias;
                assert(pend[i] == prev[i]);
            } else {
                let fi = find_index(ns, last.0);
                let ti = find_index(ns, import_target_name(last.1));
                assert(ns[fi] == all[k].from);
                assert(ns[ti] == all[k].to);
                assert(pend[pend.len() - 1] == last);
            }
        }
    }
}

/// Every pending import whose file and target are both nodes gives its edge, with
/// its symbol and alias; the others are dropped without error.
pub proof fn law_each_resolvable_import_gives_its_edge(ns: Seq<NodeModel>, pend: Seq<(Seq<char>, PendingImportModel)>)
    ensures
        forall|i: int|
            0 <= i < pend.len() && #[trigger] resolve_import(ns, pend[i].0, pend[i].1) is Some ==> import_edges(
                ns,
                pend,
            ).contains(resolve_import(ns, pend[i].0, pend[i].1).unwrap()),
    decreases pend.len(),
{
    if pend.len() > 0 {
        let prev = pend.drop_last();
        law_each_resolvable_import_gives_its_edge(ns, prev);
        let all = import_edges(ns, pend);
        let pe = import_edges(ns, prev);
        assert forall|i: int|
            0 <= i < pend.len() && #[trigger] resolve_import(ns, pend[i].0, pend[i].1) is Some implies all.contains(
            resolve_import(ns, pend[i].0, pend[i].1).unwrap(),
        ) by {
            if i < pend.len() - 1 {
                assert(pend[i] == prev[i]);
                assert(resolve_import(ns, prev[i].0, prev[i].1) is Some);
                let e = resolve_import(ns, pend[i].0, pend[i].1).unwrap();
                let k = choose|k: int| 0 <= k < pe.len() && pe[k] == e;
                assert(all[k] == pe[k]);
            } else {
                let e = resolve_import(ns, pend[i].0, pend[i].1).unwrap();
                assert(all[pe.len() as int] == e);
            }
        }
    }
}

/// The name of the node a parameter type refers to, `<owner>:<type>`, where its
/// owner is known.
pub open spec fn reference_target_name(p: ParamTypeModel) -> Option<Seq<char>> {
    match p.package_name {
        Some(o) => Some(o + ":"@ + p.type_ident),
        None => None,
    }
}

/// The reference edge from the function named `func` to the type its parameter
/// type `p` names, where both are nodes of `ns`.
pub open spec fn resolve_reference(ns: Seq<NodeModel>, func: Seq<char>, p: ParamTypeModel) -> Option<
    EdgeModel,
> {
    match (find_node(ns, func), reference_target_name(p)) {
        (Some(f), Some(t)) => match find_node(ns, t) {
            Some(tn) => Some(
                EdgeModel { typ: EdgeType::References, from: f, to: tn, import: None, alias: None },
            ),
            None => None,
        },
        _ => None,
    }
}

/// The reference edges resolved from the parameter-type records, in order,
/// unresolvable ones dropped.
pub open spec fn reference_edges(ns: Seq<NodeModel>, refs: Seq<(Seq<char>, ParamTypeModel)>) -> Seq<
    EdgeModel,
>
    decreases refs.len(),
{
    if refs.len() == 0 {
        Seq::empty()
    } else {
        reference_edges(ns, refs.drop_last()) + opt_seq(
            resolve_reference(ns, refs.last().0, refs.last().1),
        )
    }
}

/// Every reference edge resolved in memory starts at a node of the graph that a
/// record names as its function, and ends at the node named `<owner>:<type>` for
/// that record: the type lives under the owner that the record resolved.
pub proof fn law_reference_edges_under_owner(ns: Seq<NodeModel>, refs: Seq<(Seq<char>, ParamTypeModel)>)
    ensures
        forall|k: int|
            0 <= k < reference_edges(ns, refs).len() ==> {
                let e = #[trigger] reference_edges(ns, refs)[k];
                &&& e.typ == EdgeType::References
                &&& ns.contains(e.from)
                &&& ns.contains(e.to)
                &&& exists|i: int|
                    0 <= i < refs.len() && refs[i].0 == e.from.name && refs[i].1.package_name is Some
                        && e.to.name == refs[i].1.package_name.unwrap() + ":"@ + refs[i].1.type_ident
            },
    decreases refs.len(),
{
    if refs.len() > 0 {
        let prev = refs.drop_last();
        law_reference_edges_under_owner(ns, prev);
        let last = refs.last();
        lemma_find_index(ns, last.0);
        if let Some(t) = reference_target_name(last.1) {
            lemma_find_index(ns, t);
        }
        let all = reference_edges(ns, refs);
        let pe = reference_edges(ns, prev);
        assert forall|k: int| 0 <= k < all.len() implies {
            let e = #[trigger] all[k];
            &&& e.typ == EdgeType::References
            &&& ns.contains(e.from)
            &&& ns.contains(e.to)
            &&& exists|i: int|
                0 <= i < refs.len() && refs[i].0 == e.from.name && refs[i].1.package_name is Some
                    && e.to.name == refs[i].1.package_name.unwrap() + ":"@ + refs[i].1.type_ident
        } by {
            if k < pe.len() {
                assert(all[k] == pe[k]);
                let e = pe[k];
                let i = choose|i: int|
                    0 <= i < prev.len() && prev[i].0 == e.from.name && prev[i].1.package_name is Some
                        && e.to.name == prev[i].1.package_name.unwrap() + ":"@ + prev[i].1.type_ident;
                assert(refs[i] == prev[i]);
            } else {
                let t = reference_target_name(last.1).unwrap();
                let fi = find_index(ns, last.0);
                let ti = find_index(ns, t);
                assert(ns[fi] == all[k].from);
                assert(ns[ti] == all[k].to);
                assert(refs[refs.len() - 1] == last);
            }
        }
    }
}

/// The views of parameter-type records, each with its function's name.
pub open spec fn ref_views(p: Seq<(String, FuncParamType)>) -> Seq<(Seq<char>, ParamTypeModel)> {
    p.map_values(|x: (String, FuncParamType)| (x.0@, x.1@))
}

fn resolve_one_reference(nodes: &Vec<Node>, func: &String, p: &FuncParamType) -> (r: Option<Edge>)
    ensures
        match r {
            Some(e) => resolve_reference(node_views(nodes@), func@, p@) == Some(e@),
            None => resolve_reference(node_views(nodes@), func@, p@) is None,
        },
{
    let f = match lookup_node(nodes, func) {
        Some(f) => f,
        None => {
            return None;
        },
    };
    let owner = match &p.package_name {
        Some(o) => o,
        None => {
            return None;
        },
    };
    let target = concat_str(&concat_str(owner, ":"), p.type_ident.as_str());
    match lookup_node(nodes, &target) {
        Some(t) => Some(
            Edge { edge_type: EdgeType::References, from: f, to: t, import: None, alias: None },
        ),
        None => None,
    }
}

/// The reference edges for parameter-type records whose owner is known by node
/// name, looked up among `nodes`: one edge from each record's function to the
/// node `<owner>:<type>`, where both exist, in order.
pub fn resolve_func_param_type_edges(nodes: &Vec<Node>, refs: &Vec<(String, FuncParamType)>) -> (r: Vec<Edge>)
    ensures
        edge_views(r@) == reference_edges(node_views(nodes@), ref_views(refs@)),
{
    let ghost ns = node_views(nodes@);
    let ghost rv = ref_views(refs@);
    let mut out: Vec<Edge> = Vec::new();
    let mut i: usize = 0;
    while i < refs.len()
        invariant
            0 <= i <= refs@.len(),
            ns == node_views(nodes@),
            rv == ref_views(refs@),
            edge_views(out@) == reference_edges(ns, rv.subrange(0, i as int)),
        decreases refs@.len() - i,
    {
        assert(rv.subrange(0, i + 1).drop_last() =~= rv.subrange(0, i as int));
        assert(rv.subrange(0, i + 1).last() == (refs@[i as int].0@, refs@[i as int].1@));
        let e = resolve_one_reference(nodes, &refs[i].0, &refs[i].1);
        push_opt(&mut out, e);
        i = i + 1;
    }
    assert(rv.subrange(0, refs@.len() as int) =~= rv);
    out
}

/// The type node the store reported for `(owner, short name)`: the last entry of
/// the table with that owner and short name.
pub open spec fn table_lookup(t: Seq<(Seq<char>, Seq<char>, NodeModel)>, owner: Seq<char>, short: Seq<char>) -> Option<
    NodeModel,
>
    decreases t.len(),
{
    if t.len() == 0 {
        None
    } else if t.last().0 == owner && t.last().1 == short {
        Some(t.last().2)
    } else {
        table_lookup(t.drop_last(), owner, short)
    }
}

/// The reference edge for a record `(function, owner, case-folded type name)`,
/// looked up in the table of type nodes that the store reported.
pub open spec fn resolve_by_table(
    ns: Seq<NodeModel>,
    r: (Seq<char>, Seq<char>, Seq<char>),
    t: Seq<(Seq<char>, Seq<char>, NodeModel)>,
) -> Option<EdgeModel> {
    match (find_node(ns, r.0), table_lookup(t, r.1, r.2)) {
        (Some(f), Some(tn)) => Some(
            EdgeModel { typ: EdgeType::References, from: f, to: tn, import: None, alias: None },
        ),
        _ => None,
    }
}

/// The reference edges for the records, looked up in the table, in order.
pub open spec fn table_edges(
    ns: Seq<NodeModel>,
    refs: Seq<(Seq<char>, Seq<char>, Seq<char>)>,
    t: Seq<(Seq<char>, Seq<char>, NodeModel)>,
) -> Seq<EdgeModel>
    decreases refs.len(),
{
    if refs.len() == 0 {
        Seq::empty()
    } else {
        table_edges(ns, refs.drop_last(), t) + opt_seq(resolve_by_table(ns, refs.last(), t))
    }
}

/// The views of `(function, owner, case-folded type name)` records.
pub open spec fn triple_views(p: Seq<(String, String, String)>) -> Seq<(Seq<char>, Seq<char>, Seq<char>)> {
    p.map_values(|x: (String, String, String)| (x.0@, x.1@, x.2@))
}

/// The views of table entries `(owner, short name, type node)`.
pub open spec fn table_views(p: Seq<(String, String, Node)>) -> Seq<(Seq<char>, Seq<char>, NodeModel)> {
    p.map_values(|x: (String, String, Node)| (x.0@, x.1@, x.2@))
}

fn lookup_table(table: &Vec<(String, String, Node)>, owner: &String, short: &String) -> (r: Option<Node>)
    ensures
        match r {
            Some(n) => table_lookup(table_views(table@), owner@, short@) == Some(n@),
            None => table_lookup(table_views(table@), owner@, short@) is None,
        },
{
    let ghost tv = table_views(table@);
    let mut i: usize = table.len();
    assert(tv.subrange(0, table@.len() as int) =~= tv);
    while i > 0
        invariant
            0 <= i <= table@.len(),
            tv == table_views(table@),
            table_lookup(tv, owner@, short@) == table_lookup(tv.subrange(0, i as int), owner@, short@),
        decreases i,
    {
        let ghost pre = tv.subrange(0, i as int);
        assert(pre.drop_last() =~= tv.subrange(0, i - 1));
        assert(pre.last() == (table@[i - 1].0@, table@[i - 1].1@, table@[i - 1].2@));
        if table[i - 1].0 == *owner && table[i - 1].1 == *short {
            return Some(table[i - 1].2.copied());
        }
        i = i - 1;
    }
    None
}

/// The reference edges for records `(function, owner, case-folded type name)`,
/// looked up in a table of `(owner, short name, type node)` entries that the store
/// reported: one edge from each record's function node to the table's node for its
/// owner and name, where both exist, in order.
pub fn reference_edges_from_table(
    nodes: &Vec<Node>,
    refs: &Vec<(String, String, String)>,
    table: &Vec<(String, String, Node)>,
) -> (r: Vec<Edge>)
    ensures
        edge_views(r@) == table_edges(node_views(nodes@), triple_views(refs@), table_views(table@)),
{
    let ghost ns = node_views(nodes@);
    let ghost rv = triple_views(refs@);
    let ghost tv = table_views(table@);
    let mut out: Vec<Edge> = Vec::new();
    let mut i: usize = 0;
    while i < refs.len()
        invariant
            0 <= i <= refs@.len(),
            ns == node_views(nodes@),
            rv == triple_views(refs@),
            tv == table_views(table@),
            edge_views(out@) == table_edges(ns, rv.subrange(0, i as int), tv),
        decreases refs@.len() - i,
    {
        assert(rv.subrange(0, i + 1).drop_last() =~= rv.subrange(0, i as int));
        assert(rv.subrange(0, i + 1).last() == (refs@[i as int].0@, refs@[i as int].1@, refs@[i as int].2@));
        let e = match (lookup_node(nodes, &refs[i].0), lookup_table(table, &refs[i].1, &refs[i].2)) {
            (Some(f), Some(t)) => Some(
                Edge { edge_type: EdgeType::References, from: f, to: t, import: None, alias: None },
            ),
            _ => None,
        };
        push_opt(&mut out, e);
        i = i + 1;
    }
    assert(rv.subrange(0, refs@.len() as int) =~= rv);
    out
}

/// Every reference edge found through the table starts at a node of the graph
/// named by a record, and ends at the node that the table holds for that record's
/// owner and case-folded type name.
pub proof fn law_table_edges_match_records(
    ns: Seq<NodeModel>,
    refs: Seq<(Seq<char>, Seq<char>, Seq<char>)>,
    t: Seq<(Seq<char>, Seq<char>, NodeModel)>,
)
    ensures
        forall|k: int|
            0 <= k < table_edges(ns, refs, t).len() ==> {
                let e = #[trigger] table_edges(ns, refs, t)[k];
                &&& e.typ == EdgeType::References
                &&& ns.contains(e.from)
                &&& exists|i: int|
                    0 <= i < refs.len() && refs[i].0 == e.from.name && table_lookup(t, refs[i].1, refs[i].2)
                        == Some(e.to)
            },
    decreases refs.len(),
{
    if refs.len() > 0 {
        let prev = refs.drop_last();
        law_table_edges_match_records(ns, prev, t);
        let last = refs.last();
        lemma_find_index(ns, last.0);
        let all = table_edges(ns, refs, t);
        let pe = table_edges(ns, prev, t);
        assert forall|k: int| 0 <= k < all.len() implies {
            let e = #[trigger] all[k];
            &&& e.typ == EdgeType::References
            &&& ns.contains(e.from)
            &&& exists|i: int|
                0 <= i < refs.len() && refs[i].0 == e.from.name && table_lookup(t, refs[i].1, refs[i].2)
                    == Some(e.to)
        } by {
            if k < pe.len() {
                assert(all[k] == pe[k]);
                let e = pe[k];
                let i = choose|i: int|
                    0 <= i < prev.len() && prev[i].0 == e.from.name && table_lookup(t, prev[i].1, prev[i].2)
                        == Some(e.to);
                assert(refs[i] == prev[i]);
            } else {
                let fi = find_index(ns, last.0);
                assert(ns[fi] == all[k].from);
                assert(refs[refs.len() - 1] == last);
            }
        }
    }
}

/// The record `(function, owner, case-folded type name)` for each parameter-type
/// record with a known owner, in order.
pub open spec fn lowered_refs(refs: Seq<(Seq<char>, ParamTypeModel)>) -> Seq<(Seq<char>, Seq<char>, Seq<char>)>
    decreases refs.len(),
{
    if refs.len() == 0 {
        Seq::empty()
    } else {
        let prev = lowered_refs(refs.drop_last());
        match refs.last().1.package_name {
            Some(o) => prev.push((refs.last().0, o, lower_of(refs.last().1.type_ident))),
            None => prev,
        }
    }
}

/// The record `(function, owner, case-folded type name)` of each parameter-type
/// record whose owner is known, in order.
pub fn lowered_records(refs: &Vec<(String, FuncParamType)>) -> (r: Vec<(String, String, String)>)
    ensures
        triple_views(r@) == lowered_refs(ref_views(refs@)),
{
    let ghost rv = ref_views(refs@);
    let mut lowered: Vec<(String, String, String)> = Vec::new();
    let mut i: usize = 0;
    while i < refs.len()
        invariant
            0 <= i <= refs@.len(),
            rv == ref_views(refs@),
            triple_views(lowered@) == lowered_refs(rv.subrange(0, i as int)),
        decreases refs@.len() - i,
    {
        assert(rv.subrange(0, i + 1).drop_last() =~= rv.subrange(0, i as int));
        assert(rv.subrange(0, i + 1).last() == (refs@[i as int].0@, refs@[i as int].1@));
        if let Some(owner) = &refs[i].1.package_name {
            let low = lowercase(refs[i].1.type_ident.as_str());
            let ghost before = lowered@;
            let item = (refs[i].0.clone(), owner.clone(), low);
            lowered.push(item);
            assert(triple_views(lowered@) =~= triple_views(before).push((item.0@, item.1@, item.2@)));
        }
        i = i + 1;
    }
    assert(rv.subrange(0, refs@.len() as int) =~= rv);
    lowered
}

/// The views of lookup requests `(owner, names)`.
pub open spec fn request_views(p: Seq<(String, Vec<String>)>) -> Seq<(Seq<char>, Seq<Seq<char>>)> {
    p.map_values(|x: (String, Vec<String>)| (x.0@, views(x.1@)))
}

/// Whether some request is for `owner` and asks for `name`.
pub open spec fn covered(q: Seq<(Seq<char>, Seq<Seq<char>>)>, owner: Seq<char>, name: Seq<char>) -> bool {
    exists|a: int| 0 <= a < q.len() && q[a].0 == owner && q[a].1.contains(name)
}

/// Whether some record has the owner `owner` and the case-folded name `name`.
pub open spec fn requested(recs: Seq<(Seq<char>, Seq<char>, Seq<char>)>, owner: Seq<char>, name: Seq<char>) -> bool {
    exists|k: int| 0 <= k < recs.len() && recs[k].1 == owner && recs[k].2 == name
}

/// What the store is asked for: one request per owner, each with the distinct
/// case-folded names of the records under that owner, and nothing else.
pub open spec fn requests_ok(recs: Seq<(Seq<char>, Seq<char>, Seq<char>)>, q: Seq<(Seq<char>, Seq<Seq<char>>)>) -> bool {
    &&& forall|a: int, b: int| 0 <= a < q.len() && 0 <= b < q.len() && a != b ==> q[a].0 != q[b].0
    &&& forall|i: int| 0 <= i < recs.len() ==> covered(q, #[trigger] recs[i].1, recs[i].2)
    &&& forall|a: int, n: int| 0 <= a < q.len() && 0 <= n < q[a].1.len() ==> requested(recs, q[a].0, #[trigger] q[a].1[n])
    &&& forall|a: int| 0 <= a < q.len() ==> (#[trigger] q[a].1).no_duplicates()
}

fn contains_str(v: &Vec<String>, s: &String) -> (r: bool)
    ensures
        r == views(v@).contains(s@),
{
    let mut i: usize = 0;
    while i < v.len()
        invariant
            0 <= i <= v@.len(),
            forall|j: int| 0 <= j < i ==> v@[j]@ != s@,
        decreases v@.len() - i,
    {
        if v[i] == *s {
            assert(views(v@)[i as int] == s@);
            return true;
        }
        i = i + 1;
    }
    assert forall|j: int| 0 <= j < views(v@).len() implies views(v@)[j] != s@ by {
        assert(views(v@)[j] == v@[j]@);
    }
    false
}

/// Groups the records `(function, owner, case-folded type name)` into one store
/// request per owner, as `requests_ok` states.
pub fn lookup_requests(recs: &Vec<(String, String, String)>) -> (r: Vec<(String, Vec<String>)>)
    ensures
        requests_ok(triple_views(recs@), request_views(r@)),
{
    let ghost tv = triple_views(recs@);
    let mut out: Vec<(String, Vec<String>)> = Vec::new();
    let mut i: usize = 0;
    while i < recs.len()
        invariant
            0 <= i <= recs@.len(),
            tv == triple_views(recs@),
            requests_ok(tv.subrange(0, i as int), request_views(out@)),
        decreases recs@.len() - i,
    {
        let ghost pre = tv.subrange(0, i as int);
        let ghost cur = tv.subrange(0, i + 1);
        let ghost q0 = request_views(out@);
        let ghost before = out@;
        assert(cur[i as int] == (recs@[i as int].0@, recs@[i as int].1@, recs@[i as int].2@));
        assert forall|k: int| 0 <= k < i implies cur[k] == pre[k] by {}
        let owner = &recs[i].1;
        let name = &recs[i].2;
        let mut a: usize = 0;
        while a < out.len() && out[a].0 != *owner
            invariant
                0 <= a <= out@.len(),
                out@ == before,
                q0 == request_views(out@),
                forall|b: int| 0 <= b < a ==> out@[b].0@ != owner@,
            decreases out@.len() - a,
        {
            a = a + 1;
        }
        // The request at `target` is for this record's owner and asks for its name.
        let ghost target: int;
        if a < out.len() {
            proof {
                target = a as int;
            }
            let ghost old_names = q0[a as int].1;
            if !contains_str(&out[a].1, name) {
                let mut names = out[a].1.clone();
                names.push(name.clone());
                assert(views(out@[a as int].1@) == old_names);
                assert(views(names@) =~= old_names.push(name@));
                let key = out[a].0.clone();
                out.set(a, (key, names));
                assert(request_views(out@) =~= q0.update(a as int, (owner@, old_names.push(name@))));
                assert(old_names.push(name@).no_duplicates()) by {
                    assert forall|x: int, y: int|
                        0 <= x < old_names.len() + 1 && 0 <= y < old_names.len() + 1 && x != y implies old_names.push(
                        name@,
                    )[x] != old_names.push(name@)[y] by {
                        if x == old_names.len() {
                            assert(old_names[y] != name@);
                        } else if y == old_names.len() {
                            assert(old_names[x] != name@);
                        } else {
                            assert(old_names.no_duplicates());
                        }
                    }
                }
            } else {
                assert(request_views(out@) == q0);
            }
        } else {
            proof {
                target = q0.len() as int;
            }
            let mut names: Vec<String> = Vec::new();
            names.push(name.clone());
            assert(views(names@) =~= seq![name@]);
            out.push((owner.clone(), names));
            assert(request_views(out@) =~= q0.push((owner@, seq![name@])));
            assert forall|x: int| 0 <= x < q0.len() implies q0[x].0 != owner@ by {
                assert(q0[x].0 == before[x].0@);
            }
        }
        let ghost q = request_views(out@);
        proof {
            // Requests other than `target` are unchanged; `target` keeps its names and
            // holds this record's name.
            assert(q.len() == q0.len() || q.len() == q0.len() + 1);
            assert(0 <= target < q.len());
            assert(q[target].0 == owner@);
            assert forall|x: int| 0 <= x < q0.len() && x != target implies q[x] == q0[x] by {}
            assert forall|n: int| target < q0.len() && 0 <= n < q0[target].1.len() implies q[target].1[n]
                == q0[target].1[n] by {}
            assert(q[target].1.contains(name@)) by {
                if target < q0.len() && q0[target].1.contains(name@) {
                    let n = choose|n: int| 0 <= n < q0[target].1.len() && q0[target].1[n] == name@;
                    assert(q[target].1[n] == name@);
                } else {
                    assert(q[target].1[q[target].1.len() - 1] == name@);
                }
            }
            assert forall|x: int, n: int|
                0 <= x < q.len() && 0 <= n < q[x].1.len() implies requested(cur, q[x].0, #[trigger] q[x].1[n]) by {
                if x < q0.len() && n < q0[x].1.len() {
                    assert(q[x].0 == q0[x].0 && q[x].1[n] == q0[x].1[n]);
                    assert(requested(pre, q0[x].0, q0[x].1[n]));
                    let k = choose|k: int| 0 <= k < pre.len() && pre[k].1 == q0[x].0 && pre[k].2 == q0[x].1[n];
                    assert(cur[k] == pre[k]);
                } else {
                    assert(x == target);
                    assert(q[x].1[n] == name@);
                    assert(cur[i as int].1 == q[x].0 && cur[i as int].2 == q[x].1[n]);
                }
            }
            assert forall|k: int| 0 <= k < cur.len() implies covered(q, #[trigger] cur[k].1, cur[k].2) by {
                if k < i {
                    assert(covered(q0, pre[k].1, pre[k].2));
                    let b = choose|b: int| 0 <= b < q0.len() && q0[b].0 == pre[k].1 && q0[b].1.contains(pre[k].2);
                    let n = choose|n: int| 0 <= n < q0[b].1.len() && q0[b].1[n] == pre[k].2;
                    assert(q[b].0 == q0[b].0);
                    assert(q[b].1[n] == pre[k].2);
                } else {
                    assert(q[target].1.contains(cur[k].2));
                }
            }
            assert forall|x: int, y: int| 0 <= x < q.len() && 0 <= y < q.len() && x != y implies q[x].0 != q[y].0 by {
                if x != target && y != target {
                    assert(q[x] == q0[x] && q[y] == q0[y]);
                } else if x == target {
                    if target < q0.len() {
                        assert(q[y] == q0[y]);
                        assert(q0[target].0 == owner@);
                    } else {
                        assert(q[y] == q0[y]);
                    }
                } else {
                    if target < q0.len() {
                        assert(q[x] == q0[x]);
                        assert(q0[target].0 == owner@);
                    } else {
                        assert(q[x] == q0[x]);
                    }
                }
            }
            assert forall|x: int| 0 <= x < q.len() implies (#[trigger] q[x].1).no_duplicates() by {
                if x != target {
                    assert(q[x] == q0[x]);
                }
            }
        }
        assert(tv.subrange(0, i + 1) == cur);
        i = i + 1;
    }
    assert(tv.subrange(0, recs@.len() as int) =~= tv);
    out
}

/// The table entries `(owner, short name, node)` for the type nodes the store
/// reported under each owner, in order.
pub open spec fn table_of(found: Seq<(Seq<char>, NodeModel)>) -> Seq<(Seq<char>, Seq<char>, NodeModel)> {
    found.map_values(|x: (Seq<char>, NodeModel)| (x.0, short_name_of(x.1.name), x.1))
}

/// The views of `(owner, type node)` pairs.
pub open spec fn found_views(p: Seq<(String, Node)>) -> Seq<(Seq<char>, NodeModel)> {
    p.map_values(|x: (String, Node)| (x.0@, x.1@))
}

/// The reference edges for parameter-type records resolved against the type
/// nodes that the store reported under each owner (`found`, as `(owner, node)`):
/// a record's type matches a node under its owner whose short name is the type
/// name case-folded.
pub fn resolve_func_param_type_edges_from_db(
    nodes: &Vec<Node>,
    refs: &Vec<(String, FuncParamType)>,
    found: &Vec<(String, Node)>,
) -> (r: Vec<Edge>)
    ensures
        edge_views(r@) == table_edges(
            node_views(nodes@),
            lowered_refs(ref_views(refs@)),
            table_of(found_views(found@)),
        ),
{
    let lowered = lowered_records(refs);
    let ghost fv = found_views(found@);
    let mut table: Vec<(String, String, Node)> = Vec::new();
    let mut j: usize = 0;
    while j < found.len()
        invariant
            0 <= j <= found@.len(),
            fv == found_views(found@),
            table_views(table@) == table_of(fv.subrange(0, j as int)),
        decreases found@.len() - j,
    {
        let ghost before = table@;
        let item = (found[j].0.clone(), found[j].1.short_name(), found[j].1.copied());
        table.push(item);
        assert(table_views(table@) =~= table_views(before).push((item.0@, item.1@, item.2@)));
        assert(fv.subrange(0, j + 1) =~= fv.subrange(0, j as int).push(fv[j as int]));
        assert(table_of(fv.subrange(0, j + 1)) =~= table_of(fv.subrange(0, j as int)).push(
            (item.0@, item.1@, item.2@),
        ));
        j = j + 1;
    }
    assert(fv.subrange(0, found@.len() as int) =~= fv);
    reference_edges_from_table(nodes, &lowered, &table)
}

} // verus!
