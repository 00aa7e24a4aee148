use vstd::prelude::*;

use crate::parser::{FuncParamType, ParamTypeModel};
use crate::text::{
    after_first, after_last, before_first, before_last, char_vec, find_first, find_last,
    lemma_first_index_bounds, lemma_last_index_bounds,
    slice_string, starts_with, string_of, tail_after_last,
};
use crate::types::{edge_views, Edge, EdgeModel, EdgeType, Language, Node, NodeModel, NodeType};
use crate::util::{
    get_repo_module_file_path, is_go_builtin, is_go_builtin_type, module_file_path, trim,
    trim_range,
};

verus! {

/// Index of the last `*` or `]` in `s`, or -1.
pub open spec fn last_modifier_index(s: Seq<char>) -> int
    decreases s.len(),
{
    if s.len() == 0 {
        -1
    } else if s.last() == '*' || s.last() == ']' {
        s.len() - 1
    } else {
        last_modifier_index(s.drop_last())
    }
}

/// The bare type of a parameter type expression: what follows the last pointer,
/// slice or map-key marker, trimmed (`[]*Foo`, `map[string]Foo` give `Foo`).
pub open spec fn go_base_type(s: Seq<char>) -> Seq<char> {
    trim(s.subrange(last_modifier_index(s) + 1, s.len() as int))
}

/// Whether a parameter type is an inline `func`, `struct` or `interface` literal.
pub open spec fn is_inline_go_type(s: Seq<char>) -> bool {
    s.len() >= 4 && s.subrange(0, 4) == "func"@ || s.len() >= 6 && s.subrange(0, 6) == "struct"@
        || s.len() >= 9 && s.subrange(0, 9) == "interface"@
}

/// The target of the first import edge that binds `pkg`, by import name or alias.
pub open spec fn import_owner(edges: Seq<EdgeModel>, pkg: Seq<char>) -> Option<Seq<char>>
    decreases edges.len(),
{
    if edges.len() == 0 {
        None
    } else if edges[0].import == Some(pkg) || edges[0].alias == Some(pkg) {
        Some(edges[0].to.name)
    } else {
        import_owner(edges.drop_first(), pkg)
    }
}

/// The directory of the package a function node belongs to: its parent path,
/// the root (the empty name) for a file at the top of the repository.
pub open spec fn go_package_dir(from: Seq<char>) -> Seq<char> {
    before_last(from, '/')
}

/// The parameter-type record for one Go parameter type of the function node
/// `from`, given the file's import edges; `None` for inline literals and
/// predeclared types.
pub open spec fn go_param_type_of(from: Seq<char>, text: Seq<char>, imports: Seq<EdgeModel>) -> Option<
    ParamTypeModel,
> {
    let base = go_base_type(text);
    let qualified = base.contains('.');
    let ty = if qualified {
        after_first(base, '.')
    } else {
        base
    };
    let owner = if qualified {
        import_owner(imports, before_first(base, '.'))
    } else {
        Some(go_package_dir(from))
    };
    if is_inline_go_type(text) || is_go_builtin(ty) {
        None
    } else {
        Some(ParamTypeModel { type_ident: ty, package_name: owner })
    }
}

/// Where the bare type starts: just past the last `*` or `]`.
fn base_type_start(s: &Vec<char>) -> (r: usize)
    ensures
        r as int == last_modifier_index(s@) + 1,
        r <= s@.len(),
{
    let mut start: usize = 0;
    let mut i: usize = 0;
    while i < s.len()
        invariant
            0 <= i <= s@.len(),
            start as int == last_modifier_index(s@.subrange(0, i as int)) + 1,
            start <= i,
        decreases s@.len() - i,
    {
        assert(s@.subrange(0, i + 1).drop_last() =~= s@.subrange(0, i as int));
        if s[i] == '*' || s[i] == ']' {
            start = i + 1;
        }
        i = i + 1;
    }
    assert(s@.subrange(0, s@.len() as int) =~= s@);
    start
}

fn has_prefix(s: &Vec<char>, lit: &str) -> (r: bool)
    ensures
        r == (lit@.len() <= s@.len() && s@.subrange(0, lit@.len() as int) == lit@),
{
    starts_with(s, &char_vec(lit))
}

/// The owner of `pkg` among the import edges, as `import_owner` states.
fn find_import_owner(imports: &Vec<Edge>, pkg: &String) -> (r: Option<String>)
    ensures
        match r {
            Some(o) => import_owner(edge_views(imports@), pkg@) == Some(o@),
            None => import_owner(edge_views(imports@), pkg@) is None,
        },
{
    let mut i: usize = 0;
    assert(edge_views(imports@).subrange(0, imports@.len() as int) =~= edge_views(imports@));
    while i < imports.len()
        invariant
            0 <= i <= imports@.len(),
            import_owner(edge_views(imports@), pkg@) == import_owner(
                edge_views(imports@).subrange(i as int, imports@.len() as int),
                pkg@,
            ),
        decreases imports@.len() - i,
    {
        let ghost rest = edge_views(imports@).subrange(i as int, imports@.len() as int);
        assert(rest[0] == imports@[i as int]@);
        assert(rest.drop_first() =~= edge_views(imports@).subrange(i + 1, imports@.len() as int));
        let e = &imports[i];
        let by_import = match &e.import {
            Some(s) => *s == *pkg,
            None => false,
        };
        let by_alias = match &e.alias {
            Some(s) => *s == *pkg,
            None => false,
        };
        if by_import || by_alias {
            return Some(e.to.name.clone());
        }
        i = i + 1;
    }
    assert(edge_views(imports@).subrange(i as int, imports@.len() as int).len() == 0);
    None
}

/// The parameter-type record for the Go parameter type `param_type_name` of the
/// function node `from_node_name`, resolving a package qualifier through the
/// file's import edges.
pub fn parse_func_param_type(from_node_name: &String, param_type_name: &String, import_edges: &Vec<Edge>) -> (r:
    Option<FuncParamType>)
    ensures
        match r {
            Some(p) => go_param_type_of(from_node_name@, param_type_name@, edge_views(import_edges@))
                == Some(p@),
            None => go_param_type_of(from_node_name@, param_type_name@, edge_views(import_edges@)) is None,
        },
{
    let text = char_vec(param_type_name.as_str());
    proof {
        reveal_strlit("func");
        reveal_strlit("struct");
        reveal_strlit("interface");
    }
    if has_prefix(&text, "func") || has_prefix(&text, "struct") || has_prefix(&text, "interface") {
        return None;
    }
    let k = base_type_start(&text);
    let base_s = trim_range(&text, k, text.len());
    let base = char_vec(base_s.as_str());
    proof {
        lemma_first_index_bounds(base@, '.');
    }
    let (ty, owner) = match find_first(&base, '.') {
        Some(dot) => {
            let pkg = slice_string(&base, 0, dot);
            let ty = slice_string(&base, dot + 1, base.len());
            (ty, find_import_owner(import_edges, &pkg))
        },
        None => {
            let from = char_vec(from_node_name.as_str());
            proof {
                lemma_last_index_bounds(from@, '/');
            }
            let dir = match find_last(&from, '/') {
                Some(slash) => slice_string(&from, 0, slash),
                None => String::new(),
            };
            (string_of(base.as_slice()), Some(dir))
        },
    };
    if is_go_builtin_type(ty.as_str()) {
        return None;
    }
    Some(FuncParamType { type_ident: ty, package_name: owner })
}

/// `s` without leading double quotes.
pub open spec fn trim_quotes_start(s: Seq<char>) -> Seq<char>
    decreases s.len(),
{
    if s.len() > 0 && s[0] == '"' {
        trim_quotes_start(s.drop_first())
    } else {
        s
    }
}

/// `s` without trailing double quotes.
pub open spec fn trim_quotes_end(s: Seq<char>) -> Seq<char>
    decreases s.len(),
{
    if s.len() > 0 && s.last() == '"' {
        trim_quotes_end(s.drop_last())
    } else {
        s
    }
}

/// `s` without double quotes at either end.
pub open spec fn trim_quotes(s: Seq<char>) -> Seq<char> {
    trim_quotes_end(trim_quotes_start(s))
}

fn trim_quotes_range(s: &Vec<char>, lo: usize, hi: usize) -> (r: String)
    requires
        lo <= hi <= s@.len(),
    ensures
        r@ == trim_quotes(s@.subrange(lo as int, hi as int)),
        r@.len() <= hi - lo,
{
    let mut a: usize = lo;
    while a < hi && s[a] == '"'
        invariant
            lo <= a <= hi <= s@.len(),
            trim_quotes_start(s@.subrange(a as int, hi as int)) == trim_quotes_start(
                s@.subrange(lo as int, hi as int),
            ),
        decreases hi - a,
    {
        assert(s@.subrange(a as int, hi as int).drop_first() =~= s@.subrange(a + 1, hi as int));
        a = a + 1;
    }
    let mut b: usize = hi;
    while b > a && s[b - 1] == '"'
        invariant
            lo <= a <= b <= hi <= s@.len(),
            trim_quotes_end(s@.subrange(a as int, b as int)) == trim_quotes(
                s@.subrange(lo as int, hi as int),
            ),
        decreases b - a,
    {
        assert(s@.subrange(a as int, b as int).drop_last() =~= s@.subrange(a as int, b - 1));
        b = b - 1;
    }
    slice_string(s, a, b)
}

/// The alias of an import spec `[alias] "path"`: what precedes its first space.
pub open spec fn go_import_alias(spec_text: Seq<char>) -> Option<Seq<char>> {
    if spec_text.contains(' ') {
        Some(before_first(spec_text, ' '))
    } else {
        None
    }
}

/// The module path of an import spec `[alias] "path"`, unquoted.
pub open spec fn go_import_path(spec_text: Seq<char>) -> Seq<char> {
    if spec_text.contains(' ') {
        trim_quotes(after_first(spec_text, ' '))
    } else {
        trim_quotes(spec_text)
    }
}

/// A node with only a type and a name.
pub open spec fn bare_node(t: NodeType, name: Seq<char>) -> NodeModel {
    NodeModel {
        name,
        typ: t,
        language: Language::Text,
        start_line: 0,
        end_line: 0,
        code: Seq::empty(),
        skeleton_code: Seq::empty(),
    }
}

/// The import edge for one Go import spec of the file `file`, where the module
/// lies inside the repository whose module path is `module`.
pub open spec fn go_import_edge_of(file: NodeModel, spec_text: Seq<char>, module: Seq<char>) -> Option<EdgeModel> {
    match module_file_path(Seq::empty(), module, go_import_path(spec_text)) {
        Some(dir) => Some(
            EdgeModel {
                typ: EdgeType::Imports,
                from: bare_node(file.typ, file.name),
                to: bare_node(NodeType::Directory, dir),
                import: Some(after_last(go_import_path(spec_text), '/')),
                alias: go_import_alias(spec_text),
            },
        ),
        None => None,
    }
}

/// The import edge for one Go import spec of the file `file_node`, where the
/// module lies inside the repository whose module path is `go_module_path`: to the
/// directory node the path maps to, with the last path segment as import name
/// and the spec's alias.
pub fn go_import_edge(file_node: &Node, spec_text: &String, go_module_path: &String) -> (r: Option<Edge>)
    ensures
        match r {
            Some(e) => go_import_edge_of(file_node@, spec_text@, go_module_path@) == Some(e@),
            None => go_import_edge_of(file_node@, spec_text@, go_module_path@) is None,
        },
        r is None <==> module_file_path(Seq::empty(), go_module_path@, go_import_path(spec_text@)) is None,
        r matches Some(e) ==> {
            &&& e@.typ == EdgeType::Imports
            &&& e@.from.name == file_node@.name
            &&& e@.from.typ == file_node@.typ
            &&& e@.to.typ == NodeType::Directory
            &&& Some(e@.to.name) == module_file_path(Seq::empty(), go_module_path@, go_import_path(spec_text@))
            &&& e@.import == Some(after_last(go_import_path(spec_text@), '/'))
            &&& e@.alias == go_import_alias(spec_text@)
        },
{
    let text = char_vec(spec_text.as_str());
    proof {
        lemma_first_index_bounds(text@, ' ');
    }
    let n = text.len();
    let (alias, path) = match find_first(&text, ' ') {
        Some(sp) => (Some(slice_string(&text, 0, sp)), trim_quotes_range(&text, sp + 1, n)),
        None => {
            assert(text@.subrange(0, text@.len() as int) =~= text@);
            (None, trim_quotes_range(&text, 0, text.len()))
        },
    };
    let target = get_repo_module_file_path(&String::new(), go_module_path, &path);
    match target {
        None => None,
        Some(dir) => {
            let name = tail_after_last(path.as_str(), '/');
            let e = Edge {
                edge_type: EdgeType::Imports,
                from: Node::from_type_and_name(file_node.node_type, file_node.name.clone()),
                to: Node::from_type_and_name(NodeType::Directory, dir),
                import: Some(name),
                alias,
            };
            assert(e@.from =~= bare_node(file_node@.typ, file_node@.name));
            assert(e@.to =~= bare_node(NodeType::Directory, dir@));
            Some(e)
        }
    }
}

} // verus!
