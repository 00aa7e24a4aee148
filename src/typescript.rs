use vstd::prelude::*;

use crate::parser::{FuncParamType, ParamTypeModel, PendingImport};
use crate::text::{
    after_first, before_first, char_vec, find_first, lemma_first_index_bounds,
    regex_captures, regex_group_matches, slice_string, views,
};
use crate::text::{after_last, find_last, last_index_of, lemma_last_index_bounds, starts_with};
use crate::types::{opt_view, Language};
use crate::util::join_path;

verus! {

/// Identifiers of a type expression: a name at the start or after `<`, `,` or
/// whitespace, with any `[]` suffixes, followed by a delimiter or the end.
pub const TS_TYPE_PATTERN: &'static str = r"(^|[<,\s])([A-Za-z_][A-Za-z0-9_]*)(?:\[\])*(>|,|\s|$|&|\|)?";

/// The names that TypeScript or its standard library provide.
pub open spec fn is_ts_builtin(s: Seq<char>) -> bool {
    s == "string"@ || s == "number"@ || s == "boolean"@ || s == "any"@ || s == "void"@ || s
        == "null"@ || s == "undefined"@ || s == "unknown"@ || s == "never"@ || s == "object"@ || s
        == "bigint"@ || s == "symbol"@ || s == "function"@ || s == "Map"@ || s == "Promise"@ || s
        == "Array"@ || s == "Record"@ || s == "Partial"@
}

/// The identifiers kept from `idents`: each one once, at its first occurrence,
/// and, where `exclude_builtin`, none of the builtin names.
pub open spec fn ts_type_list(idents: Seq<Seq<char>>, exclude_builtin: bool) -> Seq<Seq<char>>
    decreases idents.len(),
{
    if idents.len() == 0 {
        Seq::empty()
    } else {
        let prev = ts_type_list(idents.drop_last(), exclude_builtin);
        let t = idents.last();
        if (!exclude_builtin || !is_ts_builtin(t)) && !prev.contains(t) {
            prev.push(t)
        } else {
            prev
        }
    }
}

fn is_lit(s: &String, lit: &str) -> (r: bool)
    ensures
        r == (s@ == lit@),
{
    *s == String::from_str(lit)
}

fn is_ts_builtin_name(s: &String) -> (r: bool)
    ensures
        r == is_ts_builtin(s@),
{
    is_lit(s, "string") || is_lit(s, "number") || is_lit(s, "boolean") || is_lit(s, "any")
        || is_lit(s, "void") || is_lit(s, "null") || is_lit(s, "undefined") || is_lit(s, "unknown")
        || is_lit(s, "never") || is_lit(s, "object") || is_lit(s, "bigint") || is_lit(s, "symbol")
        || is_lit(s, "function") || is_lit(s, "Map") || is_lit(s, "Promise") || is_lit(s, "Array")
        || is_lit(s, "Record") || is_lit(s, "Partial")
}

/// Whether `v` holds a string equal to `s`.
fn contains_string(v: &Vec<String>, s: &String) -> (r: bool)
    ensures
        r == views(v@).contains(s@),
{
    let mut i: usize = 0;
    while i < v.len()
        invariant
            0 <= i <= v@.len(),
            forall|j: int| 0 <= j < i ==> v@[j]@ != s@,
        decreases v@.len() - i,
    {
        if v[i] == *s {
            assert(views(v@)[i as int] == s@);
            return true;
        }
        i = i + 1;
    }
    assert forall|j: int| 0 <= j < views(v@).len() implies views(v@)[j] != s@ by {
        assert(views(v@)[j] == v@[j]@);
    }
    false
}

/// The type names kept from the identifiers of a type expression, as
/// `ts_type_list` states.
pub fn filter_ts_types(idents: &Vec<String>, exclude_builtin: bool) -> (r: Vec<String>)
    ensures
        views(r@) == ts_type_list(views(idents@), exclude_builtin),
{
    let mut out: Vec<String> = Vec::new();
    let mut i: usize = 0;
    while i < idents.len()
        invariant
            0 <= i <= idents@.len(),
            views(out@) == ts_type_list(views(idents@).subrange(0, i as int), exclude_builtin),
        decreases idents@.len() - i,
    {
        let ghost pre = views(idents@).subrange(0, i as int);
        assert(views(idents@).subrange(0, i + 1).drop_last() =~= pre);
        assert(views(idents@).subrange(0, i + 1).last() == idents@[i as int]@);
        let t = &idents[i];
        if (!exclude_builtin || !is_ts_builtin_name(t)) && !contains_string(&out, t) {
            out.push(t.clone());
            assert(views(out@) =~= views(out@).subrange(0, out@.len() - 1).push(t@));
            assert(views(out@).subrange(0, out@.len() - 1) =~= ts_type_list(pre, exclude_builtin));
        }
        i = i + 1;
    }
    assert(views(idents@).subrange(0, idents@.len() as int) =~= views(idents@));
    out
}

/// The type names referenced by a TypeScript type expression, in order of first
/// appearance, without the builtin names where `exclude_builtin`.
pub fn extract_ts_types(type_str: &str, exclude_builtin: bool) -> (r: Vec<String>)
    ensures
        views(r@) == ts_type_list(
            regex_group_matches(TS_TYPE_PATTERN@, type_str@, 2),
            exclude_builtin,
        ),
{
    let idents = regex_captures(TS_TYPE_PATTERN, type_str, 2);
    filter_ts_types(&idents, exclude_builtin)
}

/// The value of an entry of the import-name table: local name, source path.
pub open spec fn pair_views(m: Seq<(String, String)>) -> Seq<(Seq<char>, Seq<char>)> {
    m.map_values(|p: (String, String)| (p.0@, p.1@))
}

/// The source path bound to `k` by the last entry for it, as a map that each
/// entry overwrites gives it.
pub open spec fn lookup(m: Seq<(Seq<char>, Seq<char>)>, k: Seq<char>) -> Option<Seq<char>>
    decreases m.len(),
{
    if m.len() == 0 {
        None
    } else if m.last().0 == k {
        Some(m.last().1)
    } else {
        lookup(m.drop_last(), k)
    }
}

/// The record for a type name `name` referenced by the function node `from`:
/// `A.B` is owned by the module imported as `A`; a bare name by the module it was
/// imported from, else by the function's own file.
pub open spec fn ts_param_type_of(from: Seq<char>, name: Seq<char>, imports: Seq<(Seq<char>, Seq<char>)>) -> ParamTypeModel {
    if name.contains('.') {
        ParamTypeModel {
            type_ident: after_first(name, '.'),
            package_name: lookup(imports, before_first(name, '.')),
        }
    } else {
        ParamTypeModel {
            type_ident: name,
            package_name: match lookup(imports, name) {
                Some(p) => Some(p),
                None => Some(before_first(from, ':')),
            },
        }
    }
}

/// The views of a sequence of parameter-type records.
pub open spec fn param_views(s: Seq<FuncParamType>) -> Seq<ParamTypeModel> {
    s.map_values(|p: FuncParamType| p@)
}

fn lookup_import(imports: &Vec<(String, String)>, k: &String) -> (r: Option<String>)
    ensures
        opt_view(r) == lookup(pair_views(imports@), k@),
{
    let mut i: usize = imports.len();
    assert(pair_views(imports@).subrange(0, imports@.len() as int) =~= pair_views(imports@));
    while i > 0
        invariant
            0 <= i <= imports@.len(),
            lookup(pair_views(imports@), k@) == lookup(pair_views(imports@).subrange(0, i as int), k@),
        decreases i,
    {
        let ghost pre = pair_views(imports@).subrange(0, i as int);
        assert(pre.drop_last() =~= pair_views(imports@).subrange(0, i - 1));
        assert(pre.last() == (imports@[i - 1].0@, imports@[i - 1].1@));
        if imports[i - 1].0 == *k {
            return Some(imports[i - 1].1.clone());
        }
        i = i - 1;
    }
    None
}

/// The record for one referenced type name, as `ts_param_type_of` states.
pub fn ts_param_type(from_node_name: &String, name: &String, imports: &Vec<(String, String)>) -> (r:
    FuncParamType)
    ensures
        r@ == ts_param_type_of(from_node_name@, name@, pair_views(imports@)),
{
    let v = char_vec(name.as_str());
    proof {
        lemma_first_index_bounds(v@, '.');
    }
    if let Some(dot) = find_first(&v, '.') {
        let module = slice_string(&v, 0, dot);
        let ty = slice_string(&v, dot + 1, v.len());
        FuncParamType { type_ident: ty, package_name: lookup_import(imports, &module) }
    } else {
        let owner = match lookup_import(imports, name) {
            Some(p) => p,
            None => {
                let f = char_vec(from_node_name.as_str());
                proof {
                    lemma_first_index_bounds(f@, ':');
                }
                if let Some(colon) = find_first(&f, ':') {
                    slice_string(&f, 0, colon)
                } else {
                    assert(f@.subrange(0, f@.len() as int) =~= f@);
                    slice_string(&f, 0, f.len())
                }
            },
        };
        FuncParamType { type_ident: name.clone(), package_name: Some(owner) }
    }
}

/// The records for the type names `names` referenced by the function node
/// `from_node_name`, one for each name, in order.
pub fn param_types_from_names(from_node_name: &String, names: &Vec<String>, imports: &Vec<(String, String)>) -> (r:
    Vec<FuncParamType>)
    ensures
        param_views(r@) == views(names@).map_values(
            |n: Seq<char>| ts_param_type_of(from_node_name@, n, pair_views(imports@)),
        ),
{
    let mut out: Vec<FuncParamType> = Vec::new();
    let mut i: usize = 0;
    while i < names.len()
        invariant
            0 <= i <= names@.len(),
            param_views(out@) == views(names@).subrange(0, i as int).map_values(
                |n: Seq<char>| ts_param_type_of(from_node_name@, n, pair_views(imports@)),
            ),
        decreases names@.len() - i,
    {
        let p = ts_param_type(from_node_name, &names[i], imports);
        let ghost before = out@;
        let ghost f = |n: Seq<char>| ts_param_type_of(from_node_name@, n, pair_views(imports@));
        out.push(p);
        assert(param_views(out@) =~= param_views(before).push(p@));
        assert(views(names@).subrange(0, i + 1) =~= views(names@).subrange(0, i as int).push(
            names@[i as int]@,
        ));
        assert(views(names@).subrange(0, i + 1).map_values(f) =~= views(names@).subrange(
            0,
            i as int,
        ).map_values(f).push(f(names@[i as int]@)));
        i = i + 1;
    }
    assert(views(names@).subrange(0, names@.len() as int) =~= views(names@));
    out
}

/// The records for the types that the parameter type expression `param_type_text`
/// of the function node `from_node_name` refers to, builtins left out.
pub fn parse_func_param_types(from_node_name: &String, param_type_text: &String, imports: &Vec<(String, String)>) -> (r:
    Vec<FuncParamType>)
    ensures
        param_views(r@) == ts_type_list(
            regex_group_matches(TS_TYPE_PATTERN@, param_type_text@, 2),
            true,
        ).map_values(|n: Seq<char>| ts_param_type_of(from_node_name@, n, pair_views(imports@))),
{
    let names = extract_ts_types(param_type_text.as_str(), true);
    param_types_from_names(from_node_name, &names, imports)
}

/// The kinds of capture in an import statement.
#[derive(Debug, Clone, Copy, PartialEq, Eq, Structural)]
pub enum ImportCapture {
    /// `X` in `import * as X from 'Y'`.
    NamespaceAlias,
    /// `X` in `import { X } from 'Y'` and `import { X as x } from 'Y'`.
    NamedName,
    /// `x` in `import { X as x } from 'Y'`.
    NamedAlias,
    /// `X` in `import X from 'Y'`.
    DefaultAlias,
    /// `Y` in any of these.
    Source,
}

/// The symbol name that stands for a module's default export.
pub const DEFAULT_EXPORT: &'static str = "export default";

/// The symbol and alias that the captures of one import statement give, folding
/// them in order over `(symbol, alias)`.
pub open spec fn import_binding(caps: Seq<(ImportCapture, Seq<char>)>) -> (Option<Seq<char>>, Option<Seq<char>>)
    decreases caps.len(),
{
    if caps.len() == 0 {
        (None, None)
    } else {
        let prev = import_binding(caps.drop_last());
        let (kind, text) = caps.last();
        match kind {
            ImportCapture::NamespaceAlias => (prev.0, Some(text)),
            ImportCapture::NamedName => (Some(text), prev.1),
            ImportCapture::NamedAlias => (prev.0, Some(text)),
            ImportCapture::DefaultAlias => (Some(DEFAULT_EXPORT@), Some(text)),
            ImportCapture::Source => prev,
        }
    }
}

/// The views of a sequence of import captures.
pub open spec fn capture_views(caps: Seq<(ImportCapture, String)>) -> Seq<(ImportCapture, Seq<char>)> {
    caps.map_values(|c: (ImportCapture, String)| (c.0, c.1@))
}

/// The pending import for one import statement, from its captures and the
/// repository-relative path that its source resolved to.
pub fn pending_import_from_captures(captures: &Vec<(ImportCapture, String)>, source_path: &String) -> (r:
    PendingImport)
    ensures
        r@.language == Language::TypeScript,
        r@.source_path == source_path@,
        (r@.symbol, r@.alias) == import_binding(capture_views(captures@)),
{
    let mut symbol: Option<String> = None;
    let mut alias: Option<String> = None;
    let mut i: usize = 0;
    while i < captures.len()
        invariant
            0 <= i <= captures@.len(),
            (opt_view(symbol), opt_view(alias)) == import_binding(
                capture_views(captures@).subrange(0, i as int),
            ),
        decreases captures@.len() - i,
    {
        let ghost pre = capture_views(captures@).subrange(0, i + 1);
        assert(pre.drop_last() =~= capture_views(captures@).subrange(0, i as int));
        assert(pre.last() == (captures@[i as int].0, captures@[i as int].1@));
        let (kind, text) = (&captures[i].0, &captures[i].1);
        match kind {
            ImportCapture::NamespaceAlias => {
                alias = Some(text.clone());
            },
            ImportCapture::NamedName => {
                symbol = Some(text.clone());
            },
            ImportCapture::NamedAlias => {
                alias = Some(text.clone());
            },
            ImportCapture::DefaultAlias => {
                symbol = Some(String::from_str(DEFAULT_EXPORT));
                alias = Some(text.clone());
            },
            ImportCapture::Source => {},
        }
        i = i + 1;
    }
    assert(capture_views(captures@).subrange(0, captures@.len() as int) =~= capture_views(
        captures@,
    ));
    PendingImport {
        language: Language::TypeScript,
        source_path: source_path.clone(),
        symbol,
        alias,
    }
}

/// Whether an import specifier is relative (`./…` or `../…`); only those are resolved.
pub open spec fn is_relative_specifier(s: Seq<char>) -> bool {
    s.len() >= 2 && s.subrange(0, 2) == "./"@ || s.len() >= 3 && s.subrange(0, 3) == "../"@
}

/// Whether an import specifier is relative (`./…` or `../…`).
pub fn is_relative_import(spec: &str) -> (r: bool)
    ensures
        r == is_relative_specifier(spec@),
{
    let v = char_vec(spec);
    proof {
        reveal_strlit("./");
        reveal_strlit("../");
    }
    starts_with(&v, &char_vec("./")) || starts_with(&v, &char_vec("../"))
}

/// `path` with the extension of its last component set to `ext`: what follows a
/// dot that is not the component's first character is replaced, and `.ext`
/// appended where there is none.
pub open spec fn with_extension(path: Seq<char>, ext: Seq<char>) -> Seq<char> {
    let f = after_last(path, '/');
    let d = last_index_of(f, '.');
    if d > 0 {
        path.subrange(0, path.len() - f.len() + d) + "."@ + ext
    } else {
        path + "."@ + ext
    }
}

fn set_extension(path: &String, ext: &str) -> (r: String)
    ensures
        r@ == with_extension(path@, ext@),
{
    let v = char_vec(path.as_str());
    let n = v.len();
    let f = char_vec(crate::text::tail_after_last(path.as_str(), '/').as_str());
    proof {
        lemma_last_index_bounds(f@, '.');
    }
    let base = match find_last(&f, '.') {
        Some(d) if d > 0 => slice_string(&v, 0, n - f.len() + d),
        _ => path.clone(),
    };
    crate::text::concat_str(&crate::text::concat_str(&base, "."), ext)
}

/// The files probed, in order, for a relative import that joins to `base`: in a
/// directory `index.d.ts`, `index.ts`, `index.js`; otherwise `base` with the
/// extension `.ts`, then `.js`.
pub open spec fn probe_paths(base: Seq<char>, is_dir: bool) -> Seq<Seq<char>> {
    if is_dir {
        seq![join_path(base, "index.d.ts"@), join_path(base, "index.ts"@), join_path(base, "index.js"@)]
    } else {
        seq![with_extension(base, "ts"@), with_extension(base, "js"@)]
    }
}

fn joined(base: &String, comp: &str) -> (r: String)
    ensures
        r@ == join_path(base@, comp@),
{
    let v = char_vec(base.as_str());
    if v.len() == 0 || v[v.len() - 1] == '/' {
        crate::text::concat_str(base, comp)
    } else {
        let with_sep = crate::text::concat_str(base, "/");
        proof {
            reveal_strlit("/");
        }
        assert(with_sep@ =~= base@ + seq!['/']);
        crate::text::concat_str(&with_sep, comp)
    }
}

/// The files to probe for a relative import that joins to `base`, as
/// `probe_paths` states.
pub fn import_probe_paths(base: &String, is_dir: bool) -> (r: Vec<String>)
    ensures
        views(r@) == probe_paths(base@, is_dir),
{
    let mut out: Vec<String> = Vec::new();
    if is_dir {
        out.push(joined(base, "index.d.ts"));
        out.push(joined(base, "index.ts"));
        out.push(joined(base, "index.js"));
    } else {
        out.push(set_extension(base, "ts"));
        out.push(set_extension(base, "js"));
    }
    assert(views(out@) =~= probe_paths(base@, is_dir));
    out
}

/// The first probed file that exists, or `base` where none does.
pub open spec fn first_existing(base: Seq<char>, probes: Seq<Seq<char>>, exists: Seq<bool>) -> Seq<char>
    decreases probes.len(),
{
    if probes.len() == 0 || exists.len() == 0 {
        base
    } else if exists[0] {
        probes[0]
    } else {
        first_existing(base, probes.drop_first(), exists.drop_first())
    }
}

/// The file a relative import resolves to: the first of `probes` whose entry in
/// `exists` is true, else `base` itself.
pub fn choose_import_path(base: &String, probes: &Vec<String>, exists: &Vec<bool>) -> (r: String)
    requires
        probes@.len() == exists@.len(),
    ensures
        r@ == first_existing(base@, views(probes@), exists@),
{
    let mut i: usize = 0;
    assert(views(probes@).subrange(0, probes@.len() as int) =~= views(probes@));
    assert(exists@.subrange(0, exists@.len() as int) =~= exists@);
    while i < probes.len()
        invariant
            0 <= i <= probes@.len() == exists@.len(),
            first_existing(base@, views(probes@), exists@) == first_existing(
                base@,
                views(probes@).subrange(i as int, probes@.len() as int),
                exists@.subrange(i as int, exists@.len() as int),
            ),
        decreases probes@.len() - i,
    {
        let ghost ps = views(probes@).subrange(i as int, probes@.len() as int);
        let ghost es = exists@.subrange(i as int, exists@.len() as int);
        assert(ps[0] == probes@[i as int]@);
        assert(ps.drop_first() =~= views(probes@).subrange(i + 1, probes@.len() as int));
        assert(es.drop_first() =~= exists@.subrange(i + 1, exists@.len() as int));
        if exists[i] {
            return probes[i].clone();
        }
        i = i + 1;
    }
    base.clone()
}

} // verus!
