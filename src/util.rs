use vstd::prelude::*;

use crate::text::{char_vec, regex_captures, regex_group_matches, starts_with, string_of, views};
use crate::types::chars_eq;

verus! {

/// `base` with one more path component, as `PathBuf::push` gives it for a
/// component without separators.
pub open spec fn join_path(base: Seq<char>, comp: Seq<char>) -> Seq<char> {
    if base.len() == 0 || base.last() == '/' {
        base + comp
    } else {
        base + seq!['/'] + comp
    }
}

/// `acc` with the pending component `cur` pushed, where it is not empty.
pub open spec fn flush_component(acc: Seq<char>, cur: Seq<char>) -> Seq<char> {
    if cur.len() == 0 {
        acc
    } else {
        join_path(acc, cur)
    }
}

/// `acc` with each non-empty `/`-separated component of `cur + rest` pushed in turn.
pub open spec fn join_components(acc: Seq<char>, cur: Seq<char>, rest: Seq<char>) -> Seq<char>
    decreases rest.len(),
{
    if rest.len() == 0 {
        flush_component(acc, cur)
    } else if rest[0] == '/' {
        join_components(flush_component(acc, cur), Seq::empty(), rest.drop_first())
    } else {
        join_components(acc, cur.push(rest[0]), rest.drop_first())
    }
}

/// Where a module import path lies under the repository: `None` unless the import
/// path starts with the repository's module path; otherwise the repository path
/// joined with each component of the remainder.
pub open spec fn module_file_path(repo: Seq<char>, module: Seq<char>, import: Seq<char>) -> Option<
    Seq<char>,
> {
    if module.len() <= import.len() && import.subrange(0, module.len() as int) == module {
        let rel = import.subrange(module.len() as int, import.len() as int);
        let rel = if rel.len() > 0 && rel[0] == '/' {
            rel.drop_first()
        } else {
            rel
        };
        Some(join_components(repo, Seq::empty(), rel))
    } else {
        None
    }
}

/// Pushes `s[lo..hi]` onto `acc` as one more path component, where it is not empty.
fn push_component(acc: &mut Vec<char>, s: &Vec<char>, lo: usize, hi: usize)
    requires
        lo <= hi <= s@.len(),
    ensures
        final(acc)@ == flush_component(old(acc)@, s@.subrange(lo as int, hi as int)),
{
    if lo == hi {
        return;
    }
    if acc.len() > 0 && acc[acc.len() - 1] != '/' {
        acc.push('/');
    }
    let ghost start = acc@;
    let mut i: usize = lo;
    while i < hi
        invariant
            lo <= i <= hi <= s@.len(),
            acc@ == start + s@.subrange(lo as int, i as int),
        decreases hi - i,
    {
        acc.push(s[i]);
        assert(s@.subrange(lo as int, i + 1) =~= s@.subrange(lo as int, i as int).push(s@[i as int]));
        i = i + 1;
    }
    assert(acc@ =~= join_path(old(acc)@, s@.subrange(lo as int, hi as int)));
}

/// The directory that a module import path names inside the repository at
/// `repo_path`, or `None` where the import is not under `repo_mod_path`.
pub fn get_repo_module_file_path(repo_path: &String, repo_mod_path: &String, mod_import_path: &String) -> (r:
    Option<String>)
    ensures
        match r {
            Some(p) => module_file_path(repo_path@, repo_mod_path@, mod_import_path@) == Some(p@),
            None => module_file_path(repo_path@, repo_mod_path@, mod_import_path@) is None,
        },
{
    let imp = char_vec(mod_import_path.as_str());
    let module = char_vec(repo_mod_path.as_str());
    if !starts_with(&imp, &module) {
        return None;
    }
    let mut i: usize = module.len();
    let ghost rel = imp@.subrange(module@.len() as int, imp@.len() as int);
    if i < imp.len() && imp[i] == '/' {
        i = i + 1;
        assert(rel.drop_first() =~= imp@.subrange(i as int, imp@.len() as int));
    } else {
        assert(rel =~= imp@.subrange(i as int, imp@.len() as int));
    }
    let ghost target = join_components(repo_path@, Seq::empty(), imp@.subrange(i as int, imp@.len() as int));
    let mut acc = char_vec(repo_path.as_str());
    let mut start: usize = i;
    assert(imp@.subrange(start as int, i as int) =~= Seq::<char>::empty());
    while i < imp.len()
        invariant
            start <= i <= imp@.len(),
            join_components(acc@, imp@.subrange(start as int, i as int), imp@.subrange(i as int, imp@.len() as int)) == target,
        decreases imp@.len() - i,
    {
        let ghost rest = imp@.subrange(i as int, imp@.len() as int);
        assert(rest.drop_first() =~= imp@.subrange(i + 1, imp@.len() as int));
        if imp[i] == '/' {
            push_component(&mut acc, &imp, start, i);
            start = i + 1;
            assert(imp@.subrange(start as int, start as int) =~= Seq::<char>::empty());
        } else {
            assert(imp@.subrange(start as int, i + 1) =~= imp@.subrange(start as int, i as int).push(imp@[i as int]));
        }
        i = i + 1;
    }
    push_component(&mut acc, &imp, start, i);
    Some(string_of(acc.as_slice()))
}

/// Whether `path` continues `root` at a component boundary.
pub open spec fn at_boundary(root: Seq<char>, path: Seq<char>) -> bool {
    root.len() == 0 || path.len() == root.len() || root.last() == '/' || (path.len() > root.len()
        && path[root.len() as int] == '/')
}

/// A `/`-separated path with empty components dropped.
pub open spec fn normalized(path: Seq<char>) -> Seq<char> {
    module_file_path(Seq::empty(), Seq::empty(), path).unwrap()
}

/// The node name of `path` in the repository at `root`: the components after
/// `root` where `path` lies under it, else the components of `path` itself.
pub open spec fn relative_name_of(root: Seq<char>, path: Seq<char>) -> Seq<char> {
    match module_file_path(Seq::empty(), root, path) {
        Some(r) => if at_boundary(root, path) {
            r
        } else {
            normalized(path)
        },
        None => normalized(path),
    }
}

/// `path` with empty components dropped, as `normalized` states.
pub fn normalize_path(path: &String) -> (r: String)
    ensures
        r@ == normalized(path@),
{
    let e = String::new();
    proof {
        assert(e@ =~= Seq::<char>::empty());
        assert(path@.subrange(0, 0) =~= Seq::<char>::empty());
    }
    match get_repo_module_file_path(&e, &e, path) {
        Some(r) => r,
        None => String::new(),
    }
}

/// The node name of `path` in the repository at `root`, as `relative_name_of`
/// states.
pub fn relative_name(root: &String, path: &String) -> (r: String)
    ensures
        r@ == relative_name_of(root@, path@),
{
    let rv = char_vec(root.as_str());
    let pv = char_vec(path.as_str());
    let boundary = rv.len() == 0 || pv.len() == rv.len() || rv[rv.len() - 1] == '/' || (pv.len() > rv.len()
        && pv[rv.len()] == '/');
    match get_repo_module_file_path(&String::new(), root, path) {
        Some(r) => {
            if boundary {
                r
            } else {
                normalize_path(path)
            }
        },
        None => normalize_path(path),
    }
}

/// The type names that Go predeclares.
pub open spec fn is_go_builtin(s: Seq<char>) -> bool {
    s == "bool"@ || s == "byte"@ || s == "rune"@ || s == "int"@ || s == "int8"@ || s == "int16"@
        || s == "int32"@ || s == "int64"@ || s == "uint"@ || s == "uint8"@ || s == "uint16"@ || s
        == "uint32"@ || s == "uint64"@ || s == "uintptr"@ || s == "float32"@ || s == "float64"@
        || s == "complex64"@ || s == "complex128"@ || s == "string"@ || s == "error"@ || s
        == "interface{}"@ || s == "any"@
}

/// Whether `v` spells the literal `lit`.
fn is_lit(v: &Vec<char>, lit: &str) -> (r: bool)
    ensures
        r == (v@ == lit@),
{
    chars_eq(v, &char_vec(lit))
}

/// Whether `name` is one of Go's predeclared types.
pub fn is_go_builtin_type(name: &str) -> (r: bool)
    ensures
        r == is_go_builtin(name@),
{
    let v = char_vec(name);
    is_lit(&v, "bool") || is_lit(&v, "byte") || is_lit(&v, "rune") || is_lit(&v, "int")
        || is_lit(&v, "int8") || is_lit(&v, "int16") || is_lit(&v, "int32") || is_lit(&v, "int64")
        || is_lit(&v, "uint") || is_lit(&v, "uint8") || is_lit(&v, "uint16") || is_lit(&v, "uint32")
        || is_lit(&v, "uint64") || is_lit(&v, "uintptr") || is_lit(&v, "float32") || is_lit(
        &v,
        "float64",
    ) || is_lit(&v, "complex64") || is_lit(&v, "complex128") || is_lit(&v, "string") || is_lit(
        &v,
        "error",
    ) || is_lit(&v, "interface{}") || is_lit(&v, "any")
}

/// The characters that `char::is_whitespace` accepts (Unicode White_Space).
pub open spec fn is_ws(c: char) -> bool {
    let u = c as u32;
    (0x9 <= u && u <= 0xd) || u == 0x20 || u == 0x85 || u == 0xa0 || u == 0x1680 || (0x2000 <= u
        && u <= 0x200a) || u == 0x2028 || u == 0x2029 || u == 0x202f || u == 0x205f || u == 0x3000
}

fn is_whitespace(c: char) -> (r: bool)
    ensures
        r == is_ws(c),
{
    let u = c as u32;
    (0x9 <= u && u <= 0xd) || u == 0x20 || u == 0x85 || u == 0xa0 || u == 0x1680 || (0x2000 <= u
        && u <= 0x200a) || u == 0x2028 || u == 0x2029 || u == 0x202f || u == 0x205f || u == 0x3000
}

/// `s` without leading whitespace.
pub open spec fn trim_start(s: Seq<char>) -> Seq<char>
    decreases s.len(),
{
    if s.len() > 0 && is_ws(s[0]) {
        trim_start(s.drop_first())
    } else {
        s
    }
}

/// `s` without trailing whitespace.
pub open spec fn trim_end(s: Seq<char>) -> Seq<char>
    decreases s.len(),
{
    if s.len() > 0 && is_ws(s.last()) {
        trim_end(s.drop_last())
    } else {
        s
    }
}

/// `s` without leading or trailing whitespace.
pub open spec fn trim(s: Seq<char>) -> Seq<char> {
    trim_end(trim_start(s))
}

/// `s[lo..hi]` without leading or trailing whitespace, as a string.
pub(crate) fn trim_range(s: &Vec<char>, lo: usize, hi: usize) -> (r: String)
    requires
        lo <= hi <= s@.len(),
    ensures
        r@ == trim(s@.subrange(lo as int, hi as int)),
        r@.len() <= hi - lo,
{
    let mut a: usize = lo;
    while a < hi && is_whitespace(s[a])
        invariant
            lo <= a <= hi <= s@.len(),
            trim_start(s@.subrange(a as int, hi as int)) == trim_start(s@.subrange(lo as int, hi as int)),
        decreases hi - a,
    {
        assert(s@.subrange(a as int, hi as int).drop_first() =~= s@.subrange(a + 1, hi as int));
        a = a + 1;
    }
    let mut b: usize = hi;
    while b > a && is_whitespace(s[b - 1])
        invariant
            lo <= a <= b <= hi <= s@.len(),
            trim_end(s@.subrange(a as int, b as int)) == trim(s@.subrange(lo as int, hi as int)),
        decreases b - a,
    {
        assert(s@.subrange(a as int, b as int).drop_last() =~= s@.subrange(a as int, b - 1));
        b = b - 1;
    }
    string_of(&s.as_slice()[a..b])
}

/// The pattern of a `go.mod` module line.
pub const GO_MODULE_PATTERN: &'static str = r"^module\s+(.+)";

/// The module path that a `go.mod` file declares: the first capture of its module
/// line, trimmed, where the text matches.
pub open spec fn go_module_path_of(go_mod: Seq<char>) -> Option<Seq<char>> {
    let m = regex_group_matches(GO_MODULE_PATTERN@, go_mod, 1);
    if m.len() == 0 {
        None
    } else {
        Some(trim(m[0]))
    }
}

/// The module path declared by the text of a `go.mod` file.
pub fn go_module_path_from_go_mod(go_mod: &str) -> (r: Option<String>)
    ensures
        match r {
            Some(p) => go_module_path_of(go_mod@) == Some(p@),
            None => go_module_path_of(go_mod@) is None,
        },
{
    let caps = regex_captures(GO_MODULE_PATTERN, go_mod, 1);
    if caps.len() == 0 {
        return None;
    }
    assert(views(caps@)[0] == caps@[0]@);
    let v = char_vec(caps[0].as_str());
    assert(v@.subrange(0, v@.len() as int) =~= v@);
    Some(trim_range(&v, 0, v.len()))
}

} // verus!
