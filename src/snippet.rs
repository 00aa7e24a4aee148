use vstd::prelude::*;

use crate::text::{
    before_first, char_vec, concat_str, find_first, lemma_first_index_bounds, slice_string,
    string_of, views,
};
use crate::types::{Language, NodeType};

verus! {

/// A piece of source that a query hands back: where it lies and what it says.
#[derive(Debug, Clone)]
pub struct Snippet {
    /// The repository-relative path of the file.
    pub path: String,
    pub start_line: usize,
    pub end_line: usize,
    pub content: String,
}

/// The abbreviated body that ends a Go skeleton.
pub const GO_BODY_MARKER: &'static str = "{\n...\n}";

/// The abbreviated body that ends a TypeScript skeleton.
pub const TS_BODY_MARKER: &'static str = "{ ... }";

/// The abbreviated body of a language; Python and plain text have none.
pub open spec fn body_marker(lang: Language) -> Seq<char> {
    match lang {
        Language::Go => GO_BODY_MARKER@,
        Language::TypeScript => TS_BODY_MARKER@,
        _ => Seq::empty(),
    }
}

/// The skeleton of a definition: its code up to the body opener, followed by the
/// language's abbreviated body; empty for a language without skeletons.
pub open spec fn skeleton_of(code: Seq<char>, body_start: int, lang: Language) -> Seq<char> {
    match lang {
        Language::Go | Language::TypeScript => code.subrange(0, body_start) + body_marker(lang),
        _ => Seq::empty(),
    }
}

/// The skeleton of a definition whose body starts at character `body_start` of
/// its code.
pub fn skeleton_code(code: &String, body_start: usize, language: Language) -> (r: String)
    requires
        body_start <= code@.len(),
    ensures
        r@ == skeleton_of(code@, body_start as int, language),
        language == Language::Go || language == Language::TypeScript ==> r@.subrange(
            0,
            body_start as int,
        ) == code@.subrange(0, body_start as int),
{
    let v = char_vec(code.as_str());
    match language {
        Language::Go => concat_str(&slice_string(&v, 0, body_start), GO_BODY_MARKER),
        Language::TypeScript => concat_str(&slice_string(&v, 0, body_start), TS_BODY_MARKER),
        _ => String::new(),
    }
}

/// The items of `ms`, each preceded by `sep`.
pub open spec fn prefixed(sep: Seq<char>, ms: Seq<Seq<char>>) -> Seq<char>
    decreases ms.len(),
{
    if ms.len() == 0 {
        Seq::empty()
    } else {
        prefixed(sep, ms.drop_last()) + sep + ms.last()
    }
}

/// A class skeleton without its trailing abbreviated body, where it has one.
pub open spec fn without_marker(s: Seq<char>) -> Seq<char> {
    let m = TS_BODY_MARKER@;
    if s.len() >= m.len() && s.subrange(s.len() - m.len(), s.len() as int) == m {
        s.subrange(0, s.len() - m.len())
    } else {
        s
    }
}

/// What a snippet shows of a referenced type: for Go its code followed by each
/// method's skeleton after a blank line; for a TypeScript class its skeleton
/// opened with `{`, each method's skeleton on its own line indented by two
/// spaces, and a closing `}`; for other TypeScript types their code.
pub open spec fn snippet_content_of(
    lang: Language,
    typ: NodeType,
    code: Seq<char>,
    skeleton: Seq<char>,
    methods: Seq<Seq<char>>,
) -> Seq<char> {
    match lang {
        Language::Go => code + prefixed("\n\n"@, methods),
        Language::TypeScript => if typ == NodeType::Class {
            without_marker(skeleton) + "{"@ + prefixed("\n  "@, methods) + "\n}"@
        } else {
            code
        },
        _ => Seq::empty(),
    }
}

fn append_prefixed(out: &mut String, sep: &str, methods: &Vec<String>)
    ensures
        final(out)@ == old(out)@ + prefixed(sep@, views(methods@)),
{
    let ghost start = out@;
    let mut i: usize = 0;
    while i < methods.len()
        invariant
            0 <= i <= methods@.len(),
            out@ == start + prefixed(sep@, views(methods@).subrange(0, i as int)),
        decreases methods@.len() - i,
    {
        let ghost pre = views(methods@).subrange(0, i + 1);
        assert(pre.drop_last() =~= views(methods@).subrange(0, i as int));
        assert(pre.last() == methods@[i as int]@);
        out.append(sep);
        out.append(methods[i].as_str());
        assert(out@ =~= start + prefixed(sep@, pre));
        i = i + 1;
    }
    assert(views(methods@).subrange(0, methods@.len() as int) =~= views(methods@));
}

fn strip_marker(s: &String) -> (r: String)
    ensures
        r@ == without_marker(s@),
{
    let v = char_vec(s.as_str());
    let m = char_vec(TS_BODY_MARKER);
    let n = v.len();
    if n >= m.len() {
        let tail = char_vec(slice_string(&v, n - m.len(), n).as_str());
        let mut same = tail.len() == m.len();
        let mut i: usize = 0;
        while same && i < m.len()
            invariant
                0 <= i <= m@.len(),
                same ==> tail@.len() == m@.len(),
                same ==> forall|j: int| 0 <= j < i ==> tail@[j] == m@[j],
                !same ==> tail@ != m@,
            decreases m@.len() - i,
        {
            if tail[i] != m[i] {
                same = false;
            }
            i = i + 1;
        }
        if same {
            assert(tail@ =~= m@);
            return slice_string(&v, 0, n - m.len());
        }
    }
    string_of(v.as_slice())
}

/// The content of a snippet for a referenced type, as `snippet_content_of` states.
pub fn snippet_content(
    language: Language,
    node_type: NodeType,
    code: &String,
    skeleton_code: &String,
    methods: &Vec<String>,
) -> (r: String)
    ensures
        r@ == snippet_content_of(language, node_type, code@, skeleton_code@, views(methods@)),
{
    match language {
        Language::Go => {
            let mut out = code.clone();
            append_prefixed(&mut out, "\n\n", methods);
            out
        },
        Language::TypeScript => {
            if node_type == NodeType::Class {
                let mut out = strip_marker(skeleton_code);
                out.append("{");
                append_prefixed(&mut out, "\n  ", methods);
                out.append("\n}");
                out
            } else {
                code.clone()
            }
        },
        _ => String::new(),
    }
}

/// The file a node named `name` belongs to: what precedes its first `:`.
pub fn node_file_path(name: &String) -> (r: String)
    ensures
        r@ == before_first(name@, ':'),
{
    let v = char_vec(name.as_str());
    proof {
        lemma_first_index_bounds(v@, ':');
    }
    match find_first(&v, ':') {
        Some(k) => slice_string(&v, 0, k),
        None => string_of(v.as_slice()),
    }
}

impl Snippet {
    /// The snippet for a referenced type named `type_node_name` spanning the given
    /// lines, with content as `snippet_content_of` states.
    pub fn for_type(
        type_node_name: &String,
        language: Language,
        node_type: NodeType,
        start_line: usize,
        end_line: usize,
        code: &String,
        skeleton_code: &String,
        methods: &Vec<String>,
    ) -> (r: Snippet)
        ensures
            r.path@ == before_first(type_node_name@, ':'),
            r.start_line == start_line,
            r.end_line == end_line,
            r.content@ == snippet_content_of(language, node_type, code@, skeleton_code@, views(methods@)),
    {
        Snippet {
            path: node_file_path(type_node_name),
            start_line,
            end_line,
            content: snippet_content(language, node_type, code, skeleton_code, methods),
        }
    }
}

} // verus!
