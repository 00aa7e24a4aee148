use vstd::prelude::*;

use crate::adapter::{match_views, Capture, CaptureModel, MatchModel, Pattern, QueryMatch, Role};
use crate::text::{char_vec, views};
use crate::types::{chars_eq, Language};
use crate::typescript::ImportCapture;
use tree_sitter::StreamingIterator;

verus! {

#[verifier::external_type_specification]
#[verifier::external_body]
pub struct ExTree(tree_sitter::Tree);

#[verifier::external_type_specification]
#[verifier::external_body]
pub struct ExQuery(tree_sitter::Query);

/// One captured syntax node as the query reports it.
pub struct RawCapture {
    /// The capture name of the query.
    pub name: String,
    pub text: String,
    pub start_line: usize,
    pub end_line: usize,
    /// Where the node starts, in bytes from the start of the source.
    pub start_byte: usize,
}

/// One match as the query reports it: the index of its pattern and its captures.
pub struct RawMatch {
    pub pattern_index: usize,
    pub captures: Vec<RawCapture>,
}

/// The value of a raw capture.
pub struct RawCaptureModel {
    pub name: Seq<char>,
    pub text: Seq<char>,
    pub start_line: nat,
    pub end_line: nat,
    pub start_byte: nat,
}

impl View for RawCapture {
    type V = RawCaptureModel;

    open spec fn view(&self) -> RawCaptureModel {
        RawCaptureModel {
            name: self.name@,
            text: self.text@,
            start_line: self.start_line as nat,
            end_line: self.end_line as nat,
            start_byte: self.start_byte as nat,
        }
    }
}

/// The value of a raw match.
pub struct RawMatchModel {
    pub pattern_index: nat,
    pub captures: Seq<RawCaptureModel>,
}

impl View for RawMatch {
    type V = RawMatchModel;

    open spec fn view(&self) -> RawMatchModel {
        RawMatchModel {
            pattern_index: self.pattern_index as nat,
            captures: self.captures@.map_values(|c: RawCapture| c@),
        }
    }
}

/// Relies on `tree_sitter::Parser::set_language` and `Parser::parse` with the
/// grammar crate of the language (Go, TypeScript, Python for the rest): the
/// syntax tree of `source`, where the grammar loads and parsing finishes.
#[verifier::external_body]
fn parse_tree(language: Language, source: &[u8]) -> Option<tree_sitter::Tree> {
    let grammar: tree_sitter::Language = match language {
        Language::Go => tree_sitter_go::LANGUAGE.into(),
        Language::TypeScript => tree_sitter_typescript::LANGUAGE_TYPESCRIPT.into(),
        _ => tree_sitter_python::LANGUAGE.into(),
    };
    let mut parser = tree_sitter::Parser::new();
    parser.set_language(&grammar).ok()?;
    parser.parse(source, None)
}

/// Relies on `tree_sitter::Query::new` with the grammar crate of the language:
/// the compiled query, where it compiles.
#[verifier::external_body]
fn compile_query(language: Language, query_source: &str) -> Option<tree_sitter::Query> {
    let grammar: tree_sitter::Language = match language {
        Language::Go => tree_sitter_go::LANGUAGE.into(),
        Language::TypeScript => tree_sitter_typescript::LANGUAGE_TYPESCRIPT.into(),
        _ => tree_sitter_python::LANGUAGE.into(),
    };
    tree_sitter::Query::new(&grammar, query_source).ok()
}

/// Relies on `tree_sitter::Node::has_error` of the root: whether the tree holds a
/// syntax error.
#[verifier::external_body]
fn tree_has_error(tree: &tree_sitter::Tree) -> bool {
    tree.root_node().has_error()
}

/// Relies on `tree_sitter::QueryCursor::matches`: the matches of the query over
/// the tree, with each capture's name, text, rows and start byte.
#[verifier::external_body]
fn run_query(query: &tree_sitter::Query, tree: &tree_sitter::Tree, source: &[u8]) -> Vec<RawMatch> {
    let mut cursor = tree_sitter::QueryCursor::new();
    let mut it = cursor.matches(query, tree.root_node(), source);
    let mut out = Vec::new();
    while let Some(m) = it.next() {
        let captures = m.captures().iter().map(|c| RawCapture {
            name: query.capture_names()[c.index as usize].to_string(),
            text: c.node.utf8_text(source).unwrap_or("").to_string(),
            start_line: c.node.start_position().row,
            end_line: c.node.end_position().row,
            start_byte: c.node.start_byte(),
        }).collect();
        out.push(RawMatch { pattern_index: m.pattern_index, captures });
    }
    out
}

/// The pattern a query pattern index stands for, in the order Import,
/// Interface, Class, Function, Method, Enum, TypeAlias.
pub open spec fn pattern_of_index(i: nat) -> Option<Pattern> {
    if i == 0 {
        Some(Pattern::Import)
    } else if i == 1 {
        Some(Pattern::Interface)
    } else if i == 2 {
        Some(Pattern::Class)
    } else if i == 3 {
        Some(Pattern::Function)
    } else if i == 4 {
        Some(Pattern::Method)
    } else if i == 5 {
        Some(Pattern::Enum)
    } else if i == 6 {
        Some(Pattern::TypeAlias)
    } else {
        None
    }
}

/// The pattern a query pattern index stands for, as `pattern_of_index` states.
pub fn pattern_of(i: usize) -> (r: Option<Pattern>)
    ensures
        r == pattern_of_index(i as nat),
{
    match i {
        0 => Some(Pattern::Import),
        1 => Some(Pattern::Interface),
        2 => Some(Pattern::Class),
        3 => Some(Pattern::Function),
        4 => Some(Pattern::Method),
        5 => Some(Pattern::Enum),
        6 => Some(Pattern::TypeAlias),
        _ => None,
    }
}

/// Whether `n` is the capture name of a whole definition.
pub open spec fn is_definition_name(n: Seq<char>) -> bool {
    n == "definition.interface"@ || n == "definition.class"@ || n == "definition.function"@ || n
        == "definition.method"@ || n == "definition.enum"@ || n == "definition.type_alias"@
}

/// Whether `n` is the capture name of a defined name.
pub open spec fn is_name_name(n: Seq<char>) -> bool {
    n == "definition.interface.name"@ || n == "definition.class.name"@ || n == "definition.function.name"@
        || n == "definition.method.name"@ || n == "definition.enum.name"@ || n == "definition.type_alias.name"@
}

/// What a capture name stands for in a match of `pattern`; a method match's
/// `definition.class.name` is the enclosing class. Names not listed are not used.
pub open spec fn role_of_name(n: Seq<char>, pattern: Pattern) -> Option<Role> {
    if n == "definition.class.name"@ && pattern == Pattern::Method {
        Some(Role::ParentName)
    } else if is_definition_name(n) {
        Some(Role::Definition)
    } else if is_name_name(n) {
        Some(Role::Name)
    } else if n == "definition.class.body"@ || n == "definition.function.body"@ || n == "definition.method.body"@ {
        Some(Role::Body)
    } else if n == "definition.function.param_type"@ || n == "definition.method.param_type"@ {
        Some(Role::ParamType)
    } else if n == "definition.function.first_return_type"@ {
        Some(Role::ReturnType)
    } else if n == "definition.method.receiver_type"@ {
        Some(Role::Receiver)
    } else if n == "reference.import.path"@ {
        Some(Role::ImportPath)
    } else if n == "reference.namespace_import.alias"@ {
        Some(Role::Import(ImportCapture::NamespaceAlias))
    } else if n == "reference.named_import.name"@ {
        Some(Role::Import(ImportCapture::NamedName))
    } else if n == "reference.named_import.alias"@ {
        Some(Role::Import(ImportCapture::NamedAlias))
    } else if n == "reference.default_import.alias"@ {
        Some(Role::Import(ImportCapture::DefaultAlias))
    } else if n == "reference.import.source"@ {
        Some(Role::Import(ImportCapture::Source))
    } else {
        None
    }
}

fn is(v: &Vec<char>, lit: &str) -> (r: bool)
    ensures
        r == (v@ == lit@),
{
    chars_eq(v, &char_vec(lit))
}

/// What a capture name stands for in a match of `pattern`, as `role_of_name` states.
pub fn role_of(name: &str, pattern: Pattern) -> (r: Option<Role>)
    ensures
        r == role_of_name(name@, pattern),
{
    let n = char_vec(name);
    if is(&n, "definition.class.name") && pattern == Pattern::Method {
        Some(Role::ParentName)
    } else if is(&n, "definition.interface") || is(&n, "definition.class") || is(&n, "definition.function")
        || is(&n, "definition.method") || is(&n, "definition.enum") || is(&n, "definition.type_alias") {
        Some(Role::Definition)
    } else if is(&n, "definition.interface.name") || is(&n, "definition.class.name") || is(
        &n,
        "definition.function.name",
    ) || is(&n, "definition.method.name") || is(&n, "definition.enum.name") || is(&n, "definition.type_alias.name") {
        Some(Role::Name)
    } else if is(&n, "definition.class.body") || is(&n, "definition.function.body") || is(&n, "definition.method.body") {
        Some(Role::Body)
    } else if is(&n, "definition.function.param_type") || is(&n, "definition.method.param_type") {
        Some(Role::ParamType)
    } else if is(&n, "definition.function.first_return_type") {
        Some(Role::ReturnType)
    } else if is(&n, "definition.method.receiver_type") {
        Some(Role::Receiver)
    } else if is(&n, "reference.import.path") {
        Some(Role::ImportPath)
    } else if is(&n, "reference.namespace_import.alias") {
        Some(Role::Import(ImportCapture::NamespaceAlias))
    } else if is(&n, "reference.named_import.name") {
        Some(Role::Import(ImportCapture::NamedName))
    } else if is(&n, "reference.named_import.alias") {
        Some(Role::Import(ImportCapture::NamedAlias))
    } else if is(&n, "reference.default_import.alias") {
        Some(Role::Import(ImportCapture::DefaultAlias))
    } else if is(&n, "reference.import.source") {
        Some(Role::Import(ImportCapture::Source))
    } else {
        None
    }
}

/// The number of characters that the UTF-8 bytes `b` start: the bytes that are
/// not continuation bytes.
pub open spec fn char_count(b: Seq<u8>) -> nat
    decreases b.len(),
{
    if b.len() == 0 {
        0
    } else {
        char_count(b.drop_last()) + if b.last() & 0xc0 != 0x80 {
            1nat
        } else {
            0nat
        }
    }
}

/// The character offset of a byte offset into `src`, past the end taken as the end.
pub open spec fn char_offset(src: Seq<u8>, byte: nat) -> nat {
    if byte <= src.len() {
        char_count(src.subrange(0, byte as int))
    } else {
        char_count(src)
    }
}

/// For each byte offset of `src` (the end included), the characters before it.
fn char_offsets(src: &[u8]) -> (r: Vec<usize>)
    ensures
        r@.len() == src@.len() + 1,
        forall|b: int| 0 <= b <= src@.len() ==> r@[b] as nat == char_count(#[trigger] src@.subrange(0, b)),
{
    let mut out: Vec<usize> = Vec::new();
    out.push(0);
    assert(src@.subrange(0, 0) =~= Seq::<u8>::empty());
    let mut count: usize = 0;
    let mut i: usize = 0;
    while i < src.len()
        invariant
            0 <= i <= src@.len(),
            count <= i,
            out@.len() == i + 1,
            count as nat == char_count(src@.subrange(0, i as int)),
            forall|b: int| 0 <= b <= i ==> out@[b] as nat == char_count(#[trigger] src@.subrange(0, b)),
        decreases src@.len() - i,
    {
        assert(src@.subrange(0, i + 1).drop_last() =~= src@.subrange(0, i as int));
        if src[i] & 0xc0 != 0x80 {
            count = count + 1;
        }
        out.push(count);
        i = i + 1;
    }
    out
}

/// The capture a raw capture gives in a match of `p`, where its name has a role.
pub open spec fn capture_of(c: RawCaptureModel, p: Pattern, src: Seq<u8>) -> Option<CaptureModel> {
    match role_of_name(c.name, p) {
        Some(role) => Some(
            CaptureModel {
                role,
                text: c.text,
                start_line: c.start_line,
                end_line: c.end_line,
                start_char: char_offset(src, c.start_byte),
            },
        ),
        None => None,
    }
}

/// The captures of a match of `p`, those without a role left out, in order.
pub open spec fn captures_of(cs: Seq<RawCaptureModel>, p: Pattern, src: Seq<u8>) -> Seq<CaptureModel>
    decreases cs.len(),
{
    if cs.len() == 0 {
        Seq::empty()
    } else {
        captures_of(cs.drop_last(), p, src) + match capture_of(cs.last(), p, src) {
            Some(c) => seq![c],
            None => Seq::empty(),
        }
    }
}

/// The matches of known patterns, in order, with their captures.
pub open spec fn matches_of(ms: Seq<RawMatchModel>, src: Seq<u8>) -> Seq<MatchModel>
    decreases ms.len(),
{
    if ms.len() == 0 {
        Seq::empty()
    } else {
        matches_of(ms.drop_last(), src) + match pattern_of_index(ms.last().pattern_index) {
            Some(p) => seq![MatchModel { pattern: p, captures: captures_of(ms.last().captures, p, src), source_path: None }],
            None => Seq::empty(),
        }
    }
}

/// The views of raw matches.
pub open spec fn raw_views(ms: Seq<RawMatch>) -> Seq<RawMatchModel> {
    ms.map_values(|m: RawMatch| m@)
}

/// The matches an adapter reads from what the query reported over `source`: none
/// for a tree with a syntax error, otherwise as `matches_of` states.
pub fn matches_from_raw(has_error: bool, raw: &Vec<RawMatch>, source: &[u8]) -> (r: Vec<QueryMatch>)
    ensures
        match_views(r@) == if has_error {
            Seq::<MatchModel>::empty()
        } else {
            matches_of(raw_views(raw@), source@)
        },
{
    let mut out: Vec<QueryMatch> = Vec::new();
    if has_error {
        assert(match_views(out@) =~= Seq::<MatchModel>::empty());
        return out;
    }
    let offsets = char_offsets(source);
    let n = source.len();
    let ghost rv = raw_views(raw@);
    let mut i: usize = 0;
    assert(match_views(out@) =~= Seq::<MatchModel>::empty());
    while i < raw.len()
        invariant
            0 <= i <= raw@.len(),
            rv == raw_views(raw@),
            n == source@.len(),
            offsets@.len() == source@.len() + 1,
            forall|b: int| 0 <= b <= source@.len() ==> offsets@[b] as nat == char_count(#[trigger] source@.subrange(0, b)),
            match_views(out@) == matches_of(rv.subrange(0, i as int), source@),
        decreases raw@.len() - i,
    {
        let m = &raw[i];
        assert(rv.subrange(0, i + 1).drop_last() =~= rv.subrange(0, i as int));
        assert(rv.subrange(0, i + 1).last() == m@);
        if let Some(p) = pattern_of(m.pattern_index) {
            let ghost cv = m@.captures;
            let mut caps: Vec<Capture> = Vec::new();
            let mut j: usize = 0;
            assert(caps@.map_values(|c: Capture| c@) =~= Seq::<CaptureModel>::empty());
            while j < m.captures.len()
                invariant
                    0 <= j <= m.captures@.len(),
                    cv == m@.captures,
                    n == source@.len(),
                    offsets@.len() == source@.len() + 1,
                    forall|b: int| 0 <= b <= source@.len() ==> offsets@[b] as nat == char_count(#[trigger] source@.subrange(0, b)),
                    caps@.map_values(|c: Capture| c@) == captures_of(cv.subrange(0, j as int), p, source@),
                decreases m.captures@.len() - j,
            {
                let c = &m.captures[j];
                assert(cv.subrange(0, j + 1).drop_last() =~= cv.subrange(0, j as int));
                assert(cv.subrange(0, j + 1).last() == c@);
                if let Some(role) = role_of(c.name.as_str(), p) {
                    let b = if c.start_byte <= n { c.start_byte } else { n };
                    assert(source@.subrange(0, n as int) =~= source@);
                    let ghost before = caps@;
                    let cap = Capture {
                        role,
                        text: c.text.clone(),
                        start_line: c.start_line,
                        end_line: c.end_line,
                        start_char: offsets[b],
                    };
                    caps.push(cap);
                    assert(caps@.map_values(|c: Capture| c@) =~= before.map_values(|c: Capture| c@).push(cap@));
                }
                j = j + 1;
            }
            assert(cv.subrange(0, m.captures@.len() as int) =~= cv);
            let ghost before = out@;
            let qm = QueryMatch { pattern: p, captures: caps, source_path: None };
            out.push(qm);
            assert(match_views(out@) =~= match_views(before).push(qm@));
        }
        i = i + 1;
    }
    assert(rv.subrange(0, raw@.len() as int) =~= rv);
    out
}

/// The matches of the definition query `query_source` over `source` in the
/// grammar of `language`, as `matches_from_raw` reads what the query reports:
/// none for plain text, and otherwise either none (no grammar for the text, a
/// query that does not compile, or a tree with a syntax error) or the matches
/// that `matches_of` gives for the reported raw matches.
pub fn query_matches(language: Language, query_source: &str, source: &[u8]) -> (r: Vec<QueryMatch>)
    ensures
        language == Language::Text ==> r@.len() == 0,
        r@.len() == 0 || exists|raw: Seq<RawMatchModel>| match_views(r@) == matches_of(raw, source@),
{
    if language == Language::Text {
        return Vec::new();
    }
    match (parse_tree(language, source), compile_query(language, query_source)) {
        (Some(tree), Some(query)) => {
            let raw = run_query(&query, &tree, source);
            let err = tree_has_error(&tree);
            let r = matches_from_raw(err, &raw, source);
            proof {
                if !err {
                    assert(match_views(r@) == matches_of(raw_views(raw@), source@));
                } else {
                    assert(r@.len() == match_views(r@).len());
                }
            }
            r
        },
        _ => Vec::new(),
    }
}

} // verus!
