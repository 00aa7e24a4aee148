use codegraph::adapter::{parse_go, Pattern, Role};
use codegraph::syntax::{matches_from_raw, pattern_of, query_matches, role_of, RawCapture, RawMatch};
use codegraph::types::{Language, Node, NodeType};
use codegraph::typescript::ImportCapture;

const GO_QUERY: &str = r#"
(import_spec) @reference.import.path
(type_spec name: (type_identifier) @definition.interface.name type: (interface_type)) @definition.interface
(type_spec name: (type_identifier) @definition.class.name type: (struct_type)) @definition.class
(function_declaration name: (identifier) @definition.function.name body: (block) @definition.function.body) @definition.function
"#;

#[test]
fn capture_names_map_to_roles() {
    assert_eq!(role_of("definition.function", Pattern::Function), Some(Role::Definition));
    assert_eq!(role_of("definition.class.name", Pattern::Class), Some(Role::Name));
    assert_eq!(role_of("definition.class.name", Pattern::Method), Some(Role::ParentName));
    assert_eq!(role_of("definition.method.receiver_type", Pattern::Method), Some(Role::Receiver));
    assert_eq!(role_of("reference.named_import.alias", Pattern::Import), Some(Role::Import(ImportCapture::NamedAlias)));
    assert_eq!(role_of("definition.unknown", Pattern::Class), None);
    assert_eq!(pattern_of(4), Some(Pattern::Method));
    assert_eq!(pattern_of(7), None);
}

fn raw(name: &str, text: &str, start_byte: usize) -> RawCapture {
    RawCapture { name: name.to_string(), text: text.to_string(), start_line: 0, end_line: 0, start_byte }
}

#[test]
fn raw_matches_become_query_matches() {
    let source = "é f".as_bytes();
    let ms = vec![
        RawMatch { pattern_index: 3, captures: vec![raw("definition.function", "é f", 0), raw("definition.function.name", "f", 3), raw("x", "y", 0)] },
        RawMatch { pattern_index: 9, captures: vec![] },
    ];
    let r = matches_from_raw(false, &ms, source);
    assert_eq!(r.len(), 1);
    assert_eq!(r[0].pattern, Pattern::Function);
    assert_eq!(r[0].captures.len(), 2);
    assert_eq!(r[0].captures[1].role, Role::Name);
    assert_eq!(r[0].captures[1].start_char, 2);
    assert!(matches_from_raw(true, &ms, source).is_empty());
}

#[test]
fn test_index_dirty_file_go() {
    let file = {
        let mut n = Node::from_type_and_name(NodeType::File, "temp.go".to_string());
        n.language = Language::Go;
        n
    };
    let source = "\npackage main\n\nfunc main() {\n    fmt.Println(\"Hello, World!\")\n}\n        ";
    let matches = query_matches(Language::Go, GO_QUERY, source.as_bytes());
    let r = parse_go(&file, &matches, &None);
    let names: Vec<&str> = r.nodes.iter().map(|n| n.name.as_str()).collect();
    assert_eq!(names, vec!["temp.go:main"]);
    assert_eq!(r.nodes[0].skeleton_code, "func main() {\n...\n}");
    assert_eq!((r.nodes[0].start_line, r.nodes[0].end_line), (3, 5));
}

#[test]
fn file_with_syntax_error_gives_no_matches() {
    let matches = query_matches(Language::Go, GO_QUERY, b"package main\nfunc (");
    assert!(matches.is_empty());
    assert!(query_matches(Language::Go, "(not a query", b"package main").is_empty());
    assert!(query_matches(Language::Text, GO_QUERY, b"package main").is_empty());
}
