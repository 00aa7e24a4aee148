use codegraph::types::{parse_from_to, Edge, EdgeType, Language, Node, NodeType};

#[test]
fn language_from_extension() {
    assert_eq!(Language::from_path("main.go"), Language::Go);
    assert_eq!(Language::from_path("pkg/x/foo.py"), Language::Python);
    assert_eq!(Language::from_path("src/types.ts"), Language::TypeScript);
    assert_eq!(Language::from_path("README.md"), Language::Text);
    assert_eq!(Language::from_path("Makefile"), Language::Text);
    assert_eq!(Language::from_path(".go"), Language::Text);
    assert_eq!(Language::from_path("dir.go/file"), Language::Text);
}

#[test]
fn node_from_type_and_name_is_empty_otherwise() {
    let n = Node::from_type_and_name(NodeType::File, "file1".to_string());
    assert_eq!(n.name, "file1");
    assert_eq!(n.node_type, NodeType::File);
    assert_eq!(n.language, Language::Text);
    assert_eq!((n.start_line, n.end_line), (0, 0));
    assert!(n.code.is_empty() && n.skeleton_code.is_empty());
}

#[test]
fn short_name_takes_trailing_symbol_lowercased() {
    let f = |s: &str| Node::from_type_and_name(NodeType::Class, s.to_string()).short_name();
    assert_eq!(f("src/a.py"), "a.py");
    assert_eq!(f("src/a.py:A"), "a");
    assert_eq!(f("main.go:User.SetAddress"), "setaddress");
    assert_eq!(f("types.go:Address"), "address");
    assert_eq!(f(""), "");
}

#[test]
fn from_to_joins_endpoint_types() {
    let a = Node::from_type_and_name(NodeType::File, "main.go".to_string());
    let b = Node::from_type_and_name(NodeType::Class, "main.go:User".to_string());
    let e = Edge::between(EdgeType::Contains, &a, &b);
    assert_eq!(e.from_to(), "file_class");
    assert_eq!(e.import, None);
    let d = Node::from_type_and_name(NodeType::Directory, "".to_string());
    let t = Node::from_type_and_name(NodeType::OtherType, "types.go:Status".to_string());
    assert_eq!(Edge::between(EdgeType::References, &d, &t).from_to(), "directory_othertype");
}

#[test]
fn type_names() {
    assert_eq!(NodeType::Function.name(), "function");
    assert_eq!(EdgeType::References.name(), "references");
    assert_eq!(EdgeType::Imports.name(), "imports");
}

#[test]
fn type_names_parse_back() {
    assert_eq!(NodeType::from_name("class"), Some(NodeType::Class));
    assert_eq!(NodeType::from_name("othertype"), Some(NodeType::OtherType));
    assert_eq!(NodeType::from_name("Class"), None);
    assert_eq!(EdgeType::from_name("imports"), Some(EdgeType::Imports));
    assert_eq!(EdgeType::from_name("IMPORTS"), None);
}

#[test]
fn relation_identity_splits_into_endpoint_types() {
    assert_eq!(parse_from_to("file_class"), Some((NodeType::File, NodeType::Class)));
    assert_eq!(parse_from_to("directory_file"), Some((NodeType::Directory, NodeType::File)));
    assert_eq!(parse_from_to("file"), None);
    assert_eq!(parse_from_to("file_class_x"), None);
    assert_eq!(parse_from_to("_class"), None);
    let a = Node::from_type_and_name(NodeType::Function, "f".to_string());
    let b = Node::from_type_and_name(NodeType::OtherType, "t".to_string());
    let e = Edge::between(EdgeType::References, &a, &b);
    assert_eq!(parse_from_to(&e.from_to()), Some((NodeType::Function, NodeType::OtherType)));
}
