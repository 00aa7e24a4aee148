use codegraph::go::{go_import_edge, parse_func_param_type};
use codegraph::types::{Edge, EdgeType, Node, NodeType};

fn import_edge(to: &str, import: Option<&str>, alias: Option<&str>) -> Edge {
    let file = Node::from_type_and_name(NodeType::File, "cmd/main.go".to_string());
    let dir = Node::from_type_and_name(NodeType::Directory, to.to_string());
    let mut e = Edge::between(EdgeType::Imports, &file, &dir);
    e.import = import.map(|s| s.to_string());
    e.alias = alias.map(|s| s.to_string());
    e
}

fn param(from: &str, text: &str, imports: &Vec<Edge>) -> Option<(String, Option<String>)> {
    parse_func_param_type(&from.to_string(), &text.to_string(), imports)
        .map(|p| (p.type_ident, p.package_name))
}

#[test]
fn go_param_type_forms() {
    let none = vec![];
    let same = |t: &str| Some((t.to_string(), Some(String::new())));
    assert_eq!(param("main.go:User.SetAddress", "Address", &none), same("Address"));
    assert_eq!(param("main.go:User.SetAddress", "*Address", &none), same("Address"));
    assert_eq!(param("main.go:User.SetAddress", "[]*Hobby", &none), same("Hobby"));
    assert_eq!(param("main.go:f", "map[string] Hobby", &none), same("Hobby"));
    assert_eq!(
        param("pkg/x/a.go:f", "Status", &none),
        Some(("Status".to_string(), Some("pkg/x".to_string())))
    );
}

#[test]
fn go_param_type_skips_literals_and_builtins() {
    let none = vec![];
    assert_eq!(param("main.go:f", "func(int) error", &none), None);
    assert_eq!(param("main.go:f", "struct{ A int }", &none), None);
    assert_eq!(param("main.go:f", "interface{}", &none), None);
    assert_eq!(param("main.go:f", "string", &none), None);
    assert_eq!(param("main.go:f", "[]byte", &none), None);
    assert_eq!(param("main.go:f", "map[string]int", &none), None);
}

#[test]
fn go_param_type_resolves_package_through_imports() {
    let imports = vec![
        import_edge("internal/models", Some("models"), None),
        import_edge("internal/util", Some("util"), Some("u")),
    ];
    assert_eq!(
        param("cmd/main.go:run", "*models.User", &imports),
        Some(("User".to_string(), Some("internal/models".to_string())))
    );
    assert_eq!(
        param("cmd/main.go:run", "u.Clock", &imports),
        Some(("Clock".to_string(), Some("internal/util".to_string())))
    );
    assert_eq!(param("cmd/main.go:run", "fmt.Stringer", &imports), Some(("Stringer".to_string(), None)));
}

#[test]
fn go_import_inside_module_gives_edge() {
    let file = Node::from_type_and_name(NodeType::File, "main.go".to_string());
    let m = "example.com/demo".to_string();
    let e = go_import_edge(&file, &"\"example.com/demo/internal/models\"".to_string(), &m).unwrap();
    assert_eq!(e.edge_type, EdgeType::Imports);
    assert_eq!(e.from.name, "main.go");
    assert_eq!(e.to.name, "internal/models");
    assert_eq!(e.to.node_type, NodeType::Directory);
    assert_eq!(e.import.as_deref(), Some("models"));
    assert_eq!(e.alias, None);
    let a = go_import_edge(&file, &"m \"example.com/demo/internal/models\"".to_string(), &m).unwrap();
    assert_eq!(a.alias.as_deref(), Some("m"));
    assert_eq!(a.import.as_deref(), Some("models"));
}

#[test]
fn go_import_outside_module_gives_no_edge() {
    let file = Node::from_type_and_name(NodeType::File, "main.go".to_string());
    let m = "example.com/demo".to_string();
    assert!(go_import_edge(&file, &"\"fmt\"".to_string(), &m).is_none());
    assert!(go_import_edge(&file, &"x \"github.com/other/pkg\"".to_string(), &m).is_none());
}
