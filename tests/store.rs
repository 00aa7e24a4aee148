use codegraph::store::{edge_from_row, relation_groups, relation_rows};
use codegraph::store::{
    delete_outgoing_edges_statement, file_definitions_statement, param_types_statement,
    decimal_string, delete_nodes_statement, lookup_statement, merge_edge_statement, merge_node_statement,
    merge_node_statement_with, staged_name, stored_name, string_repr, table_name,
};
use codegraph::types::{Edge, EdgeType, Language, Node, NodeType};

#[test]
fn string_repr_escapes_quotes_and_controls() {
    assert_eq!(string_repr("plain"), "\"plain\"");
    assert_eq!(string_repr("say \"hi\" \\ now"), "\"say \\\"hi\\\" \\\\ now\"");
    assert_eq!(string_repr("a\nb\tc\r"), "\"a\nb\tc\r\"");
    assert_eq!(string_repr("\0\u{8}\u{c}\u{1}\u{1f}\u{7f}"), "\"\\0\\b\\f\\x01\\x1f\\x7f\"");
    assert_eq!(string_repr("类型"), "\"类型\"");
    assert_eq!(string_repr(""), "\"\"");
}

#[test]
fn decimals() {
    assert_eq!(decimal_string(0), "0");
    assert_eq!(decimal_string(7), "7");
    assert_eq!(decimal_string(1203), "1203");
    assert_eq!(decimal_string(usize::MAX), usize::MAX.to_string());
}

#[test]
fn node_merge_statement() {
    let mut n = Node::from_type_and_name(NodeType::Class, "types.go:Address".to_string());
    n.language = Language::Go;
    n.start_line = 3;
    n.end_line = 6;
    n.code = "Address struct {}".to_string();
    let set = "n.type = \"class\", n.short_name = \"address\", n.language = \"Go\", n.code = \"Address struct {}\", n.skeleton_code = \"\", n.start_line = 3, n.end_line = 6";
    let expected = format!("MERGE (n:Class {{ name: \"types.go:Address\" }}) ON CREATE SET {set} ON MATCH SET {set}");
    assert_eq!(merge_node_statement(&n), expected);
    let d = Node::from_type_and_name(NodeType::Directory, "".to_string());
    assert_eq!(
        merge_node_statement_with(&d, &String::new()),
        "MERGE (n:Directory { name: \"\" }) ON CREATE SET n.type = \"directory\", n.short_name = \"\" ON MATCH SET n.type = \"directory\", n.short_name = \"\""
    );
    assert_eq!(table_name(NodeType::OtherType), "OtherType");
}

#[test]
fn edge_merge_statement() {
    let f = Node::from_type_and_name(NodeType::File, "main.ts".to_string());
    let t = Node::from_type_and_name(NodeType::Interface, "types.ts:User".to_string());
    let mut e = Edge::between(EdgeType::Imports, &f, &t);
    e.import = Some("User".to_string());
    let set = "e.type = \"file_interface\", e.import = \"User\", e.alias = null";
    assert_eq!(
        merge_edge_statement(&e),
        format!("MATCH (a:File), (b:Interface) WHERE a.name = \"main.ts\" AND b.name = \"types.ts:User\" MERGE (a)-[e:IMPORTS]->(b) ON CREATE SET {set} ON MATCH SET {set}")
    );
    let c = Edge::between(EdgeType::Contains, &f, &t);
    assert!(merge_edge_statement(&c).ends_with("ON CREATE SET e.type = \"file_interface\" ON MATCH SET e.type = \"file_interface\""));
}

#[test]
fn delete_and_lookup_statements() {
    let names = vec!["types.go:Address".to_string(), "x\"y".to_string()];
    assert_eq!(
        delete_nodes_statement(&names),
        "MATCH (n) WHERE n.name IN [\"types.go:Address\", \"x\\\"y\"] DETACH DELETE n"
    );
    assert_eq!(delete_nodes_statement(&vec![]), "MATCH (n) WHERE n.name IN [] DETACH DELETE n");
    assert_eq!(
        lookup_statement(&".".to_string(), 2, &vec!["address".to_string(), "hobby".to_string()]),
        "MATCH (o { name: \".\" }) MATCH (o)-[:CONTAINS*2]->(typ) WHERE typ.short_name IN [\"address\", \"hobby\"] RETURN typ"
    );
}

#[test]
fn root_is_staged_as_dot() {
    assert_eq!(staged_name(&String::new()), ".");
    assert_eq!(staged_name(&"pkg/x".to_string()), "pkg/x");
    assert_eq!(stored_name(&".".to_string()), "");
    assert_eq!(stored_name(&"pkg/x".to_string()), "pkg/x");
    assert_eq!(stored_name(&staged_name(&String::new())), "");
}

#[test]
fn file_statements() {
    assert_eq!(
        file_definitions_statement(&"types.go".to_string()),
        "MATCH (file)-[:CONTAINS*1..2]->(def) WHERE file.name = \"types.go\" RETURN def"
    );
    assert_eq!(
        delete_outgoing_edges_statement(&vec!["types.go".to_string(), "types.go:Address".to_string()]),
        "MATCH (a)-[e]->() WHERE a.name IN [\"types.go\", \"types.go:Address\"] DELETE e"
    );
    let q = param_types_statement(&"main.go".to_string(), 37);
    assert!(q.starts_with("MATCH (file { name: \"main.go\" }) MATCH (file)-[:CONTAINS*1..2]->(func)"));
    assert!(q.contains("WHERE func.start_line < 37 AND func.end_line > 37 OPTIONAL MATCH"));
    assert!(q.ends_with("COLLECT(meth.skeleton_code) AS methods"));
}

#[test]
fn relations_group_and_stage() {
    let root = Node::from_type_and_name(NodeType::Directory, String::new());
    let f = Node::from_type_and_name(NodeType::File, "main.ts".to_string());
    let g = Node::from_type_and_name(NodeType::File, "types.ts".to_string());
    let c = Node::from_type_and_name(NodeType::Class, "types.ts:User".to_string());
    let mut imp = Edge::between(EdgeType::Imports, &f, &c);
    imp.alias = Some("U".to_string());
    let edges = vec![
        Edge::between(EdgeType::Contains, &root, &f),
        Edge::between(EdgeType::Contains, &g, &c),
        Edge::between(EdgeType::Contains, &root, &g),
        imp,
    ];
    let groups = relation_groups(&edges);
    let keys: Vec<(EdgeType, NodeType, NodeType, usize)> = groups.iter().map(|g| (g.0, g.1, g.2, g.3.len())).collect();
    assert_eq!(
        keys,
        vec![
            (EdgeType::Contains, NodeType::Directory, NodeType::File, 2),
            (EdgeType::Contains, NodeType::File, NodeType::Class, 1),
            (EdgeType::Imports, NodeType::File, NodeType::Class, 1),
        ]
    );
    assert_eq!(groups[0].3[1].to.name, "types.ts");
    let rows = relation_rows(&edges);
    assert_eq!(rows[0], vec![".", "main.ts", "directory_file"]);
    assert_eq!(rows[3], vec!["main.ts", "types.ts:User", "file_class", "", "U"]);
    let e = edge_from_row("CONTAINS", &".".to_string(), "directory", &"main.ts".to_string(), "file", None, None).unwrap();
    assert_eq!((e.edge_type, e.from.name.as_str(), e.from.node_type, e.to.name.as_str()), (EdgeType::Contains, "", NodeType::Directory, "main.ts"));
    assert!(edge_from_row("contains", &".".to_string(), "directory", &"x".to_string(), "file", None, None).is_none());
    assert!(edge_from_row("CONTAINS", &".".to_string(), "folder", &"x".to_string(), "file", None, None).is_none());
}

#[test]
fn nodes_group_and_stage() {
    let root = Node::from_type_and_name(NodeType::Directory, String::new());
    let f = {
        let mut n = Node::from_type_and_name(NodeType::File, "main.go".to_string());
        n.language = Language::Go;
        n
    };
    let mut c = Node::from_type_and_name(NodeType::Class, "main.go:User".to_string());
    c.language = Language::Go;
    c.start_line = 3;
    c.end_line = 6;
    c.code = "User struct {}".to_string();
    let g = codegraph::store::node_groups(&vec![root.clone(), f.clone(), c.clone(), Node::from_type_and_name(NodeType::File, "a.go".to_string())]);
    let keys: Vec<(NodeType, usize)> = g.iter().map(|x| (x.0, x.1.len())).collect();
    assert_eq!(keys, vec![(NodeType::Directory, 1), (NodeType::File, 2), (NodeType::Class, 1)]);
    assert_eq!(codegraph::store::node_row(&root), vec![".", "directory", ""]);
    assert_eq!(codegraph::store::node_row(&f), vec!["main.go", "file", "main.go", "Go", "", ""]);
    assert_eq!(codegraph::store::node_row(&c), vec!["main.go:User", "class", "user", "Go", "User struct {}", "", "3", "6"]);
    let back = codegraph::store::node_from_row("class", &"main.go:User".to_string(), "Go", 3, 6, "User struct {}".to_string(), String::new()).unwrap();
    assert_eq!((back.name.as_str(), back.node_type, back.language, back.start_line), ("main.go:User", NodeType::Class, Language::Go, 3));
    let r = codegraph::store::node_from_row("directory", &".".to_string(), "Text", 0, 0, String::new(), String::new()).unwrap();
    assert_eq!(r.name, "");
    assert!(codegraph::store::node_from_row("klass", &"x".to_string(), "Go", 0, 0, String::new(), String::new()).is_none());
    assert!(codegraph::store::node_from_row("class", &"x".to_string(), "Rust", 0, 0, String::new(), String::new()).is_none());
}
