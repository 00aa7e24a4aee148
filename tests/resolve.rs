use codegraph::graph::Graph;
use codegraph::parser::{FuncParamType, PendingImport};
use codegraph::resolve::{
    lookup_requests, lowered_records,
    reference_edges_from_table, resolve_func_param_type_edges, resolve_func_param_type_edges_from_db,
    resolve_pending_imports,
};
use codegraph::types::{Edge, EdgeType, Language, Node, NodeType};

fn node(t: NodeType, name: &str) -> Node {
    Node::from_type_and_name(t, name.to_string())
}

fn ts_nodes() -> Vec<Node> {
    vec![
        node(NodeType::Directory, ""),
        node(NodeType::File, "main.ts"),
        node(NodeType::Function, "main.ts:greetUser"),
        node(NodeType::Function, "main.ts:fetchUserData"),
        node(NodeType::File, "types.ts"),
        node(NodeType::Interface, "types.ts:User"),
        node(NodeType::OtherType, "types.ts:UserID"),
        node(NodeType::Class, "types.ts:UserService"),
    ]
}

fn imp(symbol: Option<&str>, alias: Option<&str>) -> (String, PendingImport) {
    (
        "main.ts".to_string(),
        PendingImport {
            language: Language::TypeScript,
            source_path: "types.ts".to_string(),
            symbol: symbol.map(|s| s.to_string()),
            alias: alias.map(|s| s.to_string()),
        },
    )
}

fn render(edges: &[Edge]) -> Vec<String> {
    edges.iter().map(|e| format!("{}-[{}]->{}", e.from.name, e.edge_type.name(), e.to.name)).collect()
}

#[test]
fn pending_imports_resolve_to_existing_nodes() {
    let pending = vec![
        imp(Some("User"), None),
        imp(Some("UserID"), Some("Id")),
        imp(Some("Missing"), None),
        imp(None, Some("T")),
        imp(Some("export default"), Some("D")),
    ];
    let edges = resolve_pending_imports(&ts_nodes(), &pending);
    assert_eq!(
        render(&edges),
        vec!["main.ts-[imports]->types.ts:User", "main.ts-[imports]->types.ts:UserID", "main.ts-[imports]->types.ts"]
    );
    assert_eq!(edges[1].import.as_deref(), Some("UserID"));
    assert_eq!(edges[1].alias.as_deref(), Some("Id"));
    assert_eq!(edges[2].import, None);
    assert_eq!(edges[2].alias.as_deref(), Some("T"));
    assert_eq!(edges[0].to.node_type, NodeType::Interface);
}

fn fpt(func: &str, ty: &str, owner: Option<&str>) -> (String, FuncParamType) {
    (
        func.to_string(),
        FuncParamType { type_ident: ty.to_string(), package_name: owner.map(|s| s.to_string()) },
    )
}

#[test]
fn param_types_resolve_by_owner_and_name() {
    let refs = vec![
        fpt("main.ts:greetUser", "User", Some("types.ts")),
        fpt("main.ts:fetchUserData", "UserID", Some("types.ts")),
        fpt("main.ts:fetchUserData", "UserService", Some("types.ts")),
        fpt("main.ts:fetchUserData", "Nope", Some("types.ts")),
        fpt("main.ts:fetchUserData", "User", None),
        fpt("main.ts:missing", "User", Some("types.ts")),
    ];
    let edges = resolve_func_param_type_edges(&ts_nodes(), &refs);
    assert_eq!(
        render(&edges),
        vec![
            "main.ts:greetUser-[references]->types.ts:User",
            "main.ts:fetchUserData-[references]->types.ts:UserID",
            "main.ts:fetchUserData-[references]->types.ts:UserService",
        ]
    );
}

#[test]
fn table_lookup_uses_owner_and_short_name() {
    let nodes = vec![node(NodeType::Function, "main.go:User.SetAddress")];
    let refs = vec![
        ("main.go:User.SetAddress".to_string(), ".".to_string(), "address".to_string()),
        ("main.go:User.SetAddress".to_string(), "pkg".to_string(), "address".to_string()),
        ("main.go:other".to_string(), ".".to_string(), "address".to_string()),
    ];
    let table = vec![
        (".".to_string(), "address".to_string(), node(NodeType::Class, "types.go:Address")),
        ("pkg".to_string(), "hobby".to_string(), node(NodeType::Class, "pkg/h.go:Hobby")),
    ];
    let edges = reference_edges_from_table(&nodes, &refs, &table);
    assert_eq!(render(&edges), vec!["main.go:User.SetAddress-[references]->types.go:Address"]);
}

#[test]
fn store_lookup_case_folds_type_names() {
    let nodes = vec![node(NodeType::Function, "main.go:User.SetAddress"), node(NodeType::Function, "main.go:User.ChangeStatus")];
    let refs = vec![
        fpt("main.go:User.SetAddress", "Address", Some(".")),
        fpt("main.go:User.SetAddress", "Hobby", Some(".")),
        fpt("main.go:User.ChangeStatus", "Status", Some(".")),
        fpt("main.go:User.ChangeStatus", "Thing", None),
    ];
    let found = vec![
        (".".to_string(), node(NodeType::Class, "types.go:Address")),
        (".".to_string(), node(NodeType::Class, "types.go:Hobby")),
        (".".to_string(), node(NodeType::OtherType, "types.go:Status")),
    ];
    let edges = resolve_func_param_type_edges_from_db(&nodes, &refs, &found);
    assert_eq!(
        render(&edges),
        vec![
            "main.go:User.SetAddress-[references]->types.go:Address",
            "main.go:User.SetAddress-[references]->types.go:Hobby",
            "main.go:User.ChangeStatus-[references]->types.go:Status",
        ]
    );
}

fn go_demo() -> Graph {
    let mut g = Graph::new();
    g.add_child(&"".to_string(), node(NodeType::File, "main.go"));
    g.add_child(&"".to_string(), node(NodeType::File, "types.go"));
    g.add_child(&"main.go".to_string(), node(NodeType::Class, "main.go:User"));
    g.add_child(&"main.go:User".to_string(), node(NodeType::Function, "main.go:User.SetAddress"));
    g.add_child(&"types.go".to_string(), node(NodeType::Class, "types.go:Address"));
    g.add_child(&"types.go".to_string(), node(NodeType::Class, "types.go:Hobby"));
    let f = node(NodeType::Function, "main.go:User.SetAddress");
    g.add_edge(Edge::between(EdgeType::References, &f, &node(NodeType::Class, "types.go:Address")));
    g.add_edge(Edge::between(EdgeType::References, &f, &node(NodeType::Class, "types.go:Hobby")));
    g
}

#[test]
fn renamed_type_replaces_node_and_drops_reference() {
    let mut g = go_demo();
    let before_nodes: Vec<String> = g.nodes.iter().map(|n| n.name.clone()).collect();
    let before_edges = render(&g.edges);
    g.delete_nodes(&vec!["types.go:Address".to_string()]);
    assert!(g.add_child(&"types.go".to_string(), node(NodeType::Class, "types.go:Address2")));
    let after_nodes: Vec<String> = g.nodes.iter().map(|n| n.name.clone()).collect();
    let after_edges = render(&g.edges);
    assert!(!after_nodes.contains(&"types.go:Address".to_string()));
    assert!(after_nodes.contains(&"types.go:Address2".to_string()));
    assert!(!after_edges.contains(&"main.go:User.SetAddress-[references]->types.go:Address".to_string()));
    for n in before_nodes.iter().filter(|n| n.as_str() != "types.go:Address") {
        assert!(after_nodes.contains(n), "{n}");
    }
    for e in before_edges.iter().filter(|e| !e.contains("types.go:Address") || e.contains("Address2")) {
        assert!(after_edges.contains(e), "{e}");
    }
    assert!(after_edges.contains(&"main.go:User.SetAddress-[references]->types.go:Hobby".to_string()));
}

#[test]
fn lookups_are_grouped_by_owner() {
    let refs = vec![
        fpt("main.ts:a", "User", Some("types.ts")),
        fpt("main.ts:a", "UserID", Some("types.ts")),
        fpt("main.ts:b", "Task", Some("lib/index.ts")),
        fpt("main.ts:b", "USER", Some("types.ts")),
        fpt("main.ts:c", "Loose", None),
    ];
    let recs = lowered_records(&refs);
    assert_eq!(
        recs,
        vec![
            ("main.ts:a".to_string(), "types.ts".to_string(), "user".to_string()),
            ("main.ts:a".to_string(), "types.ts".to_string(), "userid".to_string()),
            ("main.ts:b".to_string(), "lib/index.ts".to_string(), "task".to_string()),
            ("main.ts:b".to_string(), "types.ts".to_string(), "user".to_string()),
        ]
    );
    let q = lookup_requests(&recs);
    assert_eq!(
        q,
        vec![
            ("types.ts".to_string(), vec!["user".to_string(), "userid".to_string()]),
            ("lib/index.ts".to_string(), vec!["task".to_string()]),
        ]
    );
    assert!(lookup_requests(&vec![]).is_empty());
}
