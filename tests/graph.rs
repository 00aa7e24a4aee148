use codegraph::graph::Graph;
use codegraph::types::{Edge, EdgeType, Node, NodeType};

fn node(t: NodeType, name: &str) -> Node {
    Node::from_type_and_name(t, name.to_string())
}

fn incoming_contains(g: &Graph, name: &str) -> usize {
    g.edges.iter().filter(|e| e.edge_type == EdgeType::Contains && e.to.name == name).count()
}

#[test]
fn empty_repository_has_only_root() {
    let g = Graph::new();
    assert_eq!(g.nodes.len(), 1);
    assert_eq!(g.nodes[0].name, "");
    assert_eq!(g.nodes[0].node_type, NodeType::Directory);
    assert!(g.edges.is_empty());
}

#[test]
fn every_non_root_node_has_one_container() {
    let mut g = Graph::new();
    assert!(g.add_child(&"".to_string(), node(NodeType::Directory, "pkg")));
    assert!(g.add_child(&"pkg".to_string(), node(NodeType::File, "pkg/a.go")));
    assert!(g.add_child(&"pkg/a.go".to_string(), node(NodeType::Class, "pkg/a.go:User")));
    assert!(!g.add_child(&"missing".to_string(), node(NodeType::File, "x.go")));
    assert!(!g.add_child(&"pkg".to_string(), node(NodeType::Directory, "")));
    assert_eq!(incoming_contains(&g, ""), 0);
    for n in &g.nodes[1..] {
        assert_eq!(incoming_contains(&g, &n.name), 1, "{}", n.name);
    }
}

#[test]
fn repeated_definition_keeps_one_contains_edge() {
    let mut g = Graph::new();
    g.add_child(&"".to_string(), node(NodeType::File, "main.go"));
    let m = node(NodeType::Function, "main.go:User.SetAddress");
    assert!(g.add_child(&"main.go".to_string(), m.clone()));
    assert!(!g.add_child(&"main.go".to_string(), m.clone()));
    assert!(!g.add_child(&"main.go".to_string(), m));
    let n = g.edges.iter().filter(|e| e.from.name == "main.go" && e.to.name == "main.go:User.SetAddress").count();
    assert_eq!(n, 1);
    assert_eq!(g.nodes.len(), 3);
}

#[test]
fn relations_need_both_endpoints() {
    let mut g = Graph::new();
    g.add_child(&"".to_string(), node(NodeType::File, "main.ts"));
    g.add_child(&"".to_string(), node(NodeType::File, "types.ts"));
    g.add_child(&"types.ts".to_string(), node(NodeType::Class, "types.ts:User"));
    let f = node(NodeType::File, "main.ts");
    let u = node(NodeType::Class, "types.ts:User");
    let missing = node(NodeType::Class, "types.ts:Ghost");
    assert!(g.add_edge(Edge::between(EdgeType::Imports, &f, &u)));
    assert!(!g.add_edge(Edge::between(EdgeType::Imports, &f, &missing)));
    assert!(!g.add_edge(Edge::between(EdgeType::Contains, &f, &u)));
    assert_eq!(g.edges.len(), 4);
}

#[test]
fn delete_nodes_removes_incident_edges() {
    let mut g = Graph::new();
    g.add_child(&"".to_string(), node(NodeType::File, "main.go"));
    g.add_child(&"".to_string(), node(NodeType::File, "types.go"));
    g.add_child(&"types.go".to_string(), node(NodeType::Class, "types.go:Address"));
    g.add_child(&"main.go".to_string(), node(NodeType::Function, "main.go:f"));
    let f = node(NodeType::Function, "main.go:f");
    let a = node(NodeType::Class, "types.go:Address");
    g.add_edge(Edge::between(EdgeType::References, &f, &a));
    g.delete_nodes(&vec!["types.go:Address".to_string()]);
    let names: Vec<&str> = g.nodes.iter().map(|n| n.name.as_str()).collect();
    assert_eq!(names, vec!["", "main.go", "types.go", "main.go:f"]);
    assert!(g.edges.iter().all(|e| e.from.name != "types.go:Address" && e.to.name != "types.go:Address"));
    assert_eq!(g.edges.len(), 3);
}
