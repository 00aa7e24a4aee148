use codegraph::graph::Graph;
use codegraph::types::{Edge, EdgeType, Node, NodeType};
use codegraph::update::stale_node_names;

fn node(t: NodeType, name: &str) -> Node {
    Node::from_type_and_name(t, name.to_string())
}

fn contains(from: &Node, to: &Node) -> Edge {
    Edge::between(EdgeType::Contains, from, to)
}

fn go_demo() -> Graph {
    let mut g = Graph::new();
    g.add_entry(node(NodeType::File, "main.go"));
    g.add_entry(node(NodeType::File, "types.go"));
    g.add_child(&"main.go".to_string(), node(NodeType::Class, "main.go:User"));
    g.add_child(&"main.go:User".to_string(), node(NodeType::Function, "main.go:User.SetAddress"));
    g.add_child(&"types.go".to_string(), node(NodeType::Class, "types.go:Address"));
    g.add_child(&"types.go".to_string(), node(NodeType::Class, "types.go:Hobby"));
    let f = node(NodeType::Function, "main.go:User.SetAddress");
    g.add_edge(Edge::between(EdgeType::References, &f, &node(NodeType::Class, "types.go:Address")));
    g.add_edge(Edge::between(EdgeType::References, &f, &node(NodeType::Class, "types.go:Hobby")));
    g
}

fn node_names(g: &Graph) -> Vec<String> {
    let mut v: Vec<String> = g.nodes.iter().map(|n| n.name.clone()).collect();
    v.sort();
    v
}

fn edge_strings(g: &Graph) -> Vec<String> {
    let mut v: Vec<String> =
        g.edges.iter().map(|e| format!("{}-[{}]->{}", e.from.name, e.edge_type.name(), e.to.name)).collect();
    v.sort();
    v
}

fn modified_types(g: &mut Graph) {
    let file = node(NodeType::File, "types.go");
    let a2 = node(NodeType::Class, "types.go:Address2");
    let h = node(NodeType::Class, "types.go:Hobby");
    let old = vec!["types.go:Address".to_string(), "types.go:Hobby".to_string()];
    g.reindex_file(&file, &old, &vec![a2.clone(), h.clone()], &vec![contains(&file, &a2), contains(&file, &h)]);
}

#[test]
fn upsert_renamed_type() {
    let mut g = go_demo();
    let nodes_before = node_names(&g);
    let edges_before = edge_strings(&g);
    modified_types(&mut g);
    let nodes_after = node_names(&g);
    let edges_after = edge_strings(&g);
    assert!(nodes_before.contains(&"types.go:Address".to_string()));
    assert!(!nodes_after.contains(&"types.go:Address".to_string()));
    assert!(nodes_after.contains(&"types.go:Address2".to_string()));
    assert!(edges_before.contains(&"main.go:User.SetAddress-[references]->types.go:Address".to_string()));
    assert!(!edges_after.contains(&"main.go:User.SetAddress-[references]->types.go:Address".to_string()));
    let kept_nodes: Vec<&String> = nodes_before.iter().filter(|n| *n != "types.go:Address").collect();
    assert_eq!(kept_nodes, nodes_after.iter().filter(|n| *n != "types.go:Address2").collect::<Vec<_>>());
    let kept_edges: Vec<&String> = edges_before.iter().filter(|e| !e.ends_with("types.go:Address")).collect();
    assert_eq!(kept_edges, edges_after.iter().filter(|e| !e.ends_with("types.go:Address2")).collect::<Vec<_>>());
    assert!(edges_after.contains(&"types.go-[contains]->types.go:Address2".to_string()));
}

#[test]
fn reindex_of_unchanged_file_is_idempotent() {
    let mut g = go_demo();
    modified_types(&mut g);
    let nodes_once: Vec<String> = g.nodes.iter().map(|n| n.name.clone()).collect();
    let edges_once = edge_strings(&g);
    let file = node(NodeType::File, "types.go");
    let a2 = node(NodeType::Class, "types.go:Address2");
    let h = node(NodeType::Class, "types.go:Hobby");
    let old = vec!["types.go:Address2".to_string(), "types.go:Hobby".to_string()];
    g.reindex_file(&file, &old, &vec![a2.clone(), h.clone()], &vec![contains(&file, &a2), contains(&file, &h)]);
    let nodes_twice: Vec<String> = g.nodes.iter().map(|n| n.name.clone()).collect();
    assert_eq!(nodes_once, nodes_twice);
    assert_eq!(edges_once, edge_strings(&g));
}

#[test]
fn stale_names_are_those_not_parsed_again() {
    let old = vec!["a.go:X".to_string(), "a.go:Y".to_string(), "a.go:Z".to_string()];
    let new = vec![node(NodeType::Class, "a.go:Y")];
    assert_eq!(stale_node_names(&old, &new), vec!["a.go:X".to_string(), "a.go:Z".to_string()]);
    assert!(stale_node_names(&vec![], &new).is_empty());
}

#[test]
fn walk_entries_create_missing_directories() {
    let mut g = Graph::new();
    g.add_entry(node(NodeType::File, "pkg/x/foo.go"));
    g.add_entry(node(NodeType::Directory, "pkg"));
    g.add_entry(node(NodeType::File, "pkg/x/bar.go"));
    assert_eq!(node_names(&g), vec!["", "pkg", "pkg/x", "pkg/x/bar.go", "pkg/x/foo.go"]);
    assert_eq!(
        edge_strings(&g),
        vec![
            "-[contains]->pkg",
            "pkg-[contains]->pkg/x",
            "pkg/x-[contains]->pkg/x/bar.go",
            "pkg/x-[contains]->pkg/x/foo.go",
        ]
    );
}

#[test]
fn merged_file_parse_and_repeated_edges() {
    let mut g = Graph::new();
    g.add_entry(node(NodeType::File, "main.go"));
    let file = node(NodeType::File, "main.go");
    let user = node(NodeType::Class, "main.go:User");
    let m = node(NodeType::Function, "main.go:User.NewUser");
    g.merge_file(&vec![contains(&file, &user), contains(&user, &m), contains(&file, &user)]);
    assert_eq!(node_names(&g), vec!["", "main.go", "main.go:User", "main.go:User.NewUser"]);
    assert_eq!(g.edges.len(), 3);
    let r = Edge::between(EdgeType::References, &m, &user);
    g.merge_edge(&r);
    g.merge_edge(&r);
    assert_eq!(g.edges.len(), 4);
}

#[test]
fn walk_entries_add_files_with_their_directories() {
    let mut g = Graph::new();
    g.add_walk_entry("empty".to_string(), true);
    assert_eq!(node_names(&g), vec![""]);
    g.add_walk_entry("pkg/x/a.go".to_string(), false);
    assert_eq!(node_names(&g), vec!["", "pkg", "pkg/x", "pkg/x/a.go"]);
    assert_eq!(g.nodes[3].language, codegraph::types::Language::Go);
    assert_eq!(g.nodes[1].node_type, NodeType::Directory);
}

#[test]
fn relative_names_in_the_repository() {
    let f = |root: &str, path: &str| codegraph::util::relative_name(&root.to_string(), &path.to_string());
    assert_eq!(f("/home/u/repo", "/home/u/repo/pkg/a.go"), "pkg/a.go");
    assert_eq!(f("/home/u/repo/", "/home/u/repo/a.go"), "a.go");
    assert_eq!(f("/home/u/repo", "/home/u/repo"), "");
    assert_eq!(f("/home/u/repo", "/home/u/repository/a.go"), "home/u/repository/a.go");
    assert_eq!(f("", "a//b/"), "a/b");
}
