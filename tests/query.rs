use codegraph::graph::Graph;
use codegraph::types::{Edge, EdgeType, Language, Node, NodeType};

fn def(t: NodeType, lang: Language, name: &str, lines: (usize, usize), code: &str, skeleton: &str) -> Node {
    let mut n = Node::from_type_and_name(t, name.to_string());
    n.language = lang;
    n.start_line = lines.0;
    n.end_line = lines.1;
    n.code = code.to_string();
    n.skeleton_code = skeleton.to_string();
    n
}

fn rendered(g: &Graph, file: &str, line: usize) -> Vec<String> {
    g.func_param_snippets(&file.to_string(), line)
        .iter()
        .map(|s| format!("-->{}:{}:{}\n{}", s.path, s.start_line, s.end_line, s.content))
        .collect()
}

#[test]
fn test_get_func_param_types_go() {
    let mut g = Graph::new();
    g.add_entry(Node::from_type_and_name(NodeType::File, "main.go".to_string()));
    g.add_entry(Node::from_type_and_name(NodeType::File, "types.go".to_string()));
    let user = def(NodeType::Class, Language::Go, "main.go:User", (14, 20), "User struct {}", "");
    let set = def(NodeType::Function, Language::Go, "main.go:User.SetAddress", (35, 40), "func (u *User) SetAddress(a Address, h Hobby) {}", "func (u *User) SetAddress(a Address, h Hobby) {\n...\n}");
    let address = def(NodeType::Class, Language::Go, "types.go:Address", (3, 6), "Address struct {\n\t\tCountry string\n\t\tCity    string\n\t}", "");
    let hobby = def(NodeType::Class, Language::Go, "types.go:Hobby", (8, 11), "Hobby struct {\n\t\tSports bool\n\t\tMusic  bool\n\t}", "");
    g.add_child(&"main.go".to_string(), user.clone());
    g.add_child(&"main.go:User".to_string(), set.clone());
    g.add_child(&"types.go".to_string(), address.clone());
    g.add_child(&"types.go".to_string(), hobby.clone());
    g.add_edge(Edge::between(EdgeType::References, &set, &address));
    g.add_edge(Edge::between(EdgeType::References, &set, &hobby));
    let result = rendered(&g, "main.go", 37);
    assert_eq!(
        result,
        vec![
            "-->types.go:3:6\nAddress struct {\n\t\tCountry string\n\t\tCity    string\n\t}".to_string(),
            "-->types.go:8:11\nHobby struct {\n\t\tSports bool\n\t\tMusic  bool\n\t}".to_string(),
        ]
    );
    assert!(rendered(&g, "main.go", 35).is_empty());
    assert!(rendered(&g, "types.go", 37).is_empty());
}

#[test]
fn test_get_func_param_types_typescript() {
    let mut g = Graph::new();
    g.add_entry(Node::from_type_and_name(NodeType::File, "main.ts".to_string()));
    g.add_entry(Node::from_type_and_name(NodeType::File, "types.ts".to_string()));
    let fetch = def(NodeType::Function, Language::TypeScript, "main.ts:fetchUserData", (23, 30), "async function fetchUserData(userID: UserID, service: UserService) {}", "");
    let id = def(NodeType::OtherType, Language::TypeScript, "types.ts:UserID", (22, 22), "type UserID = string | number;", "");
    let service = def(NodeType::Class, Language::TypeScript, "types.ts:UserService", (26, 48), "class UserService { /* body */ }", "class UserService { ... }");
    let filter = def(NodeType::Function, Language::TypeScript, "types.ts:UserService.filterUsers", (27, 29), "", "public static filterUsers<T extends User>(users: T[], predicate: (user: T) => boolean): T[] { ... }");
    let get = def(NodeType::Function, Language::TypeScript, "types.ts:UserService.getUser", (31, 40), "", "public async getUser(userID: UserID): Promise<User[]> { ... }");
    let ctor = def(NodeType::Function, Language::TypeScript, "types.ts:UserService.constructor", (42, 47), "", "constructor(baseUrl: string) { ... }");
    g.add_child(&"main.ts".to_string(), fetch.clone());
    g.add_child(&"types.ts".to_string(), id.clone());
    g.add_child(&"types.ts".to_string(), service.clone());
    g.add_child(&"types.ts:UserService".to_string(), filter);
    g.add_child(&"types.ts:UserService".to_string(), get);
    g.add_child(&"types.ts:UserService".to_string(), ctor);
    g.add_edge(Edge::between(EdgeType::References, &fetch, &id));
    g.add_edge(Edge::between(EdgeType::References, &fetch, &service));
    let mut snippet_strings = rendered(&g, "main.ts", 25);
    snippet_strings.sort();
    assert_eq!(
        snippet_strings,
        &[
            r#"-->types.ts:22:22
type UserID = string | number;"#,
            r#"-->types.ts:26:48
class UserService {
  public static filterUsers<T extends User>(users: T[], predicate: (user: T) => boolean): T[] { ... }
  public async getUser(userID: UserID): Promise<User[]> { ... }
  constructor(baseUrl: string) { ... }
}"#,
        ],
    );
}

#[test]
fn below_and_lookups_by_owner() {
    let mut g = Graph::new();
    g.add_entry(Node::from_type_and_name(NodeType::File, "types.go".to_string()));
    g.add_entry(Node::from_type_and_name(NodeType::File, "pkg/a.go".to_string()));
    g.add_child(&"types.go".to_string(), Node::from_type_and_name(NodeType::Class, "types.go:Address".to_string()));
    g.add_child(&"types.go".to_string(), Node::from_type_and_name(NodeType::Class, "types.go:Hobby".to_string()));
    g.add_child(&"pkg/a.go".to_string(), Node::from_type_and_name(NodeType::Class, "pkg/a.go:Address".to_string()));
    let one: Vec<String> = g.below(&String::new(), 1).into_iter().map(|n| n.name).collect();
    assert_eq!(one, vec!["types.go", "pkg"]);
    let two: Vec<String> = g.below(&String::new(), 2).into_iter().map(|n| n.name).collect();
    assert_eq!(two, vec!["types.go:Address", "types.go:Hobby", "pkg/a.go"]);
    assert!(g.below(&String::new(), 0).is_empty());
    let found = g.found_for_requests(&vec![(String::new(), vec!["address".to_string()]), ("pkg".to_string(), vec!["address".to_string()])], 2);
    let got: Vec<(String, String)> = found.into_iter().map(|(o, n)| (o, n.name)).collect();
    assert_eq!(got, vec![(String::new(), "types.go:Address".to_string()), ("pkg".to_string(), "pkg/a.go:Address".to_string())]);
}

#[test]
fn query_by_absolute_or_relative_path() {
    let mut g = Graph::new();
    g.add_entry(Node::from_type_and_name(NodeType::File, "main.go".to_string()));
    g.add_entry(Node::from_type_and_name(NodeType::File, "types.go".to_string()));
    let set = def(NodeType::Function, Language::Go, "main.go:f", (1, 9), "", "");
    let t = def(NodeType::Class, Language::Go, "types.go:T", (0, 2), "T struct{}", "");
    g.add_child(&"main.go".to_string(), set.clone());
    g.add_child(&"types.go".to_string(), t.clone());
    g.add_edge(Edge::between(EdgeType::References, &set, &t));
    let root = "/repo".to_string();
    assert_eq!(g.param_snippets_for_path(&root, &"/repo/main.go".to_string(), 5).len(), 1);
    assert_eq!(g.param_snippets_for_path(&root, &"main.go".to_string(), 5).len(), 1);
    assert!(g.param_snippets_for_path(&root, &"/other/main.go".to_string(), 5).is_empty());
}
