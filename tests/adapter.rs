use codegraph::adapter::{parse_go, parse_python, parse_typescript, Capture, Pattern, QueryMatch, Role};
use codegraph::types::{EdgeType, Language, Node, NodeType};
use codegraph::typescript::ImportCapture;

fn cap(role: Role, text: &str, line: usize, start_char: usize) -> Capture {
    Capture { role, text: text.to_string(), start_line: line, end_line: line + text.matches('\n').count(), start_char }
}

fn m(pattern: Pattern, captures: Vec<Capture>) -> QueryMatch {
    QueryMatch { pattern, captures, source_path: None }
}

fn file(name: &str, language: Language) -> Node {
    let mut n = Node::from_type_and_name(NodeType::File, name.to_string());
    n.language = language;
    n
}

fn contains_edges(edges: &[codegraph::types::Edge]) -> Vec<String> {
    edges
        .iter()
        .filter(|e| e.edge_type == EdgeType::Contains)
        .map(|e| format!("{}-[contains]->{}", e.from.name, e.to.name))
        .collect()
}

#[test]
fn go_file_definitions_and_constructor() {
    let f = file("main.go", Language::Go);
    let user = "type User struct {\n\tName string\n}";
    let new_user = "func NewUser(name string) User {\n\treturn User{}\n}";
    let set_addr = "func (u *User) SetAddress(a Address, h []*Hobby) {\n\tu.a = a\n}";
    let body = set_addr.find('{').unwrap();
    let method = |param: &str| {
        m(Pattern::Method, vec![
            cap(Role::Definition, set_addr, 20, 100),
            cap(Role::Receiver, "User", 20, 109),
            cap(Role::Name, "SetAddress", 20, 115),
            cap(Role::ParamType, param, 20, 128),
            cap(Role::Body, "{\n\tu.a = a\n}", 20, 100 + body),
        ])
    };
    let matches = vec![
        m(Pattern::Import, vec![cap(Role::ImportPath, "\"fmt\"", 2, 10), cap(Role::ImportPath, "\"example.com/demo/pkg\"", 3, 20)]),
        m(Pattern::Class, vec![cap(Role::Definition, user, 5, 40), cap(Role::Name, "User", 5, 45)]),
        m(Pattern::Function, vec![
            cap(Role::Definition, new_user, 10, 70),
            cap(Role::Name, "NewUser", 10, 75),
            cap(Role::ParamType, "string", 10, 88),
            cap(Role::ReturnType, "User", 10, 96),
        ]),
        method("Address"),
        method("[]*Hobby"),
        m(Pattern::Function, vec![cap(Role::Definition, "func main() {}", 30, 200), cap(Role::Name, "main", 30, 205)]),
    ];
    let r = parse_go(&f, &matches, &Some("example.com/demo".to_string()));
    let names: Vec<&str> = r.nodes.iter().map(|n| n.name.as_str()).collect();
    assert_eq!(names, vec!["main.go:User", "main.go:User.NewUser", "main.go:User.SetAddress", "main.go:main"]);
    assert_eq!(
        contains_edges(&r.edges),
        vec![
            "main.go-[contains]->main.go:User",
            "main.go:User-[contains]->main.go:User.NewUser",
            "main.go:User-[contains]->main.go:User.SetAddress",
            "main.go-[contains]->main.go:main",
        ]
    );
    let imports: Vec<(&str, Option<&str>)> = r
        .edges
        .iter()
        .filter(|e| e.edge_type == EdgeType::Imports)
        .map(|e| (e.to.name.as_str(), e.import.as_deref()))
        .collect();
    assert_eq!(imports, vec![("pkg", Some("pkg"))]);
    let refs: Vec<(String, String, Option<String>)> = r
        .param_types
        .iter()
        .map(|(f, p)| (f.clone(), p.type_ident.clone(), p.package_name.clone()))
        .collect();
    assert_eq!(
        refs,
        vec![
            ("main.go:User.SetAddress".to_string(), "Address".to_string(), Some(String::new())),
            ("main.go:User.SetAddress".to_string(), "Hobby".to_string(), Some(String::new())),
        ]
    );
    let sa = &r.nodes[2];
    assert_eq!(sa.skeleton_code, "func (u *User) SetAddress(a Address, h []*Hobby) {\n...\n}");
    assert_eq!(sa.code, set_addr);
    assert_eq!((sa.start_line, sa.end_line), (20, 22));
    assert_eq!(sa.language, Language::Go);
}

#[test]
fn file_without_matches_yields_nothing() {
    let f = file("broken.go", Language::Go);
    let r = parse_go(&f, &vec![], &Some("example.com/demo".to_string()));
    assert!(r.nodes.is_empty() && r.edges.is_empty() && r.param_types.is_empty());
    let t = parse_typescript(&file("broken.ts", Language::TypeScript), &vec![]);
    assert!(t.nodes.is_empty() && t.edges.is_empty() && t.pending_imports.is_empty());
}

#[test]
fn typescript_file_imports_classes_and_methods() {
    let f = file("main.ts", Language::TypeScript);
    let mut import = m(Pattern::Import, vec![
        cap(Role::Import(ImportCapture::NamedName), "User", 0, 9),
        cap(Role::Import(ImportCapture::Source), "'./types'", 0, 20),
    ]);
    import.source_path = Some("types.ts".to_string());
    let mut external = m(Pattern::Import, vec![
        cap(Role::Import(ImportCapture::DefaultAlias), "React", 1, 7),
        cap(Role::Import(ImportCapture::Source), "'react'", 1, 18),
    ]);
    external.source_path = None;
    let class = "class Greeter {\n  greet(u: User) { return u; }\n}";
    let method = "greet(u: User) { return u; }";
    let mbody = method.find('{').unwrap();
    let greet = |param: &str| {
        m(Pattern::Method, vec![
            cap(Role::ParentName, "Greeter", 3, 56),
            cap(Role::Definition, method, 4, 66),
            cap(Role::Name, "greet", 4, 66),
            cap(Role::ParamType, param, 4, 75),
            cap(Role::Body, "{ return u; }", 4, 66 + mbody),
        ])
    };
    let matches = vec![
        import,
        external,
        m(Pattern::Class, vec![
            cap(Role::Definition, class, 3, 50),
            cap(Role::Name, "Greeter", 3, 56),
            cap(Role::Body, "{\n  greet(u: User) { return u; }\n}", 3, 64),
        ]),
        greet("User"),
        greet("User"),
        m(Pattern::Method, vec![
            cap(Role::ParentName, "Missing", 9, 0),
            cap(Role::Definition, "f() {}", 9, 0),
            cap(Role::Name, "f", 9, 0),
        ]),
        m(Pattern::TypeAlias, vec![cap(Role::Definition, "type Id = string;", 8, 120), cap(Role::Name, "Id", 8, 125)]),
    ];
    let r = parse_typescript(&f, &matches);
    let names: Vec<&str> = r.nodes.iter().map(|n| n.name.as_str()).collect();
    assert_eq!(names, vec!["main.ts:Greeter", "main.ts:Greeter.greet", "main.ts:Id"]);
    assert_eq!(
        contains_edges(&r.edges),
        vec![
            "main.ts-[contains]->main.ts:Greeter",
            "main.ts:Greeter-[contains]->main.ts:Greeter.greet",
            "main.ts-[contains]->main.ts:Id",
        ]
    );
    assert_eq!(r.nodes[0].skeleton_code, "class Greeter { ... }");
    assert_eq!(r.nodes[1].skeleton_code, "greet(u: User) { ... }");
    assert_eq!(r.nodes[2].node_type, NodeType::OtherType);
    assert_eq!(r.pending_imports.len(), 1);
    assert_eq!(r.pending_imports[0].symbol.as_deref(), Some("User"));
    assert_eq!(r.pending_imports[0].source_path, "types.ts");
    assert_eq!(r.param_types.len(), 2);
    assert!(r.param_types.iter().all(|(f, p)| f == "main.ts:Greeter.greet"
        && p.type_ident == "User"
        && p.package_name.as_deref() == Some("types.ts")));
}

#[test]
fn python_takes_classes_only() {
    let f = file("app/models.py", Language::Python);
    let matches = vec![
        m(Pattern::Class, vec![cap(Role::Definition, "class A:\n    pass", 0, 0), cap(Role::Name, "A", 0, 6)]),
        m(Pattern::Function, vec![cap(Role::Definition, "def f(): pass", 3, 20), cap(Role::Name, "f", 3, 24)]),
    ];
    let r = parse_python(&f, &matches);
    assert_eq!(r.nodes.len(), 1);
    assert_eq!(r.nodes[0].name, "app/models.py:A");
    assert_eq!(r.nodes[0].skeleton_code, "");
    assert_eq!(contains_edges(&r.edges), vec!["app/models.py-[contains]->app/models.py:A"]);
}

#[test]
fn go_constructor_needs_an_earlier_struct() {
    let f = file("a.go", Language::Go);
    let matches = vec![
        m(Pattern::Interface, vec![cap(Role::Definition, "I interface{}", 0, 5), cap(Role::Name, "I", 0, 5)]),
        m(Pattern::Function, vec![
            cap(Role::Definition, "func New() I {}", 2, 20),
            cap(Role::Name, "New", 2, 25),
            cap(Role::ReturnType, "I", 2, 31),
        ]),
        m(Pattern::Class, vec![cap(Role::Definition, "S struct{}", 4, 40), cap(Role::Name, "S", 4, 45)]),
        m(Pattern::Function, vec![
            cap(Role::Definition, "func NewS() S {}", 6, 60),
            cap(Role::Name, "NewS", 6, 65),
            cap(Role::ReturnType, "S", 6, 72),
        ]),
        m(Pattern::Method, vec![
            cap(Role::Definition, "func (i I) Do() {}", 8, 80),
            cap(Role::Receiver, "I", 8, 86),
            cap(Role::Name, "Do", 8, 91),
        ]),
    ];
    let r = parse_go(&f, &matches, &None);
    let names: Vec<&str> = r.nodes.iter().map(|n| n.name.as_str()).collect();
    assert_eq!(names, vec!["a.go:I", "a.go:New", "a.go:S", "a.go:S.NewS", "a.go:I.Do"]);
    assert_eq!(
        contains_edges(&r.edges),
        vec![
            "a.go-[contains]->a.go:I",
            "a.go-[contains]->a.go:New",
            "a.go-[contains]->a.go:S",
            "a.go:S-[contains]->a.go:S.NewS",
            "a.go:I-[contains]->a.go:I.Do",
        ]
    );
}
