use codegraph::snippet::{node_file_path, skeleton_code, snippet_content, Snippet};
use codegraph::types::{Language, NodeType};

#[test]
fn skeleton_keeps_signature_and_marks_body() {
    let code = "func (u *User) SetAddress(a Address) {\n\tu.a = a\n}".to_string();
    let body = code.find('{').unwrap();
    assert_eq!(
        skeleton_code(&code, body, Language::Go),
        "func (u *User) SetAddress(a Address) {\n...\n}"
    );
    let ts = "getUser(id: UserID): User { return this.u; }".to_string();
    let body = ts.find('{').unwrap();
    assert_eq!(skeleton_code(&ts, body, Language::TypeScript), "getUser(id: UserID): User { ... }");
    assert_eq!(skeleton_code(&ts, body, Language::Python), "");
}

#[test]
fn go_snippet_is_code_then_method_skeletons() {
    let code = "Address struct {\n\t\tCountry string\n\t\tCity    string\n\t}".to_string();
    let s = Snippet::for_type(&"types.go:Address".to_string(), Language::Go, NodeType::Class, 3, 6, &code, &String::new(), &vec![]);
    assert_eq!(format!("-->{}:{}:{}\n{}", s.path, s.start_line, s.end_line, s.content),
        "-->types.go:3:6\nAddress struct {\n\t\tCountry string\n\t\tCity    string\n\t}");
    let with = snippet_content(Language::Go, NodeType::Class, &"T struct {}".to_string(), &String::new(),
        &vec!["func (t T) A() {\n...\n}".to_string()]);
    assert_eq!(with, "T struct {}\n\nfunc (t T) A() {\n...\n}");
}

#[test]
fn ts_type_alias_snippet_is_its_code() {
    let code = "type UserID = string | number;".to_string();
    let s = Snippet::for_type(&"types.ts:UserID".to_string(), Language::TypeScript, NodeType::OtherType, 22, 22, &code, &String::new(), &vec![]);
    assert_eq!(format!("-->{}:{}:{}\n{}", s.path, s.start_line, s.end_line, s.content),
        "-->types.ts:22:22\ntype UserID = string | number;");
}

#[test]
fn ts_class_snippet_lists_method_signatures() {
    let methods = vec![
        "constructor(users: User[]) { ... }".to_string(),
        "getUser(id: UserID): User | undefined { ... }".to_string(),
    ];
    let c = snippet_content(Language::TypeScript, NodeType::Class, &"class UserService { body }".to_string(),
        &"class UserService { ... }".to_string(), &methods);
    assert_eq!(c, "class UserService {\n  constructor(users: User[]) { ... }\n  getUser(id: UserID): User | undefined { ... }\n}");
    assert!(c.starts_with("class UserService {"));
    assert_eq!(snippet_content(Language::Python, NodeType::Class, &"x".to_string(), &"y".to_string(), &methods), "");
}

#[test]
fn snippet_path_is_file_part_of_name() {
    assert_eq!(node_file_path(&"pkg/a.go:User.SetAddress".to_string()), "pkg/a.go");
    assert_eq!(node_file_path(&"pkg/a.go".to_string()), "pkg/a.go");
}

#[test]
fn test_query() {}
