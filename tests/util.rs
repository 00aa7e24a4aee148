use codegraph::util::{get_repo_module_file_path, go_module_path_from_go_mod, is_go_builtin_type};

#[test]
fn test_get_repo_module_file_path() {
    let repo_path = "/home/user/repo".to_string();
    let repo_mod_path = "github.com/user/repo".to_string();
    let mod_import_path = "github.com/user/repo/pkg/module".to_string();
    let expected_path = "/home/user/repo/pkg/module".to_string();
    assert_eq!(
        get_repo_module_file_path(&repo_path, &repo_mod_path, &mod_import_path),
        Some(expected_path)
    );
}

#[test]
fn module_path_outside_repo_is_none() {
    let r = get_repo_module_file_path(
        &"/home/user/repo".to_string(),
        &"github.com/user/repo".to_string(),
        &"github.com/other/lib".to_string(),
    );
    assert_eq!(r, None);
}

#[test]
fn module_path_relative_to_empty_root() {
    let m = "example.com/demo".to_string();
    let f = |p: &str| get_repo_module_file_path(&String::new(), &m, &p.to_string());
    assert_eq!(f("example.com/demo/pkg//x/"), Some("pkg/x".to_string()));
    assert_eq!(f("example.com/demo"), Some(String::new()));
    assert_eq!(
        get_repo_module_file_path(&"/r/".to_string(), &m, &"example.com/demo/a".to_string()),
        Some("/r/a".to_string())
    );
}

#[test]
fn go_builtin_types() {
    for t in ["bool", "int64", "uintptr", "complex128", "string", "error", "interface{}", "any"] {
        assert!(is_go_builtin_type(t), "{t}");
    }
    for t in ["Address", "Int", "interface", "", "float"] {
        assert!(!is_go_builtin_type(t), "{t}");
    }
}

#[test]
fn go_mod_module_line() {
    assert_eq!(
        go_module_path_from_go_mod("module example.com/demo  \n\ngo 1.21\n"),
        Some("example.com/demo".to_string())
    );
    assert_eq!(go_module_path_from_go_mod("go 1.21\nmodule example.com/demo\n"), None);
    assert_eq!(go_module_path_from_go_mod(""), None);
}
