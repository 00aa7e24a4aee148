use codegraph::parser::PendingImport;
use codegraph::types::Language;
use codegraph::typescript::{
    choose_import_path, extract_ts_types, filter_ts_types, import_probe_paths, is_relative_import, param_types_from_names, parse_func_param_types,
    pending_import_from_captures, ImportCapture,
};

fn strings(v: &[&str]) -> Vec<String> {
    v.iter().map(|s| s.to_string()).collect()
}

#[test]
fn test_extract_ts_types() {
    let test_cases = vec![
        ("X", vec!["X"], vec!["X"]),
        ("X[]", vec!["X"], vec!["X"]),
        ("X[][]", vec!["X"], vec!["X"]),
        ("Map<string, X>", vec!["Map", "string", "X"], vec!["X"]),
        ("Promise<X>", vec!["Promise", "X"], vec!["X"]),
        ("Array<X>", vec!["Array", "X"], vec!["X"]),
        ("Record<string, X>", vec!["Record", "string", "X"], vec!["X"]),
        ("Promise<Map<string, X>>", vec!["Promise", "Map", "string", "X"], vec!["X"]),
        ("Partial<X>", vec!["Partial", "X"], vec!["X"]),
        ("X | Y", vec!["X", "Y"], vec!["X", "Y"]),
        ("X & Y", vec!["X", "Y"], vec!["X", "Y"]),
        ("Person extends Human ? X : Y", vec!["Person", "Human", "X", "Y"], vec!["Person", "Human", "X", "Y"]),
    ];

    for (case, all, custom) in test_cases {
        assert_eq!(extract_ts_types(case, false), strings(&all), "{case}");
        assert_eq!(extract_ts_types(case, true), strings(&custom), "{case}");
    }
}

#[test]
fn extract_keeps_first_occurrence_only() {
    assert_eq!(extract_ts_types("Map<X, X>", false), strings(&["Map", "X"]));
    assert_eq!(extract_ts_types("", true), Vec::<String>::new());
}

#[test]
fn filter_drops_builtins_and_repeats() {
    let idents = strings(&["string", "User", "number", "User", "Task", "Promise"]);
    assert_eq!(filter_ts_types(&idents, true), strings(&["User", "Task"]));
    assert_eq!(
        filter_ts_types(&idents, false),
        strings(&["string", "User", "number", "Task", "Promise"])
    );
}

#[test]
fn param_type_owners() {
    let imports = vec![
        ("User".to_string(), "types.ts".to_string()),
        ("T".to_string(), "lib/index.ts".to_string()),
        ("User".to_string(), "models.ts".to_string()),
    ];
    let from = "main.ts:greetUser".to_string();
    let r = param_types_from_names(&from, &strings(&["User", "T.Task", "Local", "Q.Thing"]), &imports);
    let got: Vec<(String, Option<String>)> =
        r.into_iter().map(|p| (p.type_ident, p.package_name)).collect();
    assert_eq!(
        got,
        vec![
            ("User".to_string(), Some("models.ts".to_string())),
            ("Task".to_string(), Some("lib/index.ts".to_string())),
            ("Local".to_string(), Some("main.ts".to_string())),
            ("Thing".to_string(), None),
        ]
    );
}

#[test]
fn param_types_of_expression() {
    let imports = vec![("UserID".to_string(), "types.ts".to_string())];
    let r = parse_func_param_types(
        &"main.ts:fetchUserData".to_string(),
        &"Promise<UserID | string>".to_string(),
        &imports,
    );
    assert_eq!(r.len(), 1);
    assert_eq!(r[0].type_ident, "UserID");
    assert_eq!(r[0].package_name, Some("types.ts".to_string()));
}

fn import_of(caps: &[(ImportCapture, &str)]) -> PendingImport {
    let caps: Vec<(ImportCapture, String)> = caps.iter().map(|(k, t)| (*k, t.to_string())).collect();
    pending_import_from_captures(&caps, &"types.ts".to_string())
}

#[test]
fn import_forms() {
    let d = import_of(&[(ImportCapture::DefaultAlias, "X"), (ImportCapture::Source, "'./types'")]);
    assert_eq!((d.symbol.as_deref(), d.alias.as_deref()), (Some("export default"), Some("X")));
    assert_eq!(d.import_name(), "X");
    assert_eq!(d.language, Language::TypeScript);
    assert_eq!(d.source_path, "types.ts");
    let n = import_of(&[(ImportCapture::NamedName, "X"), (ImportCapture::Source, "'./types'")]);
    assert_eq!((n.symbol.as_deref(), n.alias.as_deref()), (Some("X"), None));
    assert_eq!(n.import_name(), "X");
    let a = import_of(&[(ImportCapture::NamedName, "X"), (ImportCapture::NamedAlias, "x")]);
    assert_eq!((a.symbol.as_deref(), a.alias.as_deref()), (Some("X"), Some("x")));
    assert_eq!(a.import_name(), "x");
    let s = import_of(&[(ImportCapture::NamespaceAlias, "X")]);
    assert_eq!((s.symbol.as_deref(), s.alias.as_deref()), (None, Some("X")));
    assert_eq!(s.import_name(), "X");
}

#[test]
fn directory_import_probes_index_files_in_order() {
    let base = "lib/models".to_string();
    let probes = import_probe_paths(&base, true);
    assert_eq!(probes, strings(&["lib/models/index.d.ts", "lib/models/index.ts", "lib/models/index.js"]));
    assert_eq!(choose_import_path(&base, &probes, &vec![true, true, true]), "lib/models/index.d.ts");
    assert_eq!(choose_import_path(&base, &probes, &vec![false, true, true]), "lib/models/index.ts");
    assert_eq!(choose_import_path(&base, &probes, &vec![false, false, true]), "lib/models/index.js");
    assert_eq!(choose_import_path(&base, &probes, &vec![false, false, false]), "lib/models");
}

#[test]
fn file_import_probes_ts_then_js() {
    assert_eq!(import_probe_paths(&"types".to_string(), false), strings(&["types.ts", "types.js"]));
    assert_eq!(import_probe_paths(&"a.b/c.d".to_string(), false), strings(&["a.b/c.ts", "a.b/c.js"]));
    assert_eq!(import_probe_paths(&"x/.env".to_string(), false), strings(&["x/.env.ts", "x/.env.js"]));
    let p = import_probe_paths(&"types".to_string(), false);
    assert_eq!(choose_import_path(&"types".to_string(), &p, &vec![false, true]), "types.js");
}

#[test]
fn only_relative_specifiers_resolve() {
    assert!(is_relative_import("./types"));
    assert!(is_relative_import("../lib/x"));
    assert!(!is_relative_import("react"));
    assert!(!is_relative_import(".env"));
    assert!(!is_relative_import(""));
}
