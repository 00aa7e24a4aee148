use codegraph::parser::ParserConfig;

#[test]
fn config_defaults_and_builders() {
    let c = ParserConfig::default();
    assert!(c.recursive && !c.follow_links && c.max_depth == 0);
    assert!(!c.continue_on_error && c.ignore_patterns.is_empty() && c.use_gitignore_files);
    let c = c
        .recursive(false)
        .follow_links(true)
        .max_depth(1)
        .continue_on_error(true)
        .ignore_patterns(vec!["!types.go".to_string()])
        .use_gitignore_files(false);
    assert!(!c.recursive && c.follow_links && c.max_depth == 1 && c.continue_on_error);
    assert_eq!(c.ignore_patterns, vec!["!types.go".to_string()]);
    assert!(!c.use_gitignore_files);
}
