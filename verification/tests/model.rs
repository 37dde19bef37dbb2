use repoharbor::model::path_is_pull_only;

#[test]
fn path_is_pull_only_matches_prefix() {
    let prefixes = vec!["/home/u/odoo/core".into()];
    assert!(path_is_pull_only("/home/u/odoo/core/enterprise", &prefixes));
    assert!(path_is_pull_only("/home/u/odoo/core", &prefixes));
    assert!(!path_is_pull_only("/home/u/odoo/digits/myapp", &prefixes));
    assert!(!path_is_pull_only("/home/u/odoo/corex", &prefixes));
}

#[test]
fn pull_only_prefix_with_trailing_slash_still_matches() {
    let prefixes = vec!["/home/u/odoo/core/".to_string()];
    assert!(path_is_pull_only("/home/u/odoo/core", &prefixes));
    assert!(!path_is_pull_only("/anything", &[]));
}
