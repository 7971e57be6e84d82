use kapplier::filter::{should_be_applied, FilterConfig};

fn yaml_config(ignore_hidden: bool) -> FilterConfig {
    FilterConfig {
        ignore_hidden_directories: ignore_hidden,
        supported_extensions: vec![String::from("yml"), String::from("yaml")],
    }
}

#[test]
fn accepts_plain_yaml_file() {
    let cfg = yaml_config(true);
    assert!(should_be_applied("repo/app/deployment.yaml", &cfg));
    assert!(should_be_applied("repo/app/service.yml", &cfg));
}

#[test]
fn rejects_hidden_directory_component() {
    let cfg = yaml_config(true);
    assert!(!should_be_applied("repo/.git/config.yaml", &cfg));
    assert!(!should_be_applied(".github/workflows/ci.yaml", &cfg));
    assert!(!should_be_applied("repo/app/.hidden.yaml", &cfg));
}

#[test]
fn single_dot_component_is_not_hidden() {
    let cfg = yaml_config(true);
    assert!(should_be_applied("./repo/app.yaml", &cfg));
    assert!(should_be_applied("repo/./app.yaml", &cfg));
}

#[test]
fn hidden_directories_allowed_when_rule_disabled() {
    let cfg = yaml_config(false);
    assert!(should_be_applied("repo/.git/config.yaml", &cfg));
}

#[test]
fn rejects_file_without_extension() {
    let cfg = yaml_config(true);
    assert!(!should_be_applied("repo/README", &cfg));
    assert!(!should_be_applied("repo/app/Makefile", &cfg));
}

#[test]
fn rejects_unsupported_extension() {
    let cfg = yaml_config(true);
    assert!(!should_be_applied("repo/app/notes.txt", &cfg));
    assert!(!should_be_applied("repo/app/data.json", &cfg));
}

#[test]
fn extension_match_is_case_sensitive() {
    let cfg = yaml_config(true);
    assert!(!should_be_applied("repo/app/deployment.YAML", &cfg));
}

#[test]
fn leading_dot_name_has_no_extension() {
    let cfg = yaml_config(true);
    // ".yaml" is a name whose only dot leads it: no extension at all.
    assert!(!should_be_applied("repo/app/yaml-dir/notext", &cfg));
    assert!(!should_be_applied("repo/nested/dir/x", &cfg));
    // A dotted hidden name is rejected by the hidden rule anyway; with the
    // rule off it still has no extension when its only dot is the first char.
    let off = yaml_config(false);
    assert!(!should_be_applied(".yaml", &off));
}

#[test]
fn last_extension_wins() {
    let cfg = yaml_config(true);
    assert!(should_be_applied("repo/app/config.tpl.yaml", &cfg));
    assert!(!should_be_applied("repo/app/config.yaml.bak", &cfg));
}

#[test]
fn empty_path_is_rejected() {
    let cfg = yaml_config(true);
    assert!(!should_be_applied("", &cfg));
}
