use bakehouse::config::{default_output_format, BakehouseConfig};

#[test]
fn test_default_config() {
    let config = BakehouseConfig::default();
    assert_eq!(config.output_format, "hcl");
    assert!(config.templates.is_empty());
}

#[test]
fn test_find_template() {
    let mut config = BakehouseConfig::default();
    config.templates.push(("apps/*".to_string(), "./templates/app.dockerfile".to_string()));
    config.templates.push(("packages/*".to_string(), "./templates/lib.dockerfile".to_string()));

    let app_path = "apps/my-app";
    let lib_path = "packages/my-lib";
    let other_path = "other/thing";

    assert_eq!(config.find_template(app_path).unwrap(), "./templates/app.dockerfile");
    assert_eq!(config.find_template(lib_path).unwrap(), "./templates/lib.dockerfile");
    assert!(config.find_template(other_path).is_none());
}

#[test]
fn find_template_stops_at_invalid_glob() {
    let mut config = BakehouseConfig::default();
    config.templates.push(("a**b".to_string(), "./one".to_string()));
    config.templates.push(("apps/*".to_string(), "./two".to_string()));
    assert!(config.find_template("apps/x").is_none());
}

#[test]
fn default_format_is_hcl() {
    assert_eq!(default_output_format(), "hcl");
}
