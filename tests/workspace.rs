use bakehouse::bake::BakeFile;
use bakehouse::config::{parse_output_format, OutputFormat};
use bakehouse::error::BakeError;
use bakehouse::model::PackageJson;
use bakehouse::names::sanitize_docker_name;
use bakehouse::pnpm::{compile_patterns, is_hidden, is_member, PnpmPackageInfo, PnpmWorkspaceInfo};
use bakehouse::value::Value;
use bakehouse::workspace::{PackageInfo, Workspace};

fn manifest(name: &str, deps: &[&str], dev_deps: &[&str]) -> PackageJson {
    let list = |names: &[&str]| -> Option<Vec<(String, String)>> {
        if names.is_empty() {
            None
        } else {
            Some(names.iter().map(|n| (n.to_string(), "*".to_string())).collect())
        }
    };
    PackageJson {
        name: name.to_string(),
        version: "1.0.0".to_string(),
        dependencies: list(deps),
        dev_dependencies: list(dev_deps),
        engines: None,
    }
}

fn sample_workspace() -> PnpmWorkspaceInfo {
    let root = PnpmPackageInfo::from_manifest(manifest("sample-monorepo", &[], &[]), "/repo".to_string());
    let api = PnpmPackageInfo::from_manifest(
        manifest("api", &["logger", "winston"], &[]),
        "/repo/apps/api".to_string(),
    );
    let logger = PnpmPackageInfo::from_manifest(manifest("logger", &["winston"], &[]), "/repo/packages/logger".to_string());
    PnpmWorkspaceInfo { root_package: root, packages: vec![api, logger] }
}

#[test]
fn sanitize_removes_scope_marker_and_lowercases() {
    assert_eq!(sanitize_docker_name("@sample/api"), "sample-api");
    assert_eq!(sanitize_docker_name("@scope/name"), "scope-name");
    assert_eq!(sanitize_docker_name("My/Pkg@Next"), "my-pkgnext");
    assert_eq!(sanitize_docker_name(""), "");
}

#[test]
fn sanitize_lowercases_every_letter() {
    assert_eq!(sanitize_docker_name("\u{c9}"), "\u{e9}");
    assert_eq!(sanitize_docker_name("@\u{c9}cole/Caf\u{c9}"), "\u{e9}cole-caf\u{e9}");
}

#[test]
fn sanitize_is_idempotent_on_examples() {
    for name in ["@sample/api", "A/B/C", "@@x//Y", "plain"] {
        let once = sanitize_docker_name(name);
        assert_eq!(sanitize_docker_name(&once), once);
    }
}

#[test]
fn sample_workspace_resolves_in_workspace_dependencies_only() {
    let info = sample_workspace();
    let ws = Workspace::new(&info);
    assert_eq!(ws.name, "sample-monorepo");
    let api = &ws.packages[0];
    assert_eq!(api.name, "api");
    assert_eq!(api.dependencies, vec!["root".to_string(), "logger".to_string()]);
    let logger = &ws.packages[1];
    assert_eq!(logger.dependencies, vec!["root".to_string()]);

    let bake_file = BakeFile::build(&ws);
    let (_, api_target) = bake_file.target.iter().find(|(n, _)| n == "api").unwrap();
    assert_eq!(api_target.depends_on, vec!["root".to_string(), "logger".to_string()]);
    assert!(!api_target.depends_on.contains(&"winston".to_string()));
    assert_eq!(api_target.context, "apps/api");
    assert_eq!(api_target.tags, vec!["api:1.0.0".to_string()]);
    let (_, root_target) = bake_file.target.iter().find(|(n, _)| n == "root").unwrap();
    assert_eq!(root_target.context, ".");
    assert_eq!(root_target.tags, vec!["sample-monorepo:1.0.0".to_string()]);
    assert!(root_target.depends_on.is_empty());
    assert_eq!(bake_file.group.len(), 1);
    assert_eq!(bake_file.group[0].0, "default");
    assert_eq!(bake_file.group[0].1.targets, vec!["api".to_string(), "logger".to_string()]);
}

#[test]
fn every_member_depends_on_root() {
    let ws = Workspace::new(&sample_workspace());
    let bake_file = BakeFile::build(&ws);
    for (name, target) in &bake_file.target {
        if name != "root" {
            assert_eq!(target.depends_on[0], "root");
        }
    }
}

#[test]
fn dependencies_sorted_and_deduplicated() {
    let root = PnpmPackageInfo::from_manifest(manifest("@s/root", &[], &[]), "/r".to_string());
    let app = PnpmPackageInfo::from_manifest(
        manifest("@s/app", &["@s/zeta", "@s/alpha", "@s/app", "@s/root"], &["@s/alpha", "@S/Mid"]),
        "/r/apps/app".to_string(),
    );
    let zeta = PnpmPackageInfo::from_manifest(manifest("@s/zeta", &[], &[]), "/r/z".to_string());
    let alpha = PnpmPackageInfo::from_manifest(manifest("@s/alpha", &[], &[]), "/r/a".to_string());
    let mid = PnpmPackageInfo::from_manifest(manifest("@s/mid", &[], &[]), "/r/m".to_string());
    assert_eq!(app.dependencies.len(), 5);
    let ws = Workspace::new(&PnpmWorkspaceInfo { root_package: root, packages: vec![app, zeta, alpha, mid] });
    assert_eq!(
        ws.packages[0].dependencies,
        vec!["root".to_string(), "s-alpha".to_string(), "s-mid".to_string(), "s-zeta".to_string()]
    );
    let deps = ws.get_dependencies("s-app");
    assert_eq!(deps[0], ("root".to_string(), "/r".to_string()));
    assert_eq!(deps[1], ("s-alpha".to_string(), "/r/a".to_string()));
    assert!(ws.get_dependencies("unknown").is_empty());
}

#[test]
fn default_group_lists_each_member_once() {
    let root = PnpmPackageInfo::from_manifest(manifest("root-pkg", &[], &[]), "/r".to_string());
    let a = PnpmPackageInfo::from_manifest(manifest("@x/a", &[], &[]), "/r/one".to_string());
    let b = PnpmPackageInfo::from_manifest(manifest("x-a", &[], &[]), "/r/two".to_string());
    let ws = Workspace::new(&PnpmWorkspaceInfo { root_package: root, packages: vec![a, b] });
    let bake_file = BakeFile::build(&ws);
    assert_eq!(bake_file.group[0].1.targets, vec!["x-a".to_string()]);
    assert_eq!(bake_file.target.len(), 2);
    assert_eq!(bake_file.target[1].1.context, "two");
}

#[test]
fn workspace_with_only_root_has_root_target_and_empty_default_group() {
    let root = PnpmPackageInfo::from_manifest(manifest("sample-monorepo", &[], &[]), "/repo".to_string());
    let ws = Workspace::new(&PnpmWorkspaceInfo { root_package: root, packages: vec![] });
    let bake_file = BakeFile::build(&ws);
    let value = bake_file.to_value();
    let Value::Object(top) = value else { panic!("descriptor should encode as an object") };
    let (_, targets) = top.iter().find(|(k, _)| k == "target").unwrap();
    let Value::Object(targets) = targets else { panic!("target table should be an object") };
    assert_eq!(targets.len(), 1);
    assert_eq!(targets[0].0, "root");
    let (_, groups) = top.iter().find(|(k, _)| k == "group").unwrap();
    let Value::Object(groups) = groups else { panic!("group table should be an object") };
    assert_eq!(groups.len(), 1);
    assert_eq!(groups[0].0, "default");
    assert_eq!(groups[0].1, Value::Object(vec![("targets".to_string(), Value::Array(vec![]))]));
}

#[test]
fn unsupported_output_format_is_refused() {
    assert_eq!(
        parse_output_format("yaml"),
        Err(BakeError::UnsupportedFormat { format: "yaml".to_string() })
    );
    assert_eq!(parse_output_format("hcl"), Ok(OutputFormat::Hcl));
    assert_eq!(parse_output_format("json"), Ok(OutputFormat::Json));
}

#[test]
fn membership_follows_glob_patterns() {
    let globs = compile_patterns(&vec!["apps/*".to_string(), "packages/*".to_string()]).unwrap();
    assert!(is_member("/repo/apps/api", "/repo", &globs));
    assert!(is_member("/repo/packages/logger", "/repo", &globs));
    assert!(!is_member("/repo/tools/lint", "/repo", &globs));
    assert!(!is_member("/repo", "/repo", &globs));
    assert!(!is_member("/elsewhere/apps/api", "/repo", &globs));
}

#[test]
fn invalid_membership_glob_is_reported() {
    let result = compile_patterns(&vec!["apps/*".to_string(), "a***".to_string(), "[".to_string()]);
    assert_eq!(result.err(), Some(BakeError::InvalidGlob { pattern: "a***".to_string() }));
}

#[test]
fn hidden_entries_start_with_a_dot() {
    assert!(is_hidden(".git"));
    assert!(!is_hidden("apps"));
    assert!(!is_hidden(""));
}

#[test]
fn manifest_dependencies_are_merged_once() {
    let info = PnpmPackageInfo::from_manifest(manifest("p", &["a", "b"], &["b", "c"]), "/p".to_string());
    assert_eq!(info.dependencies, vec!["a".to_string(), "b".to_string(), "c".to_string()]);
    assert_eq!(info.sanitized_name(), "p");
}
