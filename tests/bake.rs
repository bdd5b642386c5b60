use bakehouse::bake::{BakeFile, Target};
use bakehouse::value::Value;

fn field<'a>(fields: &'a [(String, Value)], key: &str) -> Option<&'a Value> {
    fields.iter().find(|(k, _)| k == key).map(|(_, v)| v)
}

#[test]
fn test_target_new_with_workspace_root() {
    let workspace_root = "/workspace";
    let package_path = "/workspace/apps/api";

    let target = Target::new(
        package_path,
        workspace_root,
        "Dockerfile.bake".to_string(),
        vec!["sample-api:1.0.0".to_string()],
        vec![],
    );

    assert_eq!(target.context, "apps/api");
}

#[test]
fn test_target_new_with_nested_workspace() {
    let workspace_root = "/projects/myrepo/workspace";
    let package_path = "/projects/myrepo/workspace/packages/logger";

    let target = Target::new(
        package_path,
        workspace_root,
        "Dockerfile.bake".to_string(),
        vec!["sample-logger:1.0.0".to_string()],
        vec![],
    );

    assert_eq!(target.context, "packages/logger");
}

#[test]
fn test_target_new_with_relative_paths() {
    let workspace_root = "./sample/monorepo";
    let package_path = "./sample/monorepo/apps/web";

    let target = Target::new(
        package_path,
        workspace_root,
        "Dockerfile.bake".to_string(),
        vec!["sample-web:1.0.0".to_string()],
        vec![],
    );

    assert_eq!(target.context, "apps/web");
}

#[test]
fn test_target_new_with_current_directory() {
    let workspace_root = ".";
    let package_path = "./apps/api";

    let target = Target::new(
        package_path,
        workspace_root,
        "Dockerfile.bake".to_string(),
        vec!["sample-api:1.0.0".to_string()],
        vec![],
    );

    assert_eq!(target.context, "apps/api");
}

#[test]
fn test_target_new_when_running_from_different_directory() {
    let workspace_root = "/workspace/myapp";
    let package_paths = vec![
        ("/workspace/myapp/apps/api", "apps/api"),
        ("/workspace/myapp/packages/logger", "packages/logger"),
    ];

    for (package_path, expected_context) in package_paths {
        let target = Target::new(
            package_path,
            workspace_root,
            "Dockerfile.bake".to_string(),
            vec!["test:1.0.0".to_string()],
            vec![],
        );

        assert_eq!(
            target.context, expected_context,
            "Context path should be relative to workspace root, not current directory"
        );
    }
}

#[test]
fn test_target_new_with_nested_workspace_from_different_directory() {
    let workspace_root = "/var/projects/myapp/services";
    let package_path = "/var/projects/myapp/services/backend/api";

    let target = Target::new(
        package_path,
        workspace_root,
        "Dockerfile.bake".to_string(),
        vec!["api:1.0.0".to_string()],
        vec![],
    );

    assert_eq!(
        target.context, "backend/api",
        "Context should be relative to workspace root regardless of where CLI is run from"
    );
}

#[test]
fn test_target_new_with_absolute_workspace_path() {
    let workspace_root = "/absolute/path/to/workspace";
    let package_path = format!("{}/{}", workspace_root, "services/web");

    let target = Target::new(
        &package_path,
        workspace_root,
        "Dockerfile.bake".to_string(),
        vec!["web:1.0.0".to_string()],
        vec![],
    );

    assert_eq!(
        target.context, "services/web",
        "Context should always be relative to workspace root"
    );
}

#[test]
fn test_target_to_hcl() {
    let target = Target {
        context: "apps/api".to_string(),
        dockerfile: "Dockerfile.bake".to_string(),
        tags: vec!["sample-api:1.0.0".to_string()],
        depends_on: vec!["sample-logger".to_string()],
        dockerfile_contents: None,
        contexts: None,
    };

    let hcl = target.to_hcl();

    if let Value::Object(map) = hcl {
        assert_eq!(field(&map, "context").unwrap(), &Value::String("apps/api".to_string()));
        assert_eq!(field(&map, "dockerfile").unwrap(), &Value::String("Dockerfile.bake".to_string()));

        if let Value::Array(tags) = field(&map, "tags").unwrap() {
            assert_eq!(tags[0], Value::String("sample-api:1.0.0".to_string()));
        } else {
            panic!("tags should be an array");
        }

        if let Value::Array(deps) = field(&map, "depends_on").unwrap() {
            assert_eq!(deps[0], Value::String("sample-logger".to_string()));
        } else {
            panic!("depends_on should be an array");
        }
    } else {
        panic!("target.to_hcl() should return an Object");
    }
}

#[test]
fn test_bakefile_to_hcl() {
    let mut bake_file = BakeFile::new();

    let target = Target {
        context: "apps/api".to_string(),
        dockerfile: "Dockerfile.bake".to_string(),
        tags: vec!["sample-api:1.0.0".to_string()],
        depends_on: vec!["sample-logger".to_string()],
        dockerfile_contents: None,
        contexts: None,
    };
    bake_file.add_target("sample-api".to_string(), target);

    bake_file.add_group("default".to_string(), vec!["sample-api".to_string()]);

    let hcl = bake_file.to_hcl();

    let expected = r#"group "default" {
  targets = ["sample-api"]
}

target "sample-api" {
  context = "apps/api"
  dockerfile = "Dockerfile.bake"
  tags = ["sample-api:1.0.0"]
  depends_on = ["sample-logger"]
}

"#;

    assert_eq!(hcl, expected);
}

#[test]
fn test_bakefile_to_hcl_multiple_targets() {
    let mut bake_file = BakeFile::new();

    let api_target = Target {
        context: "apps/api".to_string(),
        dockerfile: "Dockerfile.bake".to_string(),
        tags: vec!["sample-api:1.0.0".to_string()],
        depends_on: vec!["sample-logger".to_string()],
        dockerfile_contents: None,
        contexts: None,
    };
    bake_file.add_target("sample-api".to_string(), api_target);

    let admin_target = Target {
        context: "apps/admin".to_string(),
        dockerfile: "Dockerfile.bake".to_string(),
        tags: vec!["sample-admin:1.0.0".to_string()],
        depends_on: vec!["sample-types".to_string()],
        dockerfile_contents: None,
        contexts: None,
    };
    bake_file.add_target("sample-admin".to_string(), admin_target);

    bake_file.add_group(
        "default".to_string(),
        vec!["sample-api".to_string(), "sample-admin".to_string()],
    );

    let hcl = bake_file.to_hcl();

    assert!(hcl.contains(r#"group "default" {"#));
    assert!(hcl.contains(r#"targets = ["sample-api", "sample-admin"]"#));
    assert!(hcl.contains(r#"target "sample-api" {"#));
    assert!(hcl.contains(r#"target "sample-admin" {"#));
    assert!(hcl.contains(r#"context = "apps/api""#));
    assert!(hcl.contains(r#"context = "apps/admin""#));
}

#[test]
fn test_target_new_handles_sanitized_names_and_paths() {
    let workspace_root = "/workspace";
    let package_path = "/workspace/apps/api";

    let target = Target::new(
        package_path,
        workspace_root,
        "Dockerfile.bake".to_string(),
        vec!["sample-api:1.0.0".to_string()],
        vec!["sample-logger".to_string()],
    );

    assert_eq!(target.context, "apps/api");

    let hcl = target.to_hcl();
    if let Value::Object(map) = hcl {
        assert_eq!(field(&map, "context").unwrap(), &Value::String("apps/api".to_string()));
        assert_eq!(
            field(&map, "tags").unwrap(),
            &Value::Array(vec![Value::String("sample-api:1.0.0".to_string())])
        );
        assert_eq!(
            field(&map, "depends_on").unwrap(),
            &Value::Array(vec![Value::String("sample-logger".to_string())])
        );
    }
}

#[test]
fn root_target_is_tagged_with_root_name_and_version() {
    let mut bake_file = BakeFile::new();
    bake_file.add_root_target("@Sample/Monorepo", "1.0.0");

    let api_target = Target {
        context: "apps/api".to_string(),
        dockerfile: "Dockerfile.bake".to_string(),
        tags: vec!["sample-api:1.0.0".to_string()],
        depends_on: vec!["root".to_string(), "sample-logger".to_string()],
        dockerfile_contents: None,
        contexts: None,
    };
    bake_file.add_target("sample-api".to_string(), api_target);

    let hcl = bake_file.to_hcl();

    assert!(hcl.contains(r#"target "root" {"#));
    assert!(hcl.contains(r#"context = ".""#));
    assert!(hcl.contains(r#"tags = ["sample-monorepo:1.0.0"]"#));
    assert!(hcl.contains("target \"root\" {\n  context = \".\"\n  dockerfile = \"Dockerfile.bake\"\n  tags = [\"sample-monorepo:1.0.0\"]\n}\n\n"));
    assert!(hcl.contains(r#"depends_on = ["root", "sample-logger"]"#));
}

#[test]
fn target_outside_root_directory_names_root_context() {
    let target = Target::new("/w/apps/api", "/w", "Dockerfile.bake".to_string(), vec![], vec![]);
    assert_eq!(target.contexts, Some(vec![("root".to_string(), "target:root".to_string())]));
    assert_eq!(target.dockerfile_contents, None);

    let at_root = Target::new("/w", "/w", "Dockerfile.bake".to_string(), vec![], vec![]);
    assert_eq!(at_root.context, ".");
    assert_eq!(at_root.contexts, None);
}

#[test]
fn context_ignores_doubled_and_trailing_separators() {
    let target = Target::new("/w//apps/./api/", "/w/", "Dockerfile.bake".to_string(), vec![], vec![]);
    assert_eq!(target.context, "apps/api");
}

#[test]
fn context_of_path_outside_root_keeps_path_without_leading_dot_slash() {
    let target = Target::new("././other/pkg", "/w", "Dockerfile.bake".to_string(), vec![], vec![]);
    assert_eq!(target.context, "other/pkg");
}

#[test]
fn context_block_and_empty_depends_on_in_block_encoding() {
    let mut bake_file = BakeFile::new();
    let target = Target::new("/w/apps/web", "/w", "Dockerfile.bake".to_string(), vec!["web:2.0.0".to_string()], vec![]);
    bake_file.add_target("web".to_string(), target);
    let expected = "target \"web\" {\n  context = \"apps/web\"\n  dockerfile = \"Dockerfile.bake\"\n  tags = [\"web:2.0.0\"]\n  contexts = {\n    root = \"target:root\"\n  }\n}\n\n";
    assert_eq!(bake_file.to_hcl(), expected);
}

#[test]
fn add_target_replaces_target_of_same_name() {
    let mut bake_file = BakeFile::new();
    bake_file.add_target("a".to_string(), Target::with_context("one".to_string()));
    bake_file.add_target("b".to_string(), Target::with_context("two".to_string()));
    bake_file.add_target("a".to_string(), Target::with_context("three".to_string()));
    assert_eq!(bake_file.target.len(), 2);
    assert_eq!(bake_file.target[0].0, "a");
    assert_eq!(bake_file.target[0].1.context, "three");
    assert_eq!(bake_file.target[1].1.context, "two");
}

#[test]
fn with_context_and_default_targets() {
    let t = Target::with_context("apps/x".to_string());
    assert_eq!(t.context, "apps/x");
    assert_eq!(t.dockerfile, "Dockerfile.bake");
    assert!(t.tags.is_empty());
    let d = Target::default();
    assert_eq!(d.context, ".");
    assert_eq!(d.tags, vec!["workspace-root:latest".to_string()]);
}

#[test]
fn structured_encoding_round_trips() {
    let mut bake_file = BakeFile::new();
    bake_file.add_root_target("sample-monorepo", "1.0.0");
    let target = Target::new(
        "/w/apps/api",
        "/w",
        "Dockerfile.bake".to_string(),
        vec!["api:1.0.0".to_string()],
        vec!["root".to_string(), "logger".to_string()],
    );
    bake_file.add_target("api".to_string(), target);
    bake_file.add_group("default".to_string(), vec!["api".to_string()]);

    let value = bake_file.to_value();
    let back = BakeFile::from_value(&value).unwrap();
    assert_eq!(back.group.len(), 1);
    assert_eq!(back.group[0].0, "default");
    assert_eq!(back.group[0].1.targets, vec!["api".to_string()]);
    assert_eq!(back.target.len(), 2);
    for (a, b) in back.target.iter().zip(bake_file.target.iter()) {
        assert_eq!(a.0, b.0);
        assert_eq!(a.1.context, b.1.context);
        assert_eq!(a.1.dockerfile, b.1.dockerfile);
        assert_eq!(a.1.tags, b.1.tags);
        assert_eq!(a.1.depends_on, b.1.depends_on);
        assert_eq!(a.1.contexts, b.1.contexts);
    }
}

#[test]
fn structured_decoding_refuses_other_shapes() {
    assert!(BakeFile::from_value(&Value::String("x".to_string())).is_none());
    let missing_target = Value::Object(vec![("group".to_string(), Value::Object(vec![]))]);
    assert!(BakeFile::from_value(&missing_target).is_none());
    let bad_tags = Value::Object(vec![
        ("group".to_string(), Value::Object(vec![])),
        (
            "target".to_string(),
            Value::Object(vec![(
                "t".to_string(),
                Value::Object(vec![
                    ("context".to_string(), Value::String(".".to_string())),
                    ("dockerfile".to_string(), Value::String("D".to_string())),
                    ("tags".to_string(), Value::String("not a list".to_string())),
                    ("depends_on".to_string(), Value::Array(vec![])),
                ]),
            )]),
        ),
    ]);
    assert!(BakeFile::from_value(&bad_tags).is_none());
}

#[test]
fn add_target_hands_back_pending_dockerfile_text() {
    let mut bake_file = BakeFile::new();
    let mut target = Target::with_context("apps/api".to_string());
    target.dockerfile_contents = Some("FROM root\n".to_string());
    let pending = bake_file.add_target("api".to_string(), target);
    assert_eq!(pending, Some("FROM root\n".to_string()));
    assert_eq!(bake_file.target[0].1.dockerfile_contents, None);
    assert_eq!(bake_file.target[0].1.context, "apps/api");
    assert_eq!(bake_file.add_target("web".to_string(), Target::with_context("apps/web".to_string())), None);
}
