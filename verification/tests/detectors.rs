//! Manifest detectors: package, build and multi-service manifests.

use std::collections::HashMap;

use stackscan::detectors::{
    detect_docker_component, detect_node_component, detect_rust_component,
};
use stackscan::loader::{load_all_rules, Compiled};
use stackscan::provider::{FakeProvider, FileType, ProviderFile};
use stackscan::register::Registry;
use stackscan::rules::register_all;

fn catalog() -> (Registry, Compiled) {
    let mut registry = Registry::new();
    register_all(&mut registry).unwrap();
    let mut compiled = Compiled::new();
    load_all_rules(&mut compiled, &registry.registered_rules).unwrap();
    (registry, compiled)
}

fn file(name: &str, fp: &str) -> ProviderFile {
    ProviderFile { name: name.to_string(), file_type: FileType::File, fp: fp.to_string() }
}

#[test]
fn test_detect_node_component() {
    let package_content = r#"
{
    "name": "test_project",
    "version": "1.0.0",
    "dependencies": {
        "express": "^4.17.1",
        "react": "17.0.2"
    },
    "devDependencies": {
        "jest": "^27.0.0",
        "typescript": "4.5.4"
    }
}"#;

    let mut files_map = HashMap::new();
    files_map.insert("package.json".to_string(), package_content.to_string());
    let mut paths = HashMap::new();
    paths.insert("/".to_string(), vec!["package.json".to_string()]);
    let provider = FakeProvider::new(paths, files_map);

    let files = vec![file("package.json", "package.json")];

    let (registry, compiled) = catalog();
    let result = detect_node_component(&registry, &compiled, &files, &provider).unwrap();

    assert_eq!(result.name, "test_project");
    assert!(result.path.contains(&"package.json".to_string()));

    let deps = result.dependencies;
    assert!(deps.contains(&vec![
        "npm".to_string(),
        "express".to_string(),
        "^4.17.1".to_string()
    ]));
    assert!(deps.contains(&vec![
        "npm".to_string(),
        "react".to_string(),
        "17.0.2".to_string()
    ]));
    assert!(deps.contains(&vec![
        "npm".to_string(),
        "jest".to_string(),
        "^27.0.0".to_string()
    ]));
    assert!(deps.contains(&vec![
        "npm".to_string(),
        "typescript".to_string(),
        "4.5.4".to_string()
    ]));
}

#[test]
fn test_detect_rust_component() {
    let cargo_content = r#"
[package]
name = "test_project"
version = "0.1.0"

[dependencies]
serde = "1.0"
tokio = { version = "1.0", features = ["full"] }
axum = { git = "https://github.com/tokio-rs/axum", branch = "main" }
local_dep = { path = "../local_dep" }

[dev-dependencies]
mockall = "0.11"

[build-dependencies]
cc = "1.0"

[workspace.dependencies]
workspace_dep = "1.0"
"#;

    let mut files_map = HashMap::new();
    files_map.insert("Cargo.toml".to_string(), cargo_content.to_string());
    let mut paths = HashMap::new();
    paths.insert("/".to_string(), vec!["Cargo.toml".to_string()]);
    let provider = FakeProvider::new(paths, files_map);

    let files = vec![file("Cargo.toml", "Cargo.toml")];

    let (registry, compiled) = catalog();
    let result = detect_rust_component(&registry, &compiled, &files, &provider).unwrap();

    assert_eq!(result.name, "test_project");
    assert!(result.path.contains(&"Cargo.toml".to_string()));

    let deps = result.dependencies;
    assert!(deps.contains(&vec![
        "rust".to_string(),
        "serde".to_string(),
        "1.0".to_string()
    ]));
    assert!(deps.contains(&vec![
        "rust".to_string(),
        "tokio".to_string(),
        "1.0".to_string()
    ]));
    assert!(deps.contains(&vec![
        "rust".to_string(),
        "axum".to_string(),
        "git:https://github.com/tokio-rs/axum#main".to_string()
    ]));
    assert!(deps.contains(&vec![
        "rust".to_string(),
        "local_dep".to_string(),
        "path:../local_dep".to_string()
    ]));
    assert!(deps.contains(&vec![
        "rust".to_string(),
        "mockall".to_string(),
        "0.11".to_string()
    ]));
    assert!(deps.contains(&vec![
        "rust".to_string(),
        "cc".to_string(),
        "1.0".to_string()
    ]));
    assert!(deps.contains(&vec![
        "rust".to_string(),
        "workspace_dep".to_string(),
        "1.0".to_string()
    ]));
}

#[test]
fn test_detect_docker_component() {
    let docker_content = r#"
services:
  web:
    image: nginx:1.19
  db:
    image: postgres:13
    container_name: my-postgres
"#;

    let mut files_map = HashMap::new();
    files_map.insert("docker-compose.yml".to_string(), docker_content.to_string());
    let mut paths = HashMap::new();
    paths.insert("/".to_string(), vec!["docker-compose.yml".to_string()]);
    let provider = FakeProvider::new(paths, files_map);

    let files = vec![file("docker-compose.yml", "docker-compose.yml")];

    let (registry, compiled) = catalog();
    let result = detect_docker_component(&registry, &compiled, &files, &provider).unwrap();

    assert_eq!(result.name, "virtual");
    assert!(result.path.contains(&"docker-compose.yml".to_string()));

    let children = result.childs;
    assert_eq!(children.len(), 2);

    let web = children.iter().find(|c| c.name == "web").unwrap();
    assert!(web.dependencies.contains(&vec![
        "docker".to_string(),
        "nginx".to_string(),
        "1.19".to_string()
    ]));

    let db = children.iter().find(|c| c.name == "my-postgres").unwrap();
    assert!(db.dependencies.contains(&vec![
        "docker".to_string(),
        "postgres".to_string(),
        "13".to_string()
    ]));
    assert_eq!(db.tech, Some("postgresql".to_string()));
}

#[test]
fn test_compose_placeholder_image_is_skipped() {
    // a service whose image is an unresolved variable placeholder
    // yields no component at all
    let docker_content = r#"
services:
  mystery:
    image: "$DB_IMAGE"
  cache:
    image: redis:7
"#;

    let mut files_map = HashMap::new();
    files_map.insert("docker-compose.yml".to_string(), docker_content.to_string());
    let mut paths = HashMap::new();
    paths.insert("/".to_string(), vec!["docker-compose.yml".to_string()]);
    let provider = FakeProvider::new(paths, files_map);

    let files = vec![file("docker-compose.yml", "docker-compose.yml")];

    let (registry, compiled) = catalog();
    let result = detect_docker_component(&registry, &compiled, &files, &provider).unwrap();

    assert_eq!(result.childs.len(), 1);
    assert_eq!(result.childs[0].name, "cache");
}

#[test]
fn test_compose_default_tag_is_latest() {
    let docker_content = r#"
services:
  cache:
    image: redis
"#;

    let mut files_map = HashMap::new();
    files_map.insert("docker-compose.yml".to_string(), docker_content.to_string());
    let mut paths = HashMap::new();
    paths.insert("/".to_string(), vec!["docker-compose.yml".to_string()]);
    let provider = FakeProvider::new(paths, files_map);

    let files = vec![file("docker-compose.yml", "docker-compose.yml")];

    let (registry, compiled) = catalog();
    let result = detect_docker_component(&registry, &compiled, &files, &provider).unwrap();

    assert_eq!(result.childs.len(), 1);
    assert!(result.childs[0].dependencies.contains(&vec![
        "docker".to_string(),
        "redis".to_string(),
        "latest".to_string()
    ]));
}

#[test]
fn test_detect_node_component_without_name_is_no_match() {
    let mut files_map = HashMap::new();
    files_map.insert(
        "package.json".to_string(),
        r#"{ "dependencies": { "pg": "1.0.0" } }"#.to_string(),
    );
    let mut paths = HashMap::new();
    paths.insert("/".to_string(), vec!["package.json".to_string()]);
    let provider = FakeProvider::new(paths, files_map);

    let files = vec![file("package.json", "package.json")];

    let (registry, compiled) = catalog();
    let result = detect_node_component(&registry, &compiled, &files, &provider);
    assert!(result.is_err());
}
