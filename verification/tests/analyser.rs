//! Whole-tree scans through the public entry point.

use std::collections::HashMap;

use stackscan::analyser::{analyser, AnalyserOptions};
use stackscan::loader::{load_all_rules, Compiled};
use stackscan::payload::Payload;
use stackscan::provider::FakeProvider;
use stackscan::register::Registry;
use stackscan::rules::register_all;

fn catalog() -> (Registry, Compiled) {
    let mut registry = Registry::new();
    register_all(&mut registry).unwrap();
    let mut compiled = Compiled::new();
    load_all_rules(&mut compiled, &registry.registered_rules).unwrap();
    (registry, compiled)
}

#[test]
fn test_should_not_find_anything() {
    let (registry, compiled) = catalog();

    let provider = FakeProvider::new(
        HashMap::from_iter([("/".to_string(), vec![])]),
        HashMap::new(),
    );

    let result = analyser(&registry, &compiled, AnalyserOptions { provider });

    assert_eq!(result.name, "main");
    assert!(result.path.contains(&"/".to_string()));
    assert!(result.tech.is_none());
    assert!(result.languages.is_empty());
    assert!(result.childs.is_empty());
    assert!(result.techs.is_empty());
    assert!(result.dependencies.is_empty());
    assert!(result.edges.is_empty());
    assert!(result.reason.is_empty());
}

fn two_manifest_provider() -> FakeProvider {
    let docker_compose = r#"version: '3'
services:
  db:
    container_name: db
    image: postgres:15.1-alpine
    ports:
      - '5432:5432'
    environment:
      - POSTGRES_PASSWORD=postgres"#;

    FakeProvider::new(
        HashMap::from_iter([(
            "/".to_string(),
            vec!["package.json".to_string(), "docker-compose.yml".to_string()],
        )]),
        HashMap::from_iter([
            (
                "/docker-compose.yml".to_string(),
                docker_compose.to_string(),
            ),
            (
                "/package.json".to_string(),
                r#"{ "name": "test", "dependencies": {"pg": "1.0.0"}}"#.to_string(),
            ),
        ]),
    )
}

#[test]
fn test_should_register_component_of_same_tech() {
    let (registry, compiled) = catalog();
    let provider = two_manifest_provider();

    let result = analyser(&registry, &compiled, AnalyserOptions { provider });

    assert_eq!(result.name, "main");
    assert!(result.path.contains(&"/".to_string()));
    assert_eq!(result.childs.len(), 2);

    let pkg = result.childs.iter().find(|c| c.name == "test").unwrap();
    assert!(pkg.dependencies.contains(&vec![
        "npm".to_string(),
        "pg".to_string(),
        "1.0.0".to_string()
    ]));

    let db = result.childs.iter().find(|c| c.name == "db").unwrap();
    assert!(db.dependencies.contains(&vec![
        "docker".to_string(),
        "postgres".to_string(),
        "15.1-alpine".to_string()
    ]));
}

/// Structural equality of two trees, identifiers aside.
fn eq_modulo_ids(a: &Payload, b: &Payload) -> bool {
    a.name == b.name
        && a.path == b.path
        && a.tech == b.tech
        && a.languages == b.languages
        && a.techs == b.techs
        && a.dependencies == b.dependencies
        && a.reason == b.reason
        && a.childs.len() == b.childs.len()
        && a.childs.iter().zip(b.childs.iter()).all(|(x, y)| eq_modulo_ids(x, y))
        && a.edges.len() == b.edges.len()
        && a
            .edges
            .iter()
            .zip(b.edges.iter())
            .all(|(x, y)| x.read == y.read && x.write == y.write && eq_modulo_ids(&x.target, &y.target))
}

#[test]
fn test_detection_is_idempotent() {
    // two runs over the same deterministic provider give structurally
    // equal trees, fresh identifiers aside
    let (registry, compiled) = catalog();

    let first = analyser(
        &registry,
        &compiled,
        AnalyserOptions { provider: two_manifest_provider() },
    );
    let second = analyser(
        &registry,
        &compiled,
        AnalyserOptions { provider: two_manifest_provider() },
    );

    assert!(eq_modulo_ids(&first, &second));
}

#[test]
fn test_languages_counted_in_tree() {
    let (registry, compiled) = catalog();
    let provider = FakeProvider::new(
        HashMap::from_iter([
            (
                "/".to_string(),
                vec!["main.rs".to_string(), "src/".to_string()],
            ),
            (
                "/src/".to_string(),
                vec!["lib.rs".to_string(), "helper.py".to_string()],
            ),
        ]),
        HashMap::new(),
    );

    let result = analyser(&registry, &compiled, AnalyserOptions { provider });

    let rust_count = result.languages.iter().find(|l| l.0 == "Rust").map(|l| l.1);
    assert_eq!(rust_count, Some(2));
    let py_count = result.languages.iter().find(|l| l.0 == "Python").map(|l| l.1);
    assert_eq!(py_count, Some(1));
}

#[test]
fn test_implicit_component_from_dependency() {
    // a package depending on a database client implies the database
    // itself as an implicit child component
    let (registry, compiled) = catalog();
    let provider = FakeProvider::new(
        HashMap::from_iter([(
            "/".to_string(),
            vec!["package.json".to_string()],
        )]),
        HashMap::from_iter([(
            "/package.json".to_string(),
            r#"{ "name": "api", "dependencies": {"pg": "8.0.0"}}"#.to_string(),
        )]),
    );

    let result = analyser(&registry, &compiled, AnalyserOptions { provider });

    let pkg = result.childs.iter().find(|c| c.name == "api").unwrap();
    assert!(pkg.techs.contains(&"postgresql".to_string()));
    let implicit = pkg.childs.iter().find(|c| c.name == "Postgres").unwrap();
    assert_eq!(implicit.tech, Some("postgresql".to_string()));
}

#[test]
fn test_virtual_manifest_merges_into_folder_node() {
    // a bare workspace manifest is a virtual component: its
    // dependencies merge into the folder node and no child is added
    let (registry, compiled) = catalog();
    let provider = FakeProvider::new(
        HashMap::from_iter([(
            "/".to_string(),
            vec!["Cargo.toml".to_string()],
        )]),
        HashMap::from_iter([(
            "/Cargo.toml".to_string(),
            "[workspace.dependencies]\nshared_dep = \"2.0\"\n".to_string(),
        )]),
    );

    let result = analyser(&registry, &compiled, AnalyserOptions { provider });

    assert!(result.childs.is_empty());
    assert!(result.dependencies.contains(&vec![
        "rust".to_string(),
        "shared_dep".to_string(),
        "2.0".to_string()
    ]));
    // the file matcher still attributes the technology to the folder
    assert!(result.techs.contains(&"rust".to_string()));
}
