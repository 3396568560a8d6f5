//! Payload construction, merging, technology and language accounting.

use stackscan::payload::Payload;
use stackscan::register::Registry;

#[test]
fn test_add_edges() {
    let mut payload = Payload::new("service1", "/path1");
    let target = Payload::new("service2", "/path2");

    payload.add_edges(target);

    assert_eq!(payload.edges.len(), 1);
    assert_eq!(payload.edges[0].target.name, "service2");
    assert!(payload.edges[0].read);
    assert!(payload.edges[0].write);
}

#[test]
fn test_add_lang() {
    let registry = Registry::new();
    let mut payload = Payload::new("service1", "/path1");

    payload.add_lang(&registry, "rust", 1);
    payload.add_lang(&registry, "rust", 2);

    assert_eq!(payload.languages.len(), 1);
    assert_eq!(payload.languages[0].0, "rust");
    assert_eq!(payload.languages[0].1, 3);
}

#[test]
fn test_set_parent() {
    let mut payload = Payload::new("child", "/child");
    let parent = Payload::new("parent", "/parent");

    payload.set_parent(Some(parent));

    assert!(payload.parent.is_some());
    assert_eq!(payload.parent.as_ref().unwrap().name, "parent");

    payload.set_parent(None);
    assert!(payload.parent.is_none());
}

#[test]
fn payload_test_detect_lang() {
    let registry = Registry::new();
    let mut payload = Payload::new("service1", "/path1");

    payload.detect_lang(&registry, "main.rs");
    assert!(payload.languages.iter().any(|l| l.0 == "Rust"));

    payload.detect_lang(&registry, "script.py");
    assert!(payload.languages.iter().any(|l| l.0 == "Python"));

    payload.detect_lang(&registry, "unknown.xyz");
    assert_eq!(payload.languages.len(), 2);
}

#[test]
fn test_add_techs() {
    let registry = Registry::new();
    let mut payload = Payload::new("service1", "/path1");
    let tech_map = vec![
        ("rust".to_string(), vec!["Cargo.toml".to_string()]),
        ("docker".to_string(), vec!["Dockerfile".to_string()]),
    ];

    payload.add_techs(&registry, &tech_map);

    assert_eq!(payload.techs.len(), 2);
    assert!(payload.techs.contains(&"rust".to_string()));
    assert!(payload.techs.contains(&"docker".to_string()));
    assert_eq!(payload.reason.len(), 2);
    assert!(payload.reason.contains(&"Cargo.toml".to_string()));
    assert!(payload.reason.contains(&"Dockerfile".to_string()));
}

#[test]
fn test_add_tech() {
    let registry = Registry::new();
    let mut payload = Payload::new("service1", "/path1");
    let reasons = vec!["package.json".to_string()];

    payload.add_tech(&registry, "nodejs", &reasons);

    assert!(payload.techs.contains(&"nodejs".to_string()));
    assert!(payload.reason.contains(&"package.json".to_string()));
}

#[test]
fn test_add_child() {
    let mut parent = Payload::new("parent", "/parent");

    let child1 = Payload::new("service1", "/path1");
    parent.add_child(child1);
    assert_eq!(parent.childs.len(), 1);
    assert_eq!(parent.childs[0].name, "service1");

    let mut child2 = Payload::new("service1", "/path2");
    child2.dependencies.push(vec!["dep1".to_string()]);
    parent.add_child(child2);

    assert_eq!(parent.childs.len(), 1);
    let merged_child = &parent.childs[0];
    assert_eq!(merged_child.name, "service1");
    assert_eq!(merged_child.path.len(), 2);
    assert!(merged_child.path.contains(&"/path1".to_string()));
    assert!(merged_child.path.contains(&"/path2".to_string()));
}

#[test]
fn test_combine_dependencies() {
    let mut payload1 = Payload::new("service1", "/path1");
    let mut payload2 = Payload::new("service2", "/path2");

    payload1.dependencies = vec![
        vec!["dep1".to_string(), "dep2".to_string()],
        vec!["dep3".to_string()],
    ];

    payload2.dependencies = vec![
        vec!["dep1".to_string(), "dep2".to_string()],
        vec!["dep4".to_string()],
    ];

    payload1.combine_dependencies(&payload2);

    assert_eq!(payload1.dependencies.len(), 3);

    let deps: Vec<String> = payload1.dependencies.iter().map(|dep| dep.join("_")).collect();

    assert!(deps.contains(&"dep1_dep2".to_string()));
    assert!(deps.contains(&"dep3".to_string()));
    assert!(deps.contains(&"dep4".to_string()));
}

#[test]
fn test_merge_keeps_dependencies() {
    // whatever triples either side of a merge holds survive it
    let mut parent = Payload::new("parent", "/parent");

    let mut a = Payload::new("svc", "/a");
    a.dependencies.push(vec!["npm".to_string(), "left".to_string(), "1".to_string()]);
    parent.add_child(a);

    let mut b = Payload::new("svc", "/b");
    b.dependencies.push(vec!["npm".to_string(), "right".to_string(), "2".to_string()]);
    parent.add_child(b);

    assert_eq!(parent.childs.len(), 1);
    let merged = &parent.childs[0];
    assert!(merged.dependencies.contains(&vec![
        "npm".to_string(),
        "left".to_string(),
        "1".to_string()
    ]));
    assert!(merged.dependencies.contains(&vec![
        "npm".to_string(),
        "right".to_string(),
        "2".to_string()
    ]));
}

#[test]
fn test_generated_ids_are_uuids() {
    // the generated identifier is a hyphenated UUID: 36 characters
    let payload = Payload::new("service1", "/path1");
    assert_eq!(payload.id.len(), 36);
    assert_eq!(payload.id.chars().filter(|c| *c == '-').count(), 4);
}
