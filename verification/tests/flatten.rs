//! The flat summary view: deduplication and edge inference.

use stackscan::helpers::{find_edges_in_dependencies, find_hosting, find_implicit_component, flatten};
use stackscan::payload::Payload;
use stackscan::register::{register, Registry};
use stackscan::types::Rule;

fn named(name: &str, path: &str, tech: Option<&str>) -> Payload {
    let mut pl = Payload::new(name, path);
    pl.tech = tech.map(|t| t.to_string());
    pl
}

#[test]
fn test_flatten_lists_descendants() {
    let mut root = Payload::new("root", "/");
    let mut a = named("a", "/a", None);
    let b = named("b", "/a/b", None);
    a.add_child(b);
    root.add_child(a);

    let flat = flatten(&root, false);

    assert_eq!(flat.name, "flatten");
    assert_eq!(flat.childs.len(), 2);
    // descendants come before their parent, and none keeps children
    assert_eq!(flat.childs[0].name, "b");
    assert_eq!(flat.childs[1].name, "a");
    assert!(flat.childs.iter().all(|c| c.childs.is_empty()));
}

#[test]
fn test_flatten_dedups_same_tech() {
    // two entries carrying the same technology collapse to the first;
    // entries sharing only a name, without any technology, stay apart
    let mut root = Payload::new("root", "/");
    root.add_child(named("db-one", "/x", Some("postgresql")));
    let mut holder = named("holder", "/y", None);
    holder.add_child(named("db-two", "/y/db", Some("postgresql")));
    root.add_child(holder);

    let flat = flatten(&root, false);

    let pg: Vec<_> = flat
        .childs
        .iter()
        .filter(|c| c.tech == Some("postgresql".to_string()))
        .collect();
    assert_eq!(pg.len(), 1);
    assert_eq!(pg[0].name, "db-one");

    // the total technology count never grows under flattening
    fn tree_techs(p: &Payload) -> usize {
        p.techs.len() + p.childs.iter().map(tree_techs).sum::<usize>()
    }
    let flat_techs: usize = flat.childs.iter().map(|c| c.techs.len()).sum();
    assert!(flat_techs <= tree_techs(&root));
}

#[test]
fn test_edge_inference_connects_by_dependency_name() {
    let mut root = Payload::new("root", "/");
    let mut s1 = named("service1", "/s1", None);
    s1.dependencies.push(vec![
        "npm".to_string(),
        "service2".to_string(),
        "1.0.0".to_string(),
    ]);
    root.add_child(s1);
    root.add_child(named("service2", "/s2", None));

    find_edges_in_dependencies(&mut root);

    let owner = root.childs.iter().find(|c| c.name == "service1").unwrap();
    assert_eq!(owner.edges.len(), 1);
    assert_eq!(owner.edges[0].target.name, "service2");
    assert!(owner.edges[0].read && owner.edges[0].write);
    // never a self-loop
    assert_ne!(owner.edges[0].target.id, owner.id);

    let other = root.childs.iter().find(|c| c.name == "service2").unwrap();
    assert!(other.edges.is_empty());
}

#[test]
fn test_edge_inference_skips_self_reference() {
    let mut root = Payload::new("root", "/");
    let mut s1 = named("service1", "/s1", Some("sometech"));
    s1.dependencies.push(vec![
        "npm".to_string(),
        "service1".to_string(),
        "1.0.0".to_string(),
    ]);
    s1.dependencies.push(vec![
        "npm".to_string(),
        "sometech".to_string(),
        "1.0.0".to_string(),
    ]);
    root.add_child(s1);
    root.add_child(named("sometech", "/st", None));

    find_edges_in_dependencies(&mut root);

    let owner = root.childs.iter().find(|c| c.name == "service1").unwrap();
    assert!(owner.edges.is_empty());
}

#[test]
fn test_find_implicit_component() {
    let mut registry = Registry::new();
    register(
        &mut registry,
        Rule {
            tech: "postgresql".to_string(),
            name: "Postgres".to_string(),
            rule_type: "db".to_string(),
            ..Rule::default()
        },
    )
    .unwrap();
    register(
        &mut registry,
        Rule {
            tech: "rust".to_string(),
            name: "Rust".to_string(),
            rule_type: "language".to_string(),
            ..Rule::default()
        },
    )
    .unwrap();

    let mut pl = Payload::new("svc", "/svc");
    let reasons = vec!["matched: postgresql".to_string()];

    // a component-like rule derives an implicit child
    find_implicit_component(&mut pl, &registry, "postgresql", &reasons);
    assert_eq!(pl.childs.len(), 1);
    assert_eq!(pl.childs[0].name, "Postgres");
    assert_eq!(pl.childs[0].tech, Some("postgresql".to_string()));

    // a structural rule type derives none
    find_implicit_component(&mut pl, &registry, "rust", &reasons);
    assert_eq!(pl.childs.len(), 1);

    // an unknown technology derives none
    find_implicit_component(&mut pl, &registry, "unknown", &reasons);
    assert_eq!(pl.childs.len(), 1);
}

#[test]
fn test_find_hosting() {
    let mut registry = Registry::new();
    register(
        &mut registry,
        Rule {
            tech: "vercel".to_string(),
            name: "Vercel".to_string(),
            rule_type: "hosting".to_string(),
            ..Rule::default()
        },
    )
    .unwrap();

    let mut pl = Payload::new("svc", "/svc");
    assert_eq!(find_hosting(&pl, &registry, "vercel"), None);

    pl.add_child(named("Vercel", "/svc", Some("vercel")));
    assert_eq!(find_hosting(&pl, &registry, "vercel"), Some(0));

    assert_eq!(find_hosting(&pl, &registry, "unknown"), None);
}
