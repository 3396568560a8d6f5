//! Registration, compilation, and the matching engine.

use stackscan::loader::{load_all_rules, load_one, Compiled};
use stackscan::matching::{match_all_files, match_dependencies, match_extensions, match_files, match_files_regex};
use stackscan::provider::{FileType, ProviderFile};
use stackscan::register::{register, CatalogError, Registry};
use stackscan::rules::register_all;
use stackscan::types::{Rule, RuleDependency};

fn simple_rule(name: &str, tech: &str, rule_type: &str) -> Rule {
    Rule {
        name: name.to_string(),
        tech: tech.to_string(),
        rule_type: rule_type.to_string(),
        ..Rule::default()
    }
}

fn file(name: &str, fp: &str) -> ProviderFile {
    ProviderFile { name: name.to_string(), file_type: FileType::File, fp: fp.to_string() }
}

#[test]
fn test_register_success() {
    let mut registry = Registry::new();
    let rule = simple_rule("Test Rule", "test_tech", "test_type");

    let result = register(&mut registry, rule);
    assert!(result.is_ok());
}

#[test]
fn test_register_duplicate() {
    // the first registration of a key wins; the second fails with a
    // registration conflict and leaves the first in place
    let mut registry = Registry::new();
    let rule1 = simple_rule("Test Rule 2", "test_tech_2", "test_type2");
    let rule2 = simple_rule("Test Rule 3", "test_tech_2", "test_type3");

    let result1 = register(&mut registry, rule1);
    assert!(result1.is_ok());

    let result2 = register(&mut registry, rule2);
    assert!(result2.is_err());
    assert!(matches!(
        result2,
        Err(CatalogError::RegistrationConflict { name }) if name == "Test Rule 3"
    ));

    assert_eq!(registry.registered_rules.len(), 1);
    let kept = registry.find_rule("test_tech_2").unwrap();
    assert_eq!(kept.name, "Test Rule 2");
}

#[test]
fn test_register_all() {
    let mut registry = Registry::new();
    let result = register_all(&mut registry);
    assert!(result.is_ok());
    assert_eq!(registry.registered_rules.len(), 7);

    // a second batch conflicts on its first rule
    let again = register_all(&mut registry);
    assert!(again.is_err());
}

#[test]
fn test_unique_batch_registers_each_key_once() {
    // a batch with pairwise distinct keys registers whole, and each
    // key looks up its own rule
    let mut registry = Registry::new();
    assert!(register(&mut registry, simple_rule("First Rule", "tech1", "test_type")).is_ok());
    assert!(register(&mut registry, simple_rule("Second Rule", "tech2", "test_type")).is_ok());

    assert_eq!(registry.registered_rules.len(), 2);
    assert_eq!(registry.find_rule("tech1").unwrap().name, "First Rule");
    assert_eq!(registry.find_rule("tech2").unwrap().name, "Second Rule");
    assert_eq!(registry.find_key_by_name("First Rule").unwrap(), "tech1");
}

#[test]
fn test_load_one_with_dependency() {
    let mut compiled = Compiled::new();
    let rule = Rule {
        name: "test-rule".to_string(),
        tech: "python".to_string(),
        rule_type: "language".to_string(),
        dependencies: Some(vec![RuleDependency {
            name: Some("django".to_string()),
            dep_type: "python".to_string(),
            ..RuleDependency::default()
        }]),
        ..Rule::default()
    };

    assert!(load_one(&mut compiled, &rule).is_ok());

    assert_eq!(compiled.dependencies.len(), 1);
    assert_eq!(compiled.dependencies[0].tech, "python");
    assert_eq!(compiled.dependencies[0].pattern, "^django$");

    // the compiled pattern really matches the declared name, and it alone
    let hit = match_dependencies(&compiled, &vec!["django".to_string()], "python");
    assert_eq!(hit.len(), 1);
    assert_eq!(hit[0].0, "python");
    assert_eq!(hit[0].1, vec!["matched: python".to_string()]);
    let miss = match_dependencies(&compiled, &vec!["django-extra".to_string()], "python");
    assert!(miss.is_empty());
}

#[test]
fn test_load_one_rejects_empty_dependency_name() {
    let mut compiled = Compiled::new();
    let rule = Rule {
        name: "test-rule".to_string(),
        tech: "python".to_string(),
        rule_type: "language".to_string(),
        dependencies: Some(vec![RuleDependency {
            name: Some("".to_string()),
            dep_type: "python".to_string(),
            ..RuleDependency::default()
        }]),
        ..Rule::default()
    };

    let result = load_one(&mut compiled, &rule);
    assert!(matches!(
        result,
        Err(CatalogError::InvalidRuleDefinition { name }) if name == "test-rule"
    ));
    assert_eq!(compiled.dependencies.len(), 0);
}

#[test]
fn test_match_dependencies_basic() {
    let mut compiled = Compiled::new();
    let rule = Rule {
        name: "test-rule".to_string(),
        tech: "test-tech".to_string(),
        rule_type: "language".to_string(),
        dependencies: Some(vec![RuleDependency {
            name: Some("test-dep".to_string()),
            dep_type: "npm".to_string(),
            ..RuleDependency::default()
        }]),
        ..Rule::default()
    };
    assert!(load_one(&mut compiled, &rule).is_ok());

    let pkgs = vec!["test-dep".to_string()];
    let result = match_dependencies(&compiled, &pkgs, "npm");

    assert!(!result.is_empty());
    assert_eq!(result.len(), 1);
    assert!(result.iter().any(|e| e.0 == "test-tech"));
}

#[test]
fn test_match_dependencies_no_matches() {
    let compiled = Compiled::new();
    let pkgs = vec!["non-existent-dep".to_string()];
    let result = match_dependencies(&compiled, &pkgs, "npm");
    assert!(result.is_empty());
}

#[test]
fn test_match_dependencies_multiple_matches() {
    let mut compiled = Compiled::new();
    for (tech, name) in [("tech-1", "dep-1"), ("tech-2", "dep-2")] {
        let rule = Rule {
            name: tech.to_string(),
            tech: tech.to_string(),
            rule_type: "language".to_string(),
            dependencies: Some(vec![RuleDependency {
                name: Some(name.to_string()),
                dep_type: "npm".to_string(),
                ..RuleDependency::default()
            }]),
            ..Rule::default()
        };
        assert!(load_one(&mut compiled, &rule).is_ok());
    }

    let pkgs = vec![
        "dep-1".to_string(),
        "dep-2".to_string(),
        "dep-3".to_string(),
    ];
    let result = match_dependencies(&compiled, &pkgs, "npm");

    assert_eq!(result.len(), 2);
    assert!(result.iter().any(|e| e.0 == "tech-1"));
    assert!(result.iter().any(|e| e.0 == "tech-2"));
}

#[test]
fn test_match_dependencies_invalid_type() {
    let mut compiled = Compiled::new();
    let rule = Rule {
        name: "some-rule".to_string(),
        tech: "some-tech".to_string(),
        rule_type: "language".to_string(),
        dependencies: Some(vec![RuleDependency {
            name: Some("some-dep".to_string()),
            dep_type: "invalid-type".to_string(),
            ..RuleDependency::default()
        }]),
        ..Rule::default()
    };
    assert!(load_one(&mut compiled, &rule).is_ok());

    let pkgs = vec!["some-dep".to_string()];
    let result = match_dependencies(&compiled, &pkgs, "invalid-type");
    assert!(result.is_empty());
}

#[test]
fn test_match_files_found() {
    let mut registry = Registry::new();
    register(&mut registry, simple_rule("Test Tech", "test_tech", "test")).unwrap();
    let files = vec![file("test.js", "path/to/test.js"), file("main.rs", "src/main.rs")];
    let match_names = vec!["test.js".to_string()];

    let result = match_files(&registry, "test_tech", &files, &match_names, false);
    assert!(result.is_some());

    let (rule, matched_file) = result.unwrap();
    assert_eq!(rule.tech, "test_tech");
    assert_eq!(matched_file, "test.js");
}

#[test]
fn test_match_files_not_found() {
    let mut registry = Registry::new();
    register(&mut registry, simple_rule("Test Tech", "test_tech", "test")).unwrap();
    let files = vec![file("test.js", "path/to/test.js")];
    let match_names = vec!["nonexistent.file".to_string()];

    let result = match_files(&registry, "test_tech", &files, &match_names, false);
    assert!(result.is_none());
}

#[test]
fn test_match_files_full_path() {
    let mut registry = Registry::new();
    register(&mut registry, simple_rule("Test Tech", "test_tech", "test")).unwrap();
    let files = vec![file("test.js", "path/to/test.js"), file("main.rs", "src/main.rs")];
    let match_names = vec!["src/main.rs".to_string()];

    let result = match_files(&registry, "test_tech", &files, &match_names, true);
    assert!(result.is_some());

    let (rule, matched_file) = result.unwrap();
    assert_eq!(rule.tech, "test_tech");
    assert_eq!(matched_file, "src/main.rs");
}

#[test]
fn test_match_files_regex() {
    let mut registry = Registry::new();
    register(&mut registry, simple_rule("Test Tech", "test_tech", "test")).unwrap();
    let files = vec![file("test.js", "path/to/test.js"), file("main.rs", "src/main.rs")];
    let pattern = regex::Regex::new(r"test\.js$").unwrap();

    let result = match_files_regex(&registry, "test_tech", &files, &pattern, false);
    assert!(result.is_some());

    let (rule, matched_file) = result.unwrap();
    assert_eq!(rule.tech, "test_tech");
    assert_eq!(matched_file, "test.js");
}

#[test]
fn test_match_extensions() {
    let mut registry = Registry::new();
    register(&mut registry, simple_rule("Test Tech", "test_tech", "test")).unwrap();
    let list = vec!["js".to_string()];
    let extensions = vec!["js".to_string()];

    let result = match_extensions(&registry, "test_tech", &list, &extensions);
    assert!(result.is_some());

    let (rule, matched_ext) = result.unwrap();
    assert_eq!(rule.tech, "test_tech");
    assert_eq!(matched_ext, "js");
}

#[test]
fn test_match_extensions_not_found() {
    let mut registry = Registry::new();
    register(&mut registry, simple_rule("Test Tech", "test_tech", "test")).unwrap();
    let list = vec!["js".to_string()];
    let extensions = vec!["rs".to_string()];

    let result = match_extensions(&registry, "test_tech", &list, &extensions);
    assert!(result.is_none());
}

#[test]
fn test_match_all_files() {
    let mut registry = Registry::new();
    register_all(&mut registry).unwrap();
    let mut compiled = Compiled::new();
    load_all_rules(&mut compiled, &registry.registered_rules).unwrap();

    // empty case
    let res = match_all_files(&registry, &compiled, &vec![], "/");
    assert!(res.is_empty());

    // extension based matching
    let files = vec![file("index.tsx", "/index.tsx")];
    let res = match_all_files(&registry, &compiled, &files, "/");

    let ts = res.iter().find(|e| e.0 == "typescript").unwrap();
    assert_eq!(ts.1, vec!["matched extension: tsx".to_string()]);
    let react = res.iter().find(|e| e.0 == "react").unwrap();
    assert_eq!(react.1, vec!["matched extension: tsx".to_string()]);

    // file based matching
    let files = vec![file("package.json", "/package.json")];
    let res = match_all_files(&registry, &compiled, &files, "/");
    let node = res.iter().find(|e| e.0 == "nodejs").unwrap();
    assert_eq!(node.1, vec!["matched file: package.json".to_string()]);
}

#[test]
fn test_technology_claimed_once_per_directory() {
    // a technology matched by a file rule is not re-added by its
    // extension rule, and the file evidence wins
    let mut registry = Registry::new();
    let rule = Rule {
        name: "Marker".to_string(),
        tech: "marker".to_string(),
        rule_type: "tool".to_string(),
        files: Some(stackscan::types::RuleFiles::FilesArray {
            files: vec!["marker.txt".to_string()],
        }),
        extensions: Some(vec!["zz".to_string()]),
        ..Rule::default()
    };
    register(&mut registry, rule.duplicate()).unwrap();
    let mut compiled = Compiled::new();
    load_one(&mut compiled, &rule).unwrap();

    let files = vec![file("marker.txt", "/marker.txt"), file("thing.zz", "/thing.zz")];
    let res = match_all_files(&registry, &compiled, &files, "/");

    let hits: Vec<_> = res.iter().filter(|e| e.0 == "marker").collect();
    assert_eq!(hits.len(), 1);
    assert_eq!(hits[0].1, vec!["matched file: marker.txt".to_string()]);
}
