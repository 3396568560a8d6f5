//! The built-in rule catalog: one registration function per
//! technology, and one that registers them all.

use vstd::prelude::*;

use crate::register::{register, CatalogError, Registry};
use crate::types::{ComponentMatcher, Rule, RuleDependency, RuleFiles};

verus! {

/// A dependency pattern without an example.
fn dep(eco: &str, name: &str) -> (r: RuleDependency)
    ensures
        r.dep_type@ == eco@,
        r.name matches Some(n) && n@ == name@,
        r.example is None,
{
    RuleDependency {
        dep_type: String::from_str(eco),
        name: Some(String::from_str(name)),
        example: None,
    }
}

/// A dependency pattern with an example declaration.
fn dep_ex(eco: &str, name: &str, example: &str) -> (r: RuleDependency)
    ensures
        r.dep_type@ == eco@,
        r.name matches Some(n) && n@ == name@,
        r.example matches Some(e) && e@ == example@,
{
    RuleDependency {
        dep_type: String::from_str(eco),
        name: Some(String::from_str(name)),
        example: Some(String::from_str(example)),
    }
}

/// Whether no registered rule claims `tech` yet.
pub open spec fn tech_free(registry: Registry, tech: Seq<char>) -> bool {
    forall|i: int|
        0 <= i < registry.registered_rules@.len() ==> (
        #[trigger] registry.registered_rules@[i]).tech@ != tech
}

/// One registration succeeded: the catalog grew by exactly this rule.
pub open spec fn registered_one(
    old_reg: Registry,
    new_reg: Registry,
    tech: Seq<char>,
    name: Seq<char>,
    rule_type: Seq<char>,
) -> bool {
    &&& new_reg.registered_rules@.len() == old_reg.registered_rules@.len() + 1
    &&& forall|i: int|
        0 <= i < old_reg.registered_rules@.len() ==> #[trigger] new_reg.registered_rules@[i]
            == old_reg.registered_rules@[i]
    &&& new_reg.registered_rules@.last().tech@ == tech
    &&& new_reg.registered_rules@.last().name@ == name
    &&& new_reg.registered_rules@.last().rule_type@ == rule_type
}

/// One dependency declaration with this ecosystem and name.
pub open spec fn dep_decl_is(d: RuleDependency, eco: Seq<char>, name: Seq<char>) -> bool {
    &&& d.dep_type@ == eco
    &&& d.name matches Some(n) && n@ == name
}

/// The analytics rule's matcher data.
pub open spec fn amplitude_rule_data(r: Rule) -> bool {
    &&& r.dependencies matches Some(d) && d@.len() == 3 && dep_decl_is(
        d@[0],
        "npm"@,
        "amplitude-js"@,
    ) && dep_decl_is(d@[1], "npm"@, "@amplitude/analytics-browser"@) && dep_decl_is(
        d@[2],
        "php"@,
        "zumba/amplitude-php"@,
    )
    &&& r.detect is None
    &&& r.extensions is None
    &&& r.files is None
}

/// The UI framework rule's matcher data.
pub open spec fn react_rule_data(r: Rule) -> bool {
    &&& r.dependencies matches Some(d) && d@.len() == 1 && dep_decl_is(d@[0], "npm"@, "react"@)
    &&& r.extensions matches Some(e) && crate::strutil::str_views(e@) == seq!["tsx"@, "jsx"@]
    &&& r.detect is None
    &&& r.files is None
}

/// The typed-superset rule's matcher data.
pub open spec fn typescript_rule_data(r: Rule) -> bool {
    &&& r.dependencies matches Some(d) && d@.len() == 1 && dep_decl_is(
        d@[0],
        "npm"@,
        "typescript"@,
    )
    &&& r.extensions matches Some(e) && crate::strutil::str_views(e@) == seq!["ts"@, "tsx"@]
    &&& r.detect is None
    &&& r.files is None
}

/// The server-side runtime rule's matcher data.
pub open spec fn nodejs_rule_data(r: Rule) -> bool {
    &&& r.files matches Some(f) && f matches RuleFiles::FilesArray { files }
        && crate::strutil::str_views(files@) == seq!["package.json"@, ".nvmrc"@]
    &&& r.dependencies matches Some(d) && d@.len() == 6 && dep_decl_is(
        d@[0],
        "docker"@,
        "nodejs"@,
    ) && dep_decl_is(d@[1], "docker"@, "node"@) && dep_decl_is(d@[2], "docker"@, "circleci/node"@)
        && dep_decl_is(d@[3], "docker"@, "cimg/node"@) && dep_decl_is(
        d@[4],
        "docker"@,
        "bitnami/node"@,
    ) && dep_decl_is(d@[5], "docker"@, "okteto/node"@)
    &&& r.detect matches Some(det) && det@ == seq![ComponentMatcher::Nodejs]
    &&& r.extensions is None
}

/// The systems language rule's matcher data.
pub open spec fn rust_rule_data(r: Rule) -> bool {
    &&& r.files matches Some(f) && f matches RuleFiles::FilesArray { files }
        && crate::strutil::str_views(files@) == seq!["Cargo.toml"@]
    &&& r.dependencies matches Some(d) && d@.len() == 4 && dep_decl_is(d@[0], "docker"@, "rust"@)
        && dep_decl_is(d@[1], "docker"@, "cimg/rust"@) && dep_decl_is(
        d@[2],
        "docker"@,
        "circleci/rust"@,
    ) && dep_decl_is(d@[3], "docker"@, "rustlang/rust"@)
    &&& r.detect matches Some(det) && det@ == seq![ComponentMatcher::Rust]
    &&& r.extensions is None
}

/// The database rule's matcher data.
pub open spec fn postgres_rule_data(r: Rule) -> bool {
    &&& r.dependencies matches Some(d) && d@.len() == 16 && dep_decl_is(d@[0], "npm"@, "pg"@)
        && dep_decl_is(d@[1], "npm"@, "postgres"@) && dep_decl_is(
        d@[2],
        "npm"@,
        "postgres-interval"@,
    ) && dep_decl_is(d@[3], "npm"@, "@opentelemetry/instrumentation-pg"@) && dep_decl_is(
        d@[4],
        "npm"@,
        "@mikro-orm/postgresql"@,
    ) && dep_decl_is(d@[5], "npm"@, "pg-connection-string"@) && dep_decl_is(
        d@[6],
        "docker"@,
        "postgres"@,
    ) && dep_decl_is(d@[7], "docker"@, "bitnami/postgresql"@) && dep_decl_is(
        d@[8],
        "docker"@,
        "circleci/postgres"@,
    ) && dep_decl_is(d@[9], "docker"@, "cimg/postgres"@) && dep_decl_is(
        d@[10],
        "docker"@,
        "ubuntu/postgres"@,
    ) && dep_decl_is(d@[11], "docker"@, "bitnamicharts/postgresql"@) && dep_decl_is(
        d@[12],
        "rust"@,
        "postgres"@,
    ) && dep_decl_is(d@[13], "ruby"@, "pg"@) && dep_decl_is(d@[14], "deno"@, "/x/postgres@/"@)
        && dep_decl_is(d@[15], "php"@, "martin-georgiev/postgresql-for-doctrine"@)
    &&& r.detect is None
    &&& r.extensions is None
    &&& r.files is None
}

/// The container tool rule's matcher data.
pub open spec fn docker_rule_data(r: Rule) -> bool {
    &&& r.files matches Some(f) && f matches RuleFiles::FilesArray { files }
        && crate::strutil::str_views(files@) == seq![
        ".dockerignore"@,
        "Dockerfile"@,
        "docker-compose.yml"@,
        "docker-compose.yaml"@,
    ]
    &&& r.dependencies matches Some(d) && d@.len() == 1 && dep_decl_is(
        d@[0],
        "githubAction"@,
        "docker/login-action"@,
    )
    &&& r.detect matches Some(det) && det@ == seq![ComponentMatcher::Docker]
    &&& r.extensions is None
}

/// Register the analytics platform rule: known by its client packages.
pub fn register_amplitude(registry: &mut Registry) -> (r: Result<(), CatalogError>)
    requires
        old(registry).wf(),
    ensures
        final(registry).wf(),
        r is Ok <==> tech_free(*old(registry), "amplitude"@),
        r is Ok ==> registered_one(
            *old(registry),
            *final(registry),
            "amplitude"@,
            "Amplitude Analytics"@,
            "analytics"@,
        ),
        r is Ok ==> amplitude_rule_data(final(registry).registered_rules@.last()),
        r is Err ==> *final(registry) == *old(registry),
{
    let mut dependencies: Vec<RuleDependency> = Vec::new();
    dependencies.push(dep("npm", "amplitude-js"));
    dependencies.push(dep("npm", "@amplitude/analytics-browser"));
    dependencies.push(dep("php", "zumba/amplitude-php"));
    let rule = Rule {
        tech: String::from_str("amplitude"),
        name: String::from_str("Amplitude Analytics"),
        rule_type: String::from_str("analytics"),
        dependencies: Some(dependencies),
        ..Rule::default()
    };
    proof {
        assert(amplitude_rule_data(rule));
    }
    register(registry, rule)
}

/// Register the UI framework rule: known by its package and its
/// component-file extensions.
pub fn register_react(registry: &mut Registry) -> (r: Result<(), CatalogError>)
    requires
        old(registry).wf(),
    ensures
        final(registry).wf(),
        r is Ok <==> tech_free(*old(registry), "react"@),
        r is Ok ==> registered_one(
            *old(registry),
            *final(registry),
            "react"@,
            "React"@,
            "language"@,
        ),
        r is Ok ==> react_rule_data(final(registry).registered_rules@.last()),
        r is Err ==> *final(registry) == *old(registry),
{
    let mut dependencies: Vec<RuleDependency> = Vec::new();
    dependencies.push(dep("npm", "react"));
    let mut extensions: Vec<String> = Vec::new();
    extensions.push(String::from_str("tsx"));
    extensions.push(String::from_str("jsx"));
    let rule = Rule {
        tech: String::from_str("react"),
        name: String::from_str("React"),
        rule_type: String::from_str("language"),
        dependencies: Some(dependencies),
        extensions: Some(extensions),
        ..Rule::default()
    };
    proof {
        assert(crate::strutil::str_views(extensions@) =~= seq!["tsx"@, "jsx"@]);
        assert(react_rule_data(rule));
    }
    register(registry, rule)
}

/// Register the typed-superset language rule.
pub fn register_typescript(registry: &mut Registry) -> (r: Result<(), CatalogError>)
    requires
        old(registry).wf(),
    ensures
        final(registry).wf(),
        r is Ok <==> tech_free(*old(registry), "typescript"@),
        r is Ok ==> registered_one(
            *old(registry),
            *final(registry),
            "typescript"@,
            "Typescript"@,
            "language"@,
        ),
        r is Ok ==> typescript_rule_data(final(registry).registered_rules@.last()),
        r is Err ==> *final(registry) == *old(registry),
{
    let mut dependencies: Vec<RuleDependency> = Vec::new();
    dependencies.push(dep("npm", "typescript"));
    let mut extensions: Vec<String> = Vec::new();
    extensions.push(String::from_str("ts"));
    extensions.push(String::from_str("tsx"));
    let rule = Rule {
        tech: String::from_str("typescript"),
        name: String::from_str("Typescript"),
        rule_type: String::from_str("language"),
        dependencies: Some(dependencies),
        extensions: Some(extensions),
        example: Some(String::from_str("tsconfig.json")),
        ..Rule::default()
    };
    proof {
        assert(crate::strutil::str_views(extensions@) =~= seq!["ts"@, "tsx"@]);
        assert(typescript_rule_data(rule));
    }
    register(registry, rule)
}

/// Register the server-side runtime rule: known by its manifest files
/// and base images, and the source of the package-manifest detector.
pub fn register_nodejs(registry: &mut Registry) -> (r: Result<(), CatalogError>)
    requires
        old(registry).wf(),
    ensures
        final(registry).wf(),
        r is Ok <==> tech_free(*old(registry), "nodejs"@),
        r is Ok ==> registered_one(
            *old(registry),
            *final(registry),
            "nodejs"@,
            "NodeJS"@,
            "language"@,
        ),
        r is Ok ==> nodejs_rule_data(final(registry).registered_rules@.last()),
        r is Err ==> *final(registry) == *old(registry),
{
    let mut files: Vec<String> = Vec::new();
    files.push(String::from_str("package.json"));
    files.push(String::from_str(".nvmrc"));
    let mut dependencies: Vec<RuleDependency> = Vec::new();
    dependencies.push(dep_ex("docker", "nodejs", "nodejs:0.0.0"));
    dependencies.push(dep("docker", "node"));
    dependencies.push(dep("docker", "circleci/node"));
    dependencies.push(dep("docker", "cimg/node"));
    dependencies.push(dep("docker", "bitnami/node"));
    dependencies.push(dep("docker", "okteto/node"));
    let mut detect: Vec<ComponentMatcher> = Vec::new();
    detect.push(ComponentMatcher::Nodejs);
    let rule = Rule {
        tech: String::from_str("nodejs"),
        name: String::from_str("NodeJS"),
        rule_type: String::from_str("language"),
        files: Some(RuleFiles::FilesArray { files }),
        dependencies: Some(dependencies),
        detect: Some(detect),
        ..Rule::default()
    };
    proof {
        assert(crate::strutil::str_views(files@) =~= seq!["package.json"@, ".nvmrc"@]);
        assert(detect@ =~= seq![ComponentMatcher::Nodejs]);
        assert(nodejs_rule_data(rule));
    }
    register(registry, rule)
}

/// Register the systems language rule: known by its build manifest
/// and base images, and the source of the build-manifest detector.
pub fn register_rust(registry: &mut Registry) -> (r: Result<(), CatalogError>)
    requires
        old(registry).wf(),
    ensures
        final(registry).wf(),
        r is Ok <==> tech_free(*old(registry), "rust"@),
        r is Ok ==> registered_one(
            *old(registry),
            *final(registry),
            "rust"@,
            "Rust"@,
            "language"@,
        ),
        r is Ok ==> rust_rule_data(final(registry).registered_rules@.last()),
        r is Err ==> *final(registry) == *old(registry),
{
    let mut files: Vec<String> = Vec::new();
    files.push(String::from_str("Cargo.toml"));
    let mut dependencies: Vec<RuleDependency> = Vec::new();
    dependencies.push(dep("docker", "rust"));
    dependencies.push(dep("docker", "cimg/rust"));
    dependencies.push(dep("docker", "circleci/rust"));
    dependencies.push(dep("docker", "rustlang/rust"));
    let mut detect: Vec<ComponentMatcher> = Vec::new();
    detect.push(ComponentMatcher::Rust);
    let rule = Rule {
        tech: String::from_str("rust"),
        name: String::from_str("Rust"),
        rule_type: String::from_str("language"),
        files: Some(RuleFiles::FilesArray { files }),
        dependencies: Some(dependencies),
        detect: Some(detect),
        ..Rule::default()
    };
    proof {
        assert(crate::strutil::str_views(files@) =~= seq!["Cargo.toml"@]);
        assert(detect@ =~= seq![ComponentMatcher::Rust]);
        assert(rust_rule_data(rule));
    }
    register(registry, rule)
}

/// Register the database rule: known by its client packages across
/// ecosystems and by its container images.
pub fn register_postgres(registry: &mut Registry) -> (r: Result<(), CatalogError>)
    requires
        old(registry).wf(),
    ensures
        final(registry).wf(),
        r is Ok <==> tech_free(*old(registry), "postgresql"@),
        r is Ok ==> registered_one(
            *old(registry),
            *final(registry),
            "postgresql"@,
            "Postgres"@,
            "db"@,
        ),
        r is Ok ==> postgres_rule_data(final(registry).registered_rules@.last()),
        r is Err ==> *final(registry) == *old(registry),
{
    let mut dependencies: Vec<RuleDependency> = Vec::new();
    dependencies.push(dep("npm", "pg"));
    dependencies.push(dep("npm", "postgres"));
    dependencies.push(dep("npm", "postgres-interval"));
    dependencies.push(dep("npm", "@opentelemetry/instrumentation-pg"));
    dependencies.push(dep("npm", "@mikro-orm/postgresql"));
    dependencies.push(dep("npm", "pg-connection-string"));
    dependencies.push(dep("docker", "postgres"));
    dependencies.push(dep("docker", "bitnami/postgresql"));
    dependencies.push(dep("docker", "circleci/postgres"));
    dependencies.push(dep("docker", "cimg/postgres"));
    dependencies.push(dep("docker", "ubuntu/postgres"));
    dependencies.push(dep("docker", "bitnamicharts/postgresql"));
    dependencies.push(dep("rust", "postgres"));
    dependencies.push(dep("ruby", "pg"));
    dependencies.push(dep_ex("deno", "/x/postgres@/", "https://deno.land/x/postgres@v0.17.0/mod.ts"));
    dependencies.push(dep("php", "martin-georgiev/postgresql-for-doctrine"));
    let rule = Rule {
        tech: String::from_str("postgresql"),
        name: String::from_str("Postgres"),
        rule_type: String::from_str("db"),
        dependencies: Some(dependencies),
        ..Rule::default()
    };
    proof {
        assert(postgres_rule_data(rule));
    }
    register(registry, rule)
}

/// Register the container tool rule: known by its build and compose
/// files, and the source of the multi-service detector.
pub fn register_docker(registry: &mut Registry) -> (r: Result<(), CatalogError>)
    requires
        old(registry).wf(),
    ensures
        final(registry).wf(),
        r is Ok <==> tech_free(*old(registry), "docker"@),
        r is Ok ==> registered_one(
            *old(registry),
            *final(registry),
            "docker"@,
            "Docker"@,
            "tool"@,
        ),
        r is Ok ==> docker_rule_data(final(registry).registered_rules@.last()),
        r is Err ==> *final(registry) == *old(registry),
{
    let mut files: Vec<String> = Vec::new();
    files.push(String::from_str(".dockerignore"));
    files.push(String::from_str("Dockerfile"));
    files.push(String::from_str("docker-compose.yml"));
    files.push(String::from_str("docker-compose.yaml"));
    let mut dependencies: Vec<RuleDependency> = Vec::new();
    dependencies.push(dep("githubAction", "docker/login-action"));
    let mut detect: Vec<ComponentMatcher> = Vec::new();
    detect.push(ComponentMatcher::Docker);
    let rule = Rule {
        tech: String::from_str("docker"),
        name: String::from_str("Docker"),
        rule_type: String::from_str("tool"),
        files: Some(RuleFiles::FilesArray { files }),
        dependencies: Some(dependencies),
        detect: Some(detect),
        ..Rule::default()
    };
    proof {
        assert(crate::strutil::str_views(files@) =~= seq![
            ".dockerignore"@,
            "Dockerfile"@,
            "docker-compose.yml"@,
            "docker-compose.yaml"@,
        ]);
        assert(detect@ =~= seq![ComponentMatcher::Docker]);
        assert(docker_rule_data(rule));
    }
    register(registry, rule)
}

/// Whether every built-in technology key is still free.
pub open spec fn builtin_keys_free(registry: Registry) -> bool {
    &&& tech_free(registry, "amplitude"@)
    &&& tech_free(registry, "react"@)
    &&& tech_free(registry, "typescript"@)
    &&& tech_free(registry, "nodejs"@)
    &&& tech_free(registry, "rust"@)
    &&& tech_free(registry, "postgresql"@)
    &&& tech_free(registry, "docker"@)
}

/// The seven built-in rules stand at the end of the catalog, in
/// registration order.
pub open spec fn builtin_rules_registered(old_reg: Registry, new_reg: Registry) -> bool {
    let b = old_reg.registered_rules@.len() as int;
    &&& new_reg.registered_rules@.len() == b + 7
    &&& forall|i: int|
        0 <= i < b ==> #[trigger] new_reg.registered_rules@[i] == old_reg.registered_rules@[i]
    &&& new_reg.registered_rules@[b].tech@ == "amplitude"@
    &&& new_reg.registered_rules@[b].name@ == "Amplitude Analytics"@
    &&& new_reg.registered_rules@[b].rule_type@ == "analytics"@
    &&& new_reg.registered_rules@[b + 1].tech@ == "react"@
    &&& new_reg.registered_rules@[b + 1].name@ == "React"@
    &&& new_reg.registered_rules@[b + 1].rule_type@ == "language"@
    &&& new_reg.registered_rules@[b + 2].tech@ == "typescript"@
    &&& new_reg.registered_rules@[b + 2].name@ == "Typescript"@
    &&& new_reg.registered_rules@[b + 2].rule_type@ == "language"@
    &&& new_reg.registered_rules@[b + 3].tech@ == "nodejs"@
    &&& new_reg.registered_rules@[b + 3].name@ == "NodeJS"@
    &&& new_reg.registered_rules@[b + 3].rule_type@ == "language"@
    &&& new_reg.registered_rules@[b + 4].tech@ == "rust"@
    &&& new_reg.registered_rules@[b + 4].name@ == "Rust"@
    &&& new_reg.registered_rules@[b + 4].rule_type@ == "language"@
    &&& new_reg.registered_rules@[b + 5].tech@ == "postgresql"@
    &&& new_reg.registered_rules@[b + 5].name@ == "Postgres"@
    &&& new_reg.registered_rules@[b + 5].rule_type@ == "db"@
    &&& new_reg.registered_rules@[b + 6].tech@ == "docker"@
    &&& new_reg.registered_rules@[b + 6].name@ == "Docker"@
    &&& new_reg.registered_rules@[b + 6].rule_type@ == "tool"@
}

/// Register every built-in rule; the first conflict aborts the batch,
/// leaving what was already registered in place.
pub fn register_all(registry: &mut Registry) -> (r: Result<(), CatalogError>)
    requires
        old(registry).wf(),
    ensures
        final(registry).wf(),
        r is Ok <==> builtin_keys_free(*old(registry)),
        r is Ok ==> builtin_rules_registered(*old(registry), *final(registry)),
{
    let ghost b = old(registry).registered_rules@.len() as int;
    match register_amplitude(registry) {
        Ok(()) => {
            proof {
                assert forall|i: int| 0 <= i < b implies #[trigger] registry.registered_rules@[i]
                    == old(registry).registered_rules@[i] by {}
                assert(registry.registered_rules@.len() == b + 1);
                assert(registry.registered_rules@[b + 0].tech@ == "amplitude"@);
                assert(registry.registered_rules@[b + 0].name@ == "Amplitude Analytics"@);
                assert(registry.registered_rules@[b + 0].rule_type@ == "analytics"@);
            }
        },
        Err(e) => {
            proof {
                assert(!tech_free(*old(registry), "amplitude"@));
            }
            return Err(e);
        },
    }
    let ghost pre1 = *registry;
    match register_react(registry) {
        Ok(()) => {
            proof {
                assert forall|i: int| 0 <= i < b implies #[trigger] registry.registered_rules@[i]
                    == old(registry).registered_rules@[i] by {}
                assert(registry.registered_rules@.len() == b + 2);
                assert(tech_free(pre1, "react"@));
                assert forall|i: int|
                    0 <= i < b implies (#[trigger] old(registry).registered_rules@[i]).tech@
                    != "react"@ by {
                    assert(pre1.registered_rules@[i] == old(registry).registered_rules@[i]);
                    assert(pre1.registered_rules@[i].tech@ != "react"@);
                }
                assert(tech_free(*old(registry), "react"@));
                assert(registry.registered_rules@[b + 0].tech@ == "amplitude"@);
                assert(registry.registered_rules@[b + 0].name@ == "Amplitude Analytics"@);
                assert(registry.registered_rules@[b + 0].rule_type@ == "analytics"@);
                assert(registry.registered_rules@[b + 1].tech@ == "react"@);
                assert(registry.registered_rules@[b + 1].name@ == "React"@);
                assert(registry.registered_rules@[b + 1].rule_type@ == "language"@);
            }
        },
        Err(e) => {
            proof {
                reveal_strlit("amplitude");
                reveal_strlit("react");
                assert(registry.registered_rules@.len() == b + 1);
                assert forall|i: int|
                    b <= i < registry.registered_rules@.len() implies (
                #[trigger] registry.registered_rules@[i]).tech@ != "react"@ by {
                    reveal_strlit("amplitude");
                    reveal_strlit("react");
                    assert("amplitude"@.len() == 9);
                    assert("react"@.len() == 5);
                    assert("amplitude"@ != "react"@);
                    if i == b + 0 {
                        assert(registry.registered_rules@[i].tech@ == "amplitude"@);
                    }
                }
                lemma_tech_free_back(*old(registry), *registry, "react"@);
            }
            return Err(e);
        },
    }
    let ghost pre2 = *registry;
    match register_typescript(registry) {
        Ok(()) => {
            proof {
                assert forall|i: int| 0 <= i < b implies #[trigger] registry.registered_rules@[i]
                    == old(registry).registered_rules@[i] by {}
                assert(registry.registered_rules@.len() == b + 3);
                assert(tech_free(pre2, "typescript"@));
                assert forall|i: int|
                    0 <= i < b implies (#[trigger] old(registry).registered_rules@[i]).tech@
                    != "typescript"@ by {
                    assert(pre2.registered_rules@[i] == old(registry).registered_rules@[i]);
                    assert(pre2.registered_rules@[i].tech@ != "typescript"@);
                }
                assert(tech_free(*old(registry), "typescript"@));
                assert(registry.registered_rules@[b + 0].tech@ == "amplitude"@);
                assert(registry.registered_rules@[b + 0].name@ == "Amplitude Analytics"@);
                assert(registry.registered_rules@[b + 0].rule_type@ == "analytics"@);
                assert(registry.registered_rules@[b + 1].tech@ == "react"@);
                assert(registry.registered_rules@[b + 1].name@ == "React"@);
                assert(registry.registered_rules@[b + 1].rule_type@ == "language"@);
                assert(registry.registered_rules@[b + 2].tech@ == "typescript"@);
                assert(registry.registered_rules@[b + 2].name@ == "Typescript"@);
                assert(registry.registered_rules@[b + 2].rule_type@ == "language"@);
            }
        },
        Err(e) => {
            proof {
                reveal_strlit("amplitude");
                reveal_strlit("react");
                reveal_strlit("typescript");
                assert(registry.registered_rules@.len() == b + 2);
                assert(tech_free(pre1, "react"@));
                assert forall|i: int|
                    0 <= i < b implies (#[trigger] old(registry).registered_rules@[i]).tech@
                    != "react"@ by {
                    assert(pre1.registered_rules@[i] == old(registry).registered_rules@[i]);
                    assert(pre1.registered_rules@[i].tech@ != "react"@);
                }
                assert(tech_free(*old(registry), "react"@));
                assert forall|i: int|
                    b <= i < registry.registered_rules@.len() implies (
                #[trigger] registry.registered_rules@[i]).tech@ != "typescript"@ by {
                    reveal_strlit("amplitude");
                    reveal_strlit("react");
                    reveal_strlit("typescript");
                    assert("amplitude"@.len() == 9);
                    assert("react"@.len() == 5);
                    assert("typescript"@.len() == 10);
                    assert("amplitude"@ != "typescript"@);
                    assert("react"@ != "typescript"@);
                    if i == b + 0 {
                        assert(registry.registered_rules@[i].tech@ == "amplitude"@);
                    }
                    if i == b + 1 {
                        assert(registry.registered_rules@[i].tech@ == "react"@);
                    }
                }
                lemma_tech_free_back(*old(registry), *registry, "typescript"@);
            }
            return Err(e);
        },
    }
    let ghost pre3 = *registry;
    match register_nodejs(registry) {
        Ok(()) => {
            proof {
                assert forall|i: int| 0 <= i < b implies #[trigger] registry.registered_rules@[i]
                    == old(registry).registered_rules@[i] by {}
                assert(registry.registered_rules@.len() == b + 4);
                assert(tech_free(pre3, "nodejs"@));
                assert forall|i: int|
                    0 <= i < b implies (#[trigger] old(registry).registered_rules@[i]).tech@
                    != "nodejs"@ by {
                    assert(pre3.registered_rules@[i] == old(registry).registered_rules@[i]);
                    assert(pre3.registered_rules@[i].tech@ != "nodejs"@);
                }
                assert(tech_free(*old(registry), "nodejs"@));
                assert(registry.registered_rules@[b + 0].tech@ == "amplitude"@);
                assert(registry.registered_rules@[b + 0].name@ == "Amplitude Analytics"@);
                assert(registry.registered_rules@[b + 0].rule_type@ == "analytics"@);
                assert(registry.registered_rules@[b + 1].tech@ == "react"@);
                assert(registry.registered_rules@[b + 1].name@ == "React"@);
                assert(registry.registered_rules@[b + 1].rule_type@ == "language"@);
                assert(registry.registered_rules@[b + 2].tech@ == "typescript"@);
                assert(registry.registered_rules@[b + 2].name@ == "Typescript"@);
                assert(registry.registered_rules@[b + 2].rule_type@ == "language"@);
                assert(registry.registered_rules@[b + 3].tech@ == "nodejs"@);
                assert(registry.registered_rules@[b + 3].name@ == "NodeJS"@);
                assert(registry.registered_rules@[b + 3].rule_type@ == "language"@);
            }
        },
        Err(e) => {
            proof {
                reveal_strlit("amplitude");
                reveal_strlit("react");
                reveal_strlit("typescript");
                reveal_strlit("nodejs");
                assert(registry.registered_rules@.len() == b + 3);
                assert(tech_free(pre2, "typescript"@));
                assert forall|i: int|
                    0 <= i < b implies (#[trigger] old(registry).registered_rules@[i]).tech@
                    != "typescript"@ by {
                    assert(pre2.registered_rules@[i] == old(registry).registered_rules@[i]);
                    assert(pre2.registered_rules@[i].tech@ != "typescript"@);
                }
                assert(tech_free(*old(registry), "typescript"@));
                assert forall|i: int|
                    b <= i < registry.registered_rules@.len() implies (
                #[trigger] registry.registered_rules@[i]).tech@ != "nodejs"@ by {
                    reveal_strlit("amplitude");
                    reveal_strlit("react");
                    reveal_strlit("typescript");
                    reveal_strlit("nodejs");
                    assert("amplitude"@.len() == 9);
                    assert("react"@.len() == 5);
                    assert("typescript"@.len() == 10);
                    assert("nodejs"@.len() == 6);
                    assert("amplitude"@ != "nodejs"@);
                    assert("react"@ != "nodejs"@);
                    assert("typescript"@ != "nodejs"@);
                    if i == b + 0 {
                        assert(registry.registered_rules@[i].tech@ == "amplitude"@);
                    }
                    if i == b + 1 {
                        assert(registry.registered_rules@[i].tech@ == "react"@);
                    }
                    if i == b + 2 {
                        assert(registry.registered_rules@[i].tech@ == "typescript"@);
                    }
                }
                lemma_tech_free_back(*old(registry), *registry, "nodejs"@);
            }
            return Err(e);
        },
    }
    let ghost pre4 = *registry;
    match register_rust(registry) {
        Ok(()) => {
            proof {
                assert forall|i: int| 0 <= i < b implies #[trigger] registry.registered_rules@[i]
                    == old(registry).registered_rules@[i] by {}
                assert(registry.registered_rules@.len() == b + 5);
                assert(tech_free(pre4, "rust"@));
                assert forall|i: int|
                    0 <= i < b implies (#[trigger] old(registry).registered_rules@[i]).tech@
                    != "rust"@ by {
                    assert(pre4.registered_rules@[i] == old(registry).registered_rules@[i]);
                    assert(pre4.registered_rules@[i].tech@ != "rust"@);
                }
                assert(tech_free(*old(registry), "rust"@));
                assert(registry.registered_rules@[b + 0].tech@ == "amplitude"@);
                assert(registry.registered_rules@[b + 0].name@ == "Amplitude Analytics"@);
                assert(registry.registered_rules@[b + 0].rule_type@ == "analytics"@);
                assert(registry.registered_rules@[b + 1].tech@ == "react"@);
                assert(registry.registered_rules@[b + 1].name@ == "React"@);
                assert(registry.registered_rules@[b + 1].rule_type@ == "language"@);
                assert(registry.registered_rules@[b + 2].tech@ == "typescript"@);
                assert(registry.registered_rules@[b + 2].name@ == "Typescript"@);
                assert(registry.registered_rules@[b + 2].rule_type@ == "language"@);
                assert(registry.registered_rules@[b + 3].tech@ == "nodejs"@);
                assert(registry.registered_rules@[b + 3].name@ == "NodeJS"@);
                assert(registry.registered_rules@[b + 3].rule_type@ == "language"@);
                assert(registry.registered_rules@[b + 4].tech@ == "rust"@);
                assert(registry.registered_rules@[b + 4].name@ == "Rust"@);
                assert(registry.registered_rules@[b + 4].rule_type@ == "language"@);
            }
        },
        Err(e) => {
            proof {
                reveal_strlit("amplitude");
                reveal_strlit("react");
                reveal_strlit("typescript");
                reveal_strlit("nodejs");
                reveal_strlit("rust");
                assert(registry.registered_rules@.len() == b + 4);
                assert(tech_free(pre3, "nodejs"@));
                assert forall|i: int|
                    0 <= i < b implies (#[trigger] old(registry).registered_rules@[i]).tech@
                    != "nodejs"@ by {
                    assert(pre3.registered_rules@[i] == old(registry).registered_rules@[i]);
                    assert(pre3.registered_rules@[i].tech@ != "nodejs"@);
                }
                assert(tech_free(*old(registry), "nodejs"@));
                assert forall|i: int|
                    b <= i < registry.registered_rules@.len() implies (
                #[trigger] registry.registered_rules@[i]).tech@ != "rust"@ by {
                    reveal_strlit("amplitude");
                    reveal_strlit("react");
                    reveal_strlit("typescript");
                    reveal_strlit("nodejs");
                    reveal_strlit("rust");
                    assert("amplitude"@.len() == 9);
                    assert("react"@.len() == 5);
                    assert("typescript"@.len() == 10);
                    assert("nodejs"@.len() == 6);
                    assert("rust"@.len() == 4);
                    assert("amplitude"@ != "rust"@);
                    assert("react"@ != "rust"@);
                    assert("typescript"@ != "rust"@);
                    assert("nodejs"@ != "rust"@);
                    if i == b + 0 {
                        assert(registry.registered_rules@[i].tech@ == "amplitude"@);
                    }
                    if i == b + 1 {
                        assert(registry.registered_rules@[i].tech@ == "react"@);
                    }
                    if i == b + 2 {
                        assert(registry.registered_rules@[i].tech@ == "typescript"@);
                    }
                    if i == b + 3 {
                        assert(registry.registered_rules@[i].tech@ == "nodejs"@);
                    }
                }
                lemma_tech_free_back(*old(registry), *registry, "rust"@);
            }
            return Err(e);
        },
    }
    let ghost pre5 = *registry;
    match register_postgres(registry) {
        Ok(()) => {
            proof {
                assert forall|i: int| 0 <= i < b implies #[trigger] registry.registered_rules@[i]
                    == old(registry).registered_rules@[i] by {}
                assert(registry.registered_rules@.len() == b + 6);
                assert(tech_free(pre5, "postgresql"@));
                assert forall|i: int|
                    0 <= i < b implies (#[trigger] old(registry).registered_rules@[i]).tech@
                    != "postgresql"@ by {
                    assert(pre5.registered_rules@[i] == old(registry).registered_rules@[i]);
                    assert(pre5.registered_rules@[i].tech@ != "postgresql"@);
                }
                assert(tech_free(*old(registry), "postgresql"@));
                assert(registry.registered_rules@[b + 0].tech@ == "amplitude"@);
                assert(registry.registered_rules@[b + 0].name@ == "Amplitude Analytics"@);
                assert(registry.registered_rules@[b + 0].rule_type@ == "analytics"@);
                assert(registry.registered_rules@[b + 1].tech@ == "react"@);
                assert(registry.registered_rules@[b + 1].name@ == "React"@);
                assert(registry.registered_rules@[b + 1].rule_type@ == "language"@);
                assert(registry.registered_rules@[b + 2].tech@ == "typescript"@);
                assert(registry.registered_rules@[b + 2].name@ == "Typescript"@);
                assert(registry.registered_rules@[b + 2].rule_type@ == "language"@);
                assert(registry.registered_rules@[b + 3].tech@ == "nodejs"@);
                assert(registry.registered_rules@[b + 3].name@ == "NodeJS"@);
                assert(registry.registered_rules@[b + 3].rule_type@ == "language"@);
                assert(registry.registered_rules@[b + 4].tech@ == "rust"@);
                assert(registry.registered_rules@[b + 4].name@ == "Rust"@);
                assert(registry.registered_rules@[b + 4].rule_type@ == "language"@);
                assert(registry.registered_rules@[b + 5].tech@ == "postgresql"@);
                assert(registry.registered_rules@[b + 5].name@ == "Postgres"@);
                assert(registry.registered_rules@[b + 5].rule_type@ == "db"@);
            }
        },
        Err(e) => {
            proof {
                reveal_strlit("amplitude");
                reveal_strlit("react");
                reveal_strlit("typescript");
                reveal_strlit("nodejs");
                reveal_strlit("rust");
                reveal_strlit("postgresql");
                assert(registry.registered_rules@.len() == b + 5);
                assert(tech_free(pre4, "rust"@));
                assert forall|i: int|
                    0 <= i < b implies (#[trigger] old(registry).registered_rules@[i]).tech@
                    != "rust"@ by {
                    assert(pre4.registered_rules@[i] == old(registry).registered_rules@[i]);
                    assert(pre4.registered_rules@[i].tech@ != "rust"@);
                }
                assert(tech_free(*old(registry), "rust"@));
                assert forall|i: int|
                    b <= i < registry.registered_rules@.len() implies (
                #[trigger] registry.registered_rules@[i]).tech@ != "postgresql"@ by {
                    reveal_strlit("amplitude");
                    reveal_strlit("react");
                    reveal_strlit("typescript");
                    reveal_strlit("nodejs");
                    reveal_strlit("rust");
                    reveal_strlit("postgresql");
                    assert("amplitude"@.len() == 9);
                    assert("react"@.len() == 5);
                    assert("typescript"@.len() == 10);
                    assert("nodejs"@.len() == 6);
                    assert("rust"@.len() == 4);
                    assert("postgresql"@.len() == 10);
                    assert("amplitude"@ != "postgresql"@);
                    assert("react"@ != "postgresql"@);
                    assert("typescript"@[0] != "postgresql"@[0]);
                    assert("typescript"@ != "postgresql"@);
                    assert("nodejs"@ != "postgresql"@);
                    assert("rust"@ != "postgresql"@);
                    if i == b + 0 {
                        assert(registry.registered_rules@[i].tech@ == "amplitude"@);
                    }
                    if i == b + 1 {
                        assert(registry.registered_rules@[i].tech@ == "react"@);
                    }
                    if i == b + 2 {
                        assert(registry.registered_rules@[i].tech@ == "typescript"@);
                    }
                    if i == b + 3 {
                        assert(registry.registered_rules@[i].tech@ == "nodejs"@);
                    }
                    if i == b + 4 {
                        assert(registry.registered_rules@[i].tech@ == "rust"@);
                    }
                }
                lemma_tech_free_back(*old(registry), *registry, "postgresql"@);
            }
            return Err(e);
        },
    }
    let ghost pre6 = *registry;
    match register_docker(registry) {
        Ok(()) => {
            proof {
                assert forall|i: int| 0 <= i < b implies #[trigger] registry.registered_rules@[i]
                    == old(registry).registered_rules@[i] by {}
                assert(registry.registered_rules@.len() == b + 7);
                assert(tech_free(pre6, "docker"@));
                assert forall|i: int|
                    0 <= i < b implies (#[trigger] old(registry).registered_rules@[i]).tech@
                    != "docker"@ by {
                    assert(pre6.registered_rules@[i] == old(registry).registered_rules@[i]);
                    assert(pre6.registered_rules@[i].tech@ != "docker"@);
                }
                assert(tech_free(*old(registry), "docker"@));
                assert(registry.registered_rules@[b + 0].tech@ == "amplitude"@);
                assert(registry.registered_rules@[b + 0].name@ == "Amplitude Analytics"@);
                assert(registry.registered_rules@[b + 0].rule_type@ == "analytics"@);
                assert(registry.registered_rules@[b + 1].tech@ == "react"@);
                assert(registry.registered_rules@[b + 1].name@ == "React"@);
                assert(registry.registered_rules@[b + 1].rule_type@ == "language"@);
                assert(registry.registered_rules@[b + 2].tech@ == "typescript"@);
                assert(registry.registered_rules@[b + 2].name@ == "Typescript"@);
                assert(registry.registered_rules@[b + 2].rule_type@ == "language"@);
                assert(registry.registered_rules@[b + 3].tech@ == "nodejs"@);
                assert(registry.registered_rules@[b + 3].name@ == "NodeJS"@);
                assert(registry.registered_rules@[b + 3].rule_type@ == "language"@);
                assert(registry.registered_rules@[b + 4].tech@ == "rust"@);
                assert(registry.registered_rules@[b + 4].name@ == "Rust"@);
                assert(registry.registered_rules@[b + 4].rule_type@ == "language"@);
                assert(registry.registered_rules@[b + 5].tech@ == "postgresql"@);
                assert(registry.registered_rules@[b + 5].name@ == "Postgres"@);
                assert(registry.registered_rules@[b + 5].rule_type@ == "db"@);
                assert(registry.registered_rules@[b + 6].tech@ == "docker"@);
                assert(registry.registered_rules@[b + 6].name@ == "Docker"@);
                assert(registry.registered_rules@[b + 6].rule_type@ == "tool"@);
            }
        },
        Err(e) => {
            proof {
                reveal_strlit("amplitude");
                reveal_strlit("react");
                reveal_strlit("typescript");
                reveal_strlit("nodejs");
                reveal_strlit("rust");
                reveal_strlit("postgresql");
                reveal_strlit("docker");
                assert(registry.registered_rules@.len() == b + 6);
                assert(tech_free(pre5, "postgresql"@));
                assert forall|i: int|
                    0 <= i < b implies (#[trigger] old(registry).registered_rules@[i]).tech@
                    != "postgresql"@ by {
                    assert(pre5.registered_rules@[i] == old(registry).registered_rules@[i]);
                    assert(pre5.registered_rules@[i].tech@ != "postgresql"@);
                }
                assert(tech_free(*old(registry), "postgresql"@));
                assert forall|i: int|
                    b <= i < registry.registered_rules@.len() implies (
                #[trigger] registry.registered_rules@[i]).tech@ != "docker"@ by {
                    reveal_strlit("amplitude");
                    reveal_strlit("react");
                    reveal_strlit("typescript");
                    reveal_strlit("nodejs");
                    reveal_strlit("rust");
                    reveal_strlit("postgresql");
                    reveal_strlit("docker");
                    assert("amplitude"@.len() == 9);
                    assert("react"@.len() == 5);
                    assert("typescript"@.len() == 10);
                    assert("nodejs"@.len() == 6);
                    assert("rust"@.len() == 4);
                    assert("postgresql"@.len() == 10);
                    assert("docker"@.len() == 6);
                    assert("amplitude"@ != "docker"@);
                    assert("react"@ != "docker"@);
                    assert("typescript"@ != "docker"@);
                    assert("nodejs"@[0] != "docker"@[0]);
                    assert("nodejs"@ != "docker"@);
                    assert("rust"@ != "docker"@);
                    assert("postgresql"@ != "docker"@);
                    if i == b + 0 {
                        assert(registry.registered_rules@[i].tech@ == "amplitude"@);
                    }
                    if i == b + 1 {
                        assert(registry.registered_rules@[i].tech@ == "react"@);
                    }
                    if i == b + 2 {
                        assert(registry.registered_rules@[i].tech@ == "typescript"@);
                    }
                    if i == b + 3 {
                        assert(registry.registered_rules@[i].tech@ == "nodejs"@);
                    }
                    if i == b + 4 {
                        assert(registry.registered_rules@[i].tech@ == "rust"@);
                    }
                    if i == b + 5 {
                        assert(registry.registered_rules@[i].tech@ == "postgresql"@);
                    }
                }
                lemma_tech_free_back(*old(registry), *registry, "docker"@);
            }
            return Err(e);
        },
    }
    proof {
        assert(builtin_keys_free(*old(registry)));
        assert(builtin_rules_registered(*old(registry), *registry));
    }
    Ok(())
}

/// A key free before a batch prefix and distinct from everything the
/// prefix appended is decided by the original registry alone.
proof fn lemma_tech_free_back(old_reg: Registry, cur: Registry, key: Seq<char>)
    requires
        old_reg.registered_rules@.len() <= cur.registered_rules@.len(),
        forall|i: int|
            0 <= i < old_reg.registered_rules@.len() ==> #[trigger] cur.registered_rules@[i]
                == old_reg.registered_rules@[i],
        forall|i: int|
            old_reg.registered_rules@.len() <= i < cur.registered_rules@.len() ==> (
            #[trigger] cur.registered_rules@[i]).tech@ != key,
        !tech_free(cur, key),
    ensures
        !tech_free(old_reg, key),
{
    let j = choose|j: int|
        0 <= j < cur.registered_rules@.len() && (#[trigger] cur.registered_rules@[j]).tech@ == key;
    assert(j < old_reg.registered_rules@.len());
    assert(old_reg.registered_rules@[j].tech@ == key);
}

} // verus!
