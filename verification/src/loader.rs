//! Compilation of registered rules into the read-only matcher tables
//! the engine runs on: file-name matchers, extension matchers,
//! per-ecosystem dependency matchers, and the component detectors.

use vstd::prelude::*;

use crate::regexes::{regex_new, regex_source, regex_valid};
use crate::register::CatalogError;
use crate::strutil::{copy_strings, str_views};
use crate::types::{ComponentMatcher, Rule, RuleDependency, RuleFiles};

verus! {

/// One compiled dependency matcher: an anchored pattern scoped to an
/// ecosystem, claiming one technology.
#[derive(Debug)]
pub struct DependencyMatcher {
    /// The ecosystem the pattern applies to.
    pub dep_type: String,
    /// The anchored source pattern.
    pub pattern: String,
    /// The compiled pattern.
    pub match_pattern: regex::Regex,
    /// The technology key claimed on a match.
    pub tech: String,
}

impl DependencyMatcher {
    /// The compiled value really was built from the stored pattern.
    pub open spec fn wf(self) -> bool {
        regex_source(self.match_pattern) == self.pattern@
    }
}

/// One compiled file-name matcher.
#[derive(Debug)]
pub enum FileMatcher {
    /// A list of exact file names.
    Names { tech: String, files: Vec<String> },
    /// A regular expression over the file name.
    Pattern { tech: String, pattern: String, re: regex::Regex },
}

impl FileMatcher {
    /// A compiled pattern really was built from its stored source.
    pub open spec fn wf(self) -> bool {
        self matches FileMatcher::Pattern { pattern, re, .. } ==> regex_source(re) == pattern@
    }

    /// The technology the matcher claims.
    pub open spec fn tech_of(self) -> Seq<char> {
        match self {
            FileMatcher::Names { tech, .. } => tech@,
            FileMatcher::Pattern { tech, .. } => tech@,
        }
    }
}

/// One compiled extension matcher.
#[derive(Debug)]
pub struct ExtensionMatcher {
    /// The technology key claimed on a match.
    pub tech: String,
    /// The extensions claimed, without leading dot.
    pub extensions: Vec<String>,
}

/// The raw record of everything the loader consumed, for inspection.
#[derive(Debug)]
pub enum RuleEntry {
    Dependency { ref_rule: RuleDependency },
    Extension { ref_rule: Rule },
    File { ref_rule: Rule },
}

/// The compiled matcher tables: read-only once built.
#[derive(Debug)]
pub struct Compiled {
    /// File-name matchers, in load order.
    pub techs: Vec<FileMatcher>,
    /// Extension matchers, in load order.
    pub extensions: Vec<ExtensionMatcher>,
    /// Component detectors, in load order.
    pub components: Vec<ComponentMatcher>,
    /// Dependency matchers, in load order, each scoped to its ecosystem.
    pub dependencies: Vec<DependencyMatcher>,
    /// Everything consumed, as it was consumed.
    pub raw_list: Vec<RuleEntry>,
}

impl Compiled {
    /// Every compiled regex matches its stored source pattern.
    pub open spec fn wf(self) -> bool {
        &&& forall|i: int|
            0 <= i < self.dependencies@.len() ==> (#[trigger] self.dependencies@[i]).wf()
        &&& forall|i: int| 0 <= i < self.techs@.len() ==> (#[trigger] self.techs@[i]).wf()
    }

    /// Empty tables.
    pub fn new() -> (r: Compiled)
        ensures
            r.wf(),
            r.techs@.len() == 0,
            r.extensions@.len() == 0,
            r.components@.len() == 0,
            r.dependencies@.len() == 0,
            r.raw_list@.len() == 0,
    {
        Compiled {
            techs: Vec::new(),
            extensions: Vec::new(),
            components: Vec::new(),
            dependencies: Vec::new(),
            raw_list: Vec::new(),
        }
    }
}

/// A dependency name pattern, anchored at both ends.
pub open spec fn anchored(name: Seq<char>) -> Seq<char> {
    seq!['^'] + name + seq!['$']
}

/// The ecosystems the engine accepts dependency patterns for.
pub open spec fn known_ecosystem(e: Seq<char>) -> bool {
    ||| e == "terraform.resource"@
    ||| e == "deno"@
    ||| e == "docker"@
    ||| e == "golang"@
    ||| e == "npm"@
    ||| e == "php"@
    ||| e == "python"@
    ||| e == "ruby"@
    ||| e == "rust"@
    ||| e == "terraform"@
    ||| e == "githubAction"@
}

/// Whether `e` names a known ecosystem.
fn is_known_ecosystem(e: &str) -> (r: bool)
    ensures
        r == known_ecosystem(e@),
{
    crate::strutil::str_eq(e, "terraform.resource") || crate::strutil::str_eq(e, "deno")
        || crate::strutil::str_eq(e, "docker") || crate::strutil::str_eq(e, "golang")
        || crate::strutil::str_eq(e, "npm") || crate::strutil::str_eq(e, "php")
        || crate::strutil::str_eq(e, "python") || crate::strutil::str_eq(e, "ruby")
        || crate::strutil::str_eq(e, "rust") || crate::strutil::str_eq(e, "terraform")
        || crate::strutil::str_eq(e, "githubAction")
}

/// The ecosystem, anchored pattern and technology of every matcher a
/// rule's dependency declarations contribute, in declaration order.
pub open spec fn dep_specs_of(deps: Seq<RuleDependency>, tech: Seq<char>) -> Seq<
    (Seq<char>, Seq<char>, Seq<char>),
>
    decreases deps.len(),
{
    if deps.len() == 0 {
        Seq::empty()
    } else {
        let front = dep_specs_of(deps.drop_last(), tech);
        match deps.last().name {
            Some(n) => if known_ecosystem(deps.last().dep_type@) {
                front.push((deps.last().dep_type@, anchored(n@), tech))
            } else {
                front
            },
            None => front,
        }
    }
}

/// A rule the loader must reject: an empty dependency name would match
/// everything, and a pattern the regex engine refuses cannot be run.
pub open spec fn rule_invalid(rule: Rule) -> bool {
    ||| (rule.dependencies matches Some(deps) && exists|i: int|
        0 <= i < deps@.len() && ((#[trigger] deps@[i]).name matches Some(n) && (n@.len() == 0
            || !regex_valid(anchored(n@)))))
    ||| (rule.files matches Some(f) && f matches RuleFiles::FilesRegex { files, .. }
        && !regex_valid(files@))
}

/// The new dependency matchers stand behind the old ones and carry
/// exactly the given ecosystem, pattern and technology triples.
pub open spec fn dep_matchers_extended(
    olds: Seq<DependencyMatcher>,
    news: Seq<DependencyMatcher>,
    added: Seq<(Seq<char>, Seq<char>, Seq<char>)>,
) -> bool {
    &&& news.len() == olds.len() + added.len()
    &&& forall|i: int| 0 <= i < olds.len() ==> #[trigger] news[i] == olds[i]
    &&& forall|j: int|
        olds.len() <= j < news.len() ==> {
            let m = #[trigger] news[j];
            &&& m.dep_type@ == added[j - olds.len()].0
            &&& m.pattern@ == added[j - olds.len()].1
            &&& m.tech@ == added[j - olds.len()].2
            &&& m.wf()
        }
}

/// The dependency declarations of a rule, or none.
pub open spec fn deps_of(rule: Rule) -> Seq<RuleDependency> {
    match rule.dependencies {
        Some(deps) => deps@,
        None => Seq::empty(),
    }
}

/// The dependency declarations that carry a name, in order.
pub open spec fn named_deps(deps: Seq<RuleDependency>) -> Seq<RuleDependency>
    decreases deps.len(),
{
    if deps.len() == 0 {
        Seq::empty()
    } else {
        let front = named_deps(deps.drop_last());
        if deps.last().name is Some {
            front.push(deps.last())
        } else {
            front
        }
    }
}

/// Whether a rule contributes a file matcher.
pub open spec fn has_file_entry(rule: Rule) -> bool {
    ||| rule.files matches Some(RuleFiles::FilesArray { .. })
    ||| rule.files matches Some(RuleFiles::FilesRegex { .. })
}

/// The raw records one rule appends: one `Dependency` entry per named
/// declaration in order, then a `File` entry when the rule matches
/// files, then an `Extension` entry when it claims extensions.
pub open spec fn raw_extended(olds: Seq<RuleEntry>, news: Seq<RuleEntry>, rule: Rule) -> bool {
    let nd = named_deps(deps_of(rule));
    let fc: int = if has_file_entry(rule) {
        1
    } else {
        0
    };
    let ec: int = if rule.extensions is Some {
        1
    } else {
        0
    };
    &&& news.len() == olds.len() + nd.len() + fc + ec
    &&& forall|i: int| 0 <= i < olds.len() ==> #[trigger] news[i] == olds[i]
    &&& forall|j: int|
        olds.len() <= j < olds.len() + nd.len() ==> ((#[trigger] news[j]) matches RuleEntry::Dependency {
            ref_rule,
        } && ref_rule == nd[j - olds.len()])
    &&& (has_file_entry(rule) ==> (news[olds.len() + nd.len() as int] matches RuleEntry::File { ref_rule }
        && crate::types::rule_like(ref_rule, rule)))
    &&& (rule.extensions is Some ==> (news[news.len() as int - 1] matches RuleEntry::Extension { ref_rule }
        && crate::types::rule_like(ref_rule, rule)))
}

/// Load one rule into the tables. A rule with an empty dependency
/// name or an uncompilable pattern is rejected whole: the tables are
/// left exactly as they stood.
pub fn load_one(compiled: &mut Compiled, rule: &Rule) -> (r: Result<(), CatalogError>)
    requires
        old(compiled).wf(),
    ensures
        final(compiled).wf(),
        match r {
            Ok(()) => {
                &&& !rule_invalid(*rule)
                &&& dep_matchers_extended(
                    old(compiled).dependencies@,
                    final(compiled).dependencies@,
                    dep_specs_of(deps_of(*rule), rule.tech@),
                )
                &&& match rule.files {
                    Some(RuleFiles::FilesArray { files }) => {
                        &&& final(compiled).techs@.len() == old(compiled).techs@.len() + 1
                        &&& final(compiled).techs@.last() matches FileMatcher::Names {
                            tech,
                            files: fl,
                        } && tech@ == rule.tech@ && str_views(fl@) == str_views(files@)
                    },
                    Some(RuleFiles::FilesRegex { files, .. }) => {
                        &&& final(compiled).techs@.len() == old(compiled).techs@.len() + 1
                        &&& final(compiled).techs@.last() matches FileMatcher::Pattern {
                            tech,
                            pattern,
                            ..
                        } && tech@ == rule.tech@ && pattern@ == files@
                    },
                    _ => final(compiled).techs@ == old(compiled).techs@,
                }
                &&& forall|i: int|
                    0 <= i < old(compiled).techs@.len() ==> #[trigger] final(compiled).techs@[i]
                        == old(compiled).techs@[i]
                &&& match rule.extensions {
                    Some(exts) => {
                        &&& final(compiled).extensions@.len() == old(compiled).extensions@.len()
                            + 1
                        &&& final(compiled).extensions@.last().tech@ == rule.tech@
                        &&& str_views(final(compiled).extensions@.last().extensions@)
                            == str_views(exts@)
                    },
                    None => final(compiled).extensions@ == old(compiled).extensions@,
                }
                &&& forall|i: int|
                    0 <= i < old(compiled).extensions@.len()
                        ==> #[trigger] final(compiled).extensions@[i] == old(compiled).extensions@[i]
                &&& final(compiled).components@ == old(compiled).components@ + (match rule.detect {
                    Some(d) => d@,
                    None => Seq::<ComponentMatcher>::empty(),
                })
                &&& raw_extended(old(compiled).raw_list@, final(compiled).raw_list@, *rule)
            },
            Err(e) => {
                &&& rule_invalid(*rule)
                &&& *final(compiled) == *old(compiled)
                &&& e matches CatalogError::InvalidRuleDefinition { name } && name@ == rule.name@
            },
        },
{
    // validate and build, away from the tables
    let mut new_deps: Vec<DependencyMatcher> = Vec::new();
    if let Some(deps) = &rule.dependencies {
        let nd = deps.len();
        let mut i: usize = 0;
        proof {
            assert(dep_specs_of(deps@.take(0), rule.tech@) =~= Seq::<
                (Seq<char>, Seq<char>, Seq<char>),
            >::empty());
        }
        while i < nd
            invariant
                *compiled == *old(compiled),
                compiled.wf(),
                rule.dependencies matches Some(d) && d == *deps,
                nd == deps@.len(),
                0 <= i <= nd,
                forall|k: int|
                    0 <= k < i ==> ((#[trigger] deps@[k]).name matches Some(n) ==> n@.len() > 0
                        && regex_valid(anchored(n@))),
                dep_matchers_extended(
                    Seq::<DependencyMatcher>::empty(),
                    new_deps@,
                    dep_specs_of(deps@.take(i as int), rule.tech@),
                ),
            decreases nd - i,
        {
            let ghost added0 = dep_specs_of(deps@.take(i as int), rule.tech@);
            if let Some(name) = &deps[i].name {
                if name.as_str().unicode_len() == 0 {
                    proof {
                        assert(rule_invalid(*rule));
                    }
                    return Err(CatalogError::InvalidRuleDefinition { name: rule.name.clone() });
                }
                let mut pat = String::from_str("^");
                pat.append(name.as_str());
                pat.append("$");
                proof {
                    reveal_strlit("^");
                    reveal_strlit("$");
                    assert(pat@ =~= anchored(name@));
                }
                match regex_new(pat.as_str()) {
                    None => {
                        proof {
                            assert(rule_invalid(*rule));
                        }
                        return Err(
                            CatalogError::InvalidRuleDefinition { name: rule.name.clone() },
                        );
                    },
                    Some(re) => {
                        if is_known_ecosystem(deps[i].dep_type.as_str()) {
                            new_deps.push(
                                DependencyMatcher {
                                    dep_type: deps[i].dep_type.clone(),
                                    pattern: pat,
                                    match_pattern: re,
                                    tech: rule.tech.clone(),
                                },
                            );
                        }
                    },
                }
            }
            proof {
                let t1 = deps@.take(i + 1);
                assert(t1.drop_last() =~= deps@.take(i as int));
                assert(t1.last() == deps@[i as int]);
            }
            i += 1;
        }
        proof {
            assert(deps@.take(nd as int) =~= deps@);
        }
    }
    let new_file: Option<FileMatcher> = match &rule.files {
        Some(RuleFiles::FilesArray { files }) => {
            let copied = copy_strings(files);
            proof {
                assert(str_views(copied@) =~= str_views(files@));
            }
            Some(FileMatcher::Names { tech: rule.tech.clone(), files: copied })
        },
        Some(RuleFiles::FilesRegex { files, .. }) => {
            match regex_new(files.as_str()) {
                None => {
                    proof {
                        assert(rule_invalid(*rule));
                    }
                    return Err(CatalogError::InvalidRuleDefinition { name: rule.name.clone() });
                },
                Some(re) => Some(
                    FileMatcher::Pattern { tech: rule.tech.clone(), pattern: files.clone(), re },
                ),
            }
        },
        _ => None,
    };
    let new_ext: Option<ExtensionMatcher> = match &rule.extensions {
        Some(exts) => {
            let copied = copy_strings(exts);
            proof {
                assert(str_views(copied@) =~= str_views(exts@));
            }
            Some(ExtensionMatcher { tech: rule.tech.clone(), extensions: copied })
        },
        None => None,
    };
    proof {
        assert(!rule_invalid(*rule));
    }
    // commit
    proof {
        if rule.dependencies is None {
            assert(dep_specs_of(deps_of(*rule), rule.tech@) =~= Seq::<
                (Seq<char>, Seq<char>, Seq<char>),
            >::empty());
        }
        assert(dep_matchers_extended(
            Seq::<DependencyMatcher>::empty(),
            new_deps@,
            dep_specs_of(deps_of(*rule), rule.tech@),
        ));
    }
    let mut new_deps_m = new_deps;
    compiled.dependencies.append(&mut new_deps_m);
    proof {
        assert(compiled.wf()) by {
            assert forall|i: int| 0 <= i < compiled.dependencies@.len() implies (
            #[trigger] compiled.dependencies@[i]).wf() by {
                if i >= old(compiled).dependencies@.len() {
                    assert(compiled.dependencies@[i] == new_deps@[i - old(
                        compiled,
                    ).dependencies@.len()]);
                }
            }
        }
    }
    let ghost dm_after = compiled.dependencies@;
    let ghost orl = compiled.raw_list@;
    proof {
        assert(named_deps(deps_of(*rule).take(0)) =~= Seq::<RuleDependency>::empty());
    }
    if let Some(deps) = &rule.dependencies {
        let nd = deps.len();
        let mut i: usize = 0;
        while i < nd
            invariant
                compiled.wf(),
                compiled.dependencies@ == dm_after,
                compiled.techs@ == old(compiled).techs@,
                compiled.extensions@ == old(compiled).extensions@,
                compiled.components@ == old(compiled).components@,
                rule.dependencies matches Some(d) && d == *deps,
                deps_of(*rule) == deps@,
                forall|k: int| 0 <= k < orl.len() ==> #[trigger] compiled.raw_list@[k] == orl[k],
                compiled.raw_list@.len() == orl.len() + named_deps(deps@.take(i as int)).len(),
                forall|j: int|
                    orl.len() <= j < compiled.raw_list@.len() ==> ((
                    #[trigger] compiled.raw_list@[j]) matches RuleEntry::Dependency { ref_rule }
                        && ref_rule == named_deps(deps@.take(i as int))[j - orl.len()]),
                nd == deps@.len(),
                0 <= i <= nd,
            decreases nd - i,
        {
            let ghost before_named = named_deps(deps@.take(i as int));
            if deps[i].name.is_some() {
                compiled.raw_list.push(
                    RuleEntry::Dependency { ref_rule: deps[i].duplicate() },
                );
            }
            proof {
                let t1 = deps@.take(i + 1);
                assert(t1.drop_last() =~= deps@.take(i as int));
                assert(t1.last() == deps@[i as int]);
                if deps@[i as int].name is Some {
                    assert(named_deps(t1) =~= before_named.push(deps@[i as int]));
                }
            }
            i += 1;
        }
        proof {
            assert(deps@.take(nd as int) =~= deps@);
        }
    }
    let ghost after_deps_raw = compiled.raw_list@;
    match new_file {
        Some(fm) => {
            compiled.techs.push(fm);
            compiled.raw_list.push(RuleEntry::File { ref_rule: rule.duplicate() });
        },
        None => {},
    }
    match new_ext {
        Some(em) => {
            compiled.extensions.push(em);
            compiled.raw_list.push(RuleEntry::Extension { ref_rule: rule.duplicate() });
        },
        None => {},
    }
    proof {
        assert(raw_extended(orl, compiled.raw_list@, *rule)) by {
            if rule.dependencies is None {
                assert(named_deps(deps_of(*rule)) =~= Seq::<RuleDependency>::empty());
            }
        }
    }
    let ghost t_after = compiled.techs@;
    let ghost e_after = compiled.extensions@;
    let ghost orl2 = compiled.raw_list@;
    let ghost old_components = compiled.components@;
    if let Some(detectors) = &rule.detect {
        let nd = detectors.len();
        let mut i: usize = 0;
        while i < nd
            invariant
                compiled.wf(),
                compiled.dependencies@ == dm_after,
                compiled.techs@ == t_after,
                compiled.extensions@ == e_after,
                compiled.raw_list@ == orl2,
                rule.detect matches Some(d) && d == *detectors,
                nd == detectors@.len(),
                0 <= i <= nd,
                compiled.components@ == old_components + detectors@.take(i as int),
            decreases nd - i,
        {
            compiled.components.push(detectors[i]);
            proof {
                assert(old_components + detectors@.take(i + 1) =~= (old_components
                    + detectors@.take(i as int)).push(detectors@[i as int]));
            }
            i += 1;
        }
        proof {
            assert(detectors@.take(nd as int) =~= detectors@);
        }
    } else {
        proof {
            assert(compiled.components@ =~= old_components + Seq::<ComponentMatcher>::empty());
        }
    }
    Ok(())
}

/// Every dependency-matcher triple a rule list contributes, in order.
pub open spec fn all_dep_specs(rules: Seq<Rule>) -> Seq<(Seq<char>, Seq<char>, Seq<char>)>
    decreases rules.len(),
{
    if rules.len() == 0 {
        Seq::empty()
    } else {
        all_dep_specs(rules.drop_last()) + dep_specs_of(
            deps_of(rules.last()),
            rules.last().tech@,
        )
    }
}

/// Every component detector a rule list contributes, in order.
pub open spec fn all_detectors(rules: Seq<Rule>) -> Seq<ComponentMatcher>
    decreases rules.len(),
{
    if rules.len() == 0 {
        Seq::empty()
    } else {
        all_detectors(rules.drop_last()) + (match rules.last().detect {
            Some(d) => d@,
            None => Seq::<ComponentMatcher>::empty(),
        })
    }
}

/// The description of the file matcher a rule contributes, if any:
/// whether it is a pattern, the technology, the pattern source, and
/// the exact names.
pub open spec fn file_specs_of(rule: Rule) -> Seq<(bool, Seq<char>, Seq<char>, Seq<Seq<char>>)> {
    match rule.files {
        Some(RuleFiles::FilesArray { files }) => seq![
            (false, rule.tech@, Seq::<char>::empty(), str_views(files@)),
        ],
        Some(RuleFiles::FilesRegex { files, .. }) => seq![
            (true, rule.tech@, files@, Seq::<Seq<char>>::empty()),
        ],
        _ => Seq::empty(),
    }
}

/// Every file-matcher description a rule list contributes, in order.
pub open spec fn all_file_specs(rules: Seq<Rule>) -> Seq<
    (bool, Seq<char>, Seq<char>, Seq<Seq<char>>),
>
    decreases rules.len(),
{
    if rules.len() == 0 {
        Seq::empty()
    } else {
        all_file_specs(rules.drop_last()) + file_specs_of(rules.last())
    }
}

/// The new file matchers stand behind the old ones and carry exactly
/// the given descriptions.
pub open spec fn file_matchers_extended(
    olds: Seq<FileMatcher>,
    news: Seq<FileMatcher>,
    added: Seq<(bool, Seq<char>, Seq<char>, Seq<Seq<char>>)>,
) -> bool {
    &&& news.len() == olds.len() + added.len()
    &&& forall|i: int| 0 <= i < olds.len() ==> #[trigger] news[i] == olds[i]
    &&& forall|j: int|
        olds.len() <= j < news.len() ==> {
            let d = added[j - olds.len()];
            let m = #[trigger] news[j];
            &&& m.wf()
            &&& m.tech_of() == d.1
            &&& (if d.0 {
                m matches FileMatcher::Pattern { pattern, .. } && pattern@ == d.2
            } else {
                m matches FileMatcher::Names { files, .. } && str_views(files@) == d.3
            })
        }
}

/// The extension list a rule contributes, if any.
pub open spec fn ext_specs_of(rule: Rule) -> Seq<(Seq<char>, Seq<Seq<char>>)> {
    match rule.extensions {
        Some(exts) => seq![(rule.tech@, str_views(exts@))],
        None => Seq::empty(),
    }
}

/// Every extension-matcher description a rule list contributes.
pub open spec fn all_ext_specs(rules: Seq<Rule>) -> Seq<(Seq<char>, Seq<Seq<char>>)>
    decreases rules.len(),
{
    if rules.len() == 0 {
        Seq::empty()
    } else {
        all_ext_specs(rules.drop_last()) + ext_specs_of(rules.last())
    }
}

/// The new extension matchers stand behind the old ones and carry
/// exactly the given descriptions.
pub open spec fn ext_matchers_extended(
    olds: Seq<ExtensionMatcher>,
    news: Seq<ExtensionMatcher>,
    added: Seq<(Seq<char>, Seq<Seq<char>>)>,
) -> bool {
    &&& news.len() == olds.len() + added.len()
    &&& forall|i: int| 0 <= i < olds.len() ==> #[trigger] news[i] == olds[i]
    &&& forall|j: int|
        olds.len() <= j < news.len() ==> {
            let d = added[j - olds.len()];
            let m = #[trigger] news[j];
            &&& m.tech@ == d.0
            &&& str_views(m.extensions@) == d.1
        }
}

/// Two table extensions in a row extend by the concatenation.
proof fn lemma_dep_extended_compose(
    a: Seq<DependencyMatcher>,
    b: Seq<DependencyMatcher>,
    c: Seq<DependencyMatcher>,
    x: Seq<(Seq<char>, Seq<char>, Seq<char>)>,
    y: Seq<(Seq<char>, Seq<char>, Seq<char>)>,
)
    requires
        dep_matchers_extended(a, b, x),
        dep_matchers_extended(b, c, y),
    ensures
        dep_matchers_extended(a, c, x + y),
{
    assert forall|j: int| a.len() <= j < c.len() implies {
        let m = #[trigger] c[j];
        &&& m.dep_type@ == (x + y)[j - a.len()].0
        &&& m.pattern@ == (x + y)[j - a.len()].1
        &&& m.tech@ == (x + y)[j - a.len()].2
        &&& m.wf()
    } by {
        if j < b.len() {
            assert(c[j] == b[j]);
            assert((x + y)[j - a.len()] == x[j - a.len()]);
        } else {
            assert((x + y)[j - a.len()] == y[j - b.len()]);
        }
    }
}

/// Two file-table extensions in a row extend by the concatenation.
proof fn lemma_file_extended_compose(
    a: Seq<FileMatcher>,
    b: Seq<FileMatcher>,
    c: Seq<FileMatcher>,
    x: Seq<(bool, Seq<char>, Seq<char>, Seq<Seq<char>>)>,
    y: Seq<(bool, Seq<char>, Seq<char>, Seq<Seq<char>>)>,
)
    requires
        file_matchers_extended(a, b, x),
        file_matchers_extended(b, c, y),
    ensures
        file_matchers_extended(a, c, x + y),
{
    assert forall|j: int| a.len() <= j < c.len() implies {
        let d = (x + y)[j - a.len()];
        let m = #[trigger] c[j];
        &&& m.wf()
        &&& m.tech_of() == d.1
        &&& (if d.0 {
            m matches FileMatcher::Pattern { pattern, .. } && pattern@ == d.2
        } else {
            m matches FileMatcher::Names { files, .. } && str_views(files@) == d.3
        })
    } by {
        if j < b.len() {
            assert(c[j] == b[j]);
            assert((x + y)[j - a.len()] == x[j - a.len()]);
        } else {
            assert((x + y)[j - a.len()] == y[j - b.len()]);
        }
    }
}

/// Two extension-table extensions in a row extend by the concatenation.
proof fn lemma_ext_extended_compose(
    a: Seq<ExtensionMatcher>,
    b: Seq<ExtensionMatcher>,
    c: Seq<ExtensionMatcher>,
    x: Seq<(Seq<char>, Seq<Seq<char>>)>,
    y: Seq<(Seq<char>, Seq<Seq<char>>)>,
)
    requires
        ext_matchers_extended(a, b, x),
        ext_matchers_extended(b, c, y),
    ensures
        ext_matchers_extended(a, c, x + y),
{
    assert forall|j: int| a.len() <= j < c.len() implies {
        let d = (x + y)[j - a.len()];
        let m = #[trigger] c[j];
        &&& m.tech@ == d.0
        &&& str_views(m.extensions@) == d.1
    } by {
        if j < b.len() {
            assert(c[j] == b[j]);
            assert((x + y)[j - a.len()] == x[j - a.len()]);
        } else {
            assert((x + y)[j - a.len()] == y[j - b.len()]);
        }
    }
}

/// A run of raw-record states carrying the rule list from `from` to
/// `to`: one rule's records appended per step.
pub open spec fn raw_steps_ok(
    rules: Seq<Rule>,
    from: Seq<RuleEntry>,
    to: Seq<RuleEntry>,
    steps: Seq<Seq<RuleEntry>>,
) -> bool {
    &&& steps.len() == rules.len() + 1
    &&& steps[0] == from
    &&& steps[rules.len() as int] == to
    &&& forall|k: int|
        0 <= k < rules.len() ==> raw_extended(steps[k], steps[k + 1], #[trigger] rules[k])
}

/// How loading a whole rule list, in order, extends the raw records.
pub open spec fn raw_chain_ok(rules: Seq<Rule>, from: Seq<RuleEntry>, to: Seq<RuleEntry>) -> bool {
    exists|steps: Seq<Seq<RuleEntry>>| #[trigger] raw_steps_ok(rules, from, to, steps)
}

/// One more rule extends a raw-record run.
proof fn lemma_raw_chain_step(
    rules: Seq<Rule>,
    from: Seq<RuleEntry>,
    mid: Seq<RuleEntry>,
    to: Seq<RuleEntry>,
)
    requires
        rules.len() > 0,
        raw_chain_ok(rules.drop_last(), from, mid),
        raw_extended(mid, to, rules.last()),
    ensures
        raw_chain_ok(rules, from, to),
{
    let front = rules.drop_last();
    let steps0 = choose|steps0: Seq<Seq<RuleEntry>>|
        #[trigger] raw_steps_ok(front, from, mid, steps0);
    let steps = steps0.push(to);
    assert(raw_steps_ok(rules, from, to, steps)) by {
        assert(steps[0] == steps0[0]);
        assert(steps[rules.len() as int] == to);
        assert forall|k: int| 0 <= k < rules.len() implies raw_extended(
            steps[k],
            steps[k + 1],
            #[trigger] rules[k],
        ) by {
            if k < rules.len() - 1 {
                assert(front[k] == rules[k]);
                assert(steps[k] == steps0[k]);
                assert(steps[k + 1] == steps0[k + 1]);
                assert(raw_extended(steps0[k], steps0[k + 1], front[k]));
            } else {
                assert(steps[k] == steps0[front.len() as int]);
                assert(steps0[front.len() as int] == mid);
                assert(rules[k] == rules.last());
                assert(steps[k + 1] == to);
            }
        }
    }
}

/// Load every registered rule, stopping at the first invalid one.
pub fn load_all_rules(compiled: &mut Compiled, registered_rules: &Vec<Rule>) -> (r: Result<
    (),
    CatalogError,
>)
    requires
        old(compiled).wf(),
    ensures
        final(compiled).wf(),
        r is Ok ==> forall|i: int|
            0 <= i < registered_rules@.len() ==> !rule_invalid(#[trigger] registered_rules@[i]),
        r is Ok ==> dep_matchers_extended(
            old(compiled).dependencies@,
            final(compiled).dependencies@,
            all_dep_specs(registered_rules@),
        ),
        r is Ok ==> file_matchers_extended(
            old(compiled).techs@,
            final(compiled).techs@,
            all_file_specs(registered_rules@),
        ),
        r is Ok ==> ext_matchers_extended(
            old(compiled).extensions@,
            final(compiled).extensions@,
            all_ext_specs(registered_rules@),
        ),
        r is Ok ==> final(compiled).components@ == old(compiled).components@ + all_detectors(
            registered_rules@,
        ),
        r is Ok ==> raw_chain_ok(
            registered_rules@,
            old(compiled).raw_list@,
            final(compiled).raw_list@,
        ),
        r is Err ==> exists|i: int|
            0 <= i < registered_rules@.len() && rule_invalid(#[trigger] registered_rules@[i]),
{
    let n = registered_rules.len();
    let mut i: usize = 0;
    proof {
        lemma_extended_refl(compiled.dependencies@, compiled.techs@, compiled.extensions@);
        assert(all_dep_specs(registered_rules@.take(0)) =~= Seq::<
            (Seq<char>, Seq<char>, Seq<char>),
        >::empty());
        assert(all_file_specs(registered_rules@.take(0)) =~= Seq::<
            (bool, Seq<char>, Seq<char>, Seq<Seq<char>>),
        >::empty());
        assert(all_ext_specs(registered_rules@.take(0)) =~= Seq::<
            (Seq<char>, Seq<Seq<char>>),
        >::empty());
        assert(all_detectors(registered_rules@.take(0)) =~= Seq::<ComponentMatcher>::empty());
        assert(compiled.components@ =~= compiled.components@ + Seq::<ComponentMatcher>::empty());
        assert(raw_steps_ok(
            registered_rules@.take(0),
            compiled.raw_list@,
            compiled.raw_list@,
            seq![compiled.raw_list@],
        ));
    }
    while i < n
        invariant
            compiled.wf(),
            n == registered_rules@.len(),
            0 <= i <= n,
            forall|k: int| 0 <= k < i ==> !rule_invalid(#[trigger] registered_rules@[k]),
            dep_matchers_extended(
                old(compiled).dependencies@,
                compiled.dependencies@,
                all_dep_specs(registered_rules@.take(i as int)),
            ),
            file_matchers_extended(
                old(compiled).techs@,
                compiled.techs@,
                all_file_specs(registered_rules@.take(i as int)),
            ),
            ext_matchers_extended(
                old(compiled).extensions@,
                compiled.extensions@,
                all_ext_specs(registered_rules@.take(i as int)),
            ),
            compiled.components@ == old(compiled).components@ + all_detectors(
                registered_rules@.take(i as int),
            ),
            raw_chain_ok(
                registered_rules@.take(i as int),
                old(compiled).raw_list@,
                compiled.raw_list@,
            ),
        decreases n - i,
    {
        let ghost pre = *compiled;
        let ghost rule = registered_rules@[i as int];
        match load_one(compiled, &registered_rules[i]) {
            Ok(()) => {
                proof {
                    let t1 = registered_rules@.take(i + 1);
                    assert(t1.drop_last() =~= registered_rules@.take(i as int));
                    assert(t1.last() == rule);
                    // dependencies
                    assert(dep_matchers_extended(
                        pre.dependencies@,
                        compiled.dependencies@,
                        dep_specs_of(deps_of(rule), rule.tech@),
                    ));
                    lemma_dep_extended_compose(
                        old(compiled).dependencies@,
                        pre.dependencies@,
                        compiled.dependencies@,
                        all_dep_specs(registered_rules@.take(i as int)),
                        dep_specs_of(deps_of(rule), rule.tech@),
                    );
                    // file matchers
                    assert(file_matchers_extended(
                        pre.techs@,
                        compiled.techs@,
                        file_specs_of(rule),
                    )) by {
                        match rule.files {
                            Some(RuleFiles::FilesArray { files }) => {
                                assert(compiled.techs@.last() == compiled.techs@[pre.techs@.len() as int]);
                            },
                            Some(RuleFiles::FilesRegex { files, .. }) => {
                                assert(compiled.techs@.last() == compiled.techs@[pre.techs@.len() as int]);
                            },
                            _ => {
                                assert(file_specs_of(rule) =~= Seq::<
                                    (bool, Seq<char>, Seq<char>, Seq<Seq<char>>),
                                >::empty());
                            },
                        }
                    }
                    lemma_file_extended_compose(
                        old(compiled).techs@,
                        pre.techs@,
                        compiled.techs@,
                        all_file_specs(registered_rules@.take(i as int)),
                        file_specs_of(rule),
                    );
                    // extension matchers
                    assert(ext_matchers_extended(
                        pre.extensions@,
                        compiled.extensions@,
                        ext_specs_of(rule),
                    )) by {
                        match rule.extensions {
                            Some(exts) => {
                                assert(compiled.extensions@.last() == compiled.extensions@[pre.extensions@.len() as int]);
                            },
                            None => {
                                assert(ext_specs_of(rule) =~= Seq::<
                                    (Seq<char>, Seq<Seq<char>>),
                                >::empty());
                            },
                        }
                    }
                    lemma_ext_extended_compose(
                        old(compiled).extensions@,
                        pre.extensions@,
                        compiled.extensions@,
                        all_ext_specs(registered_rules@.take(i as int)),
                        ext_specs_of(rule),
                    );
                    // detectors
                    assert(all_detectors(t1) =~= all_detectors(registered_rules@.take(i as int))
                        + (match rule.detect {
                        Some(d) => d@,
                        None => Seq::<ComponentMatcher>::empty(),
                    }));
                    assert(compiled.components@ =~= old(compiled).components@ + all_detectors(
                        t1,
                    ));
                    // raw records
                    lemma_raw_chain_step(
                        t1,
                        old(compiled).raw_list@,
                        pre.raw_list@,
                        compiled.raw_list@,
                    );
                }
            },
            Err(e) => {
                return Err(e);
            },
        }
        i += 1;
    }
    proof {
        assert(registered_rules@.take(n as int) =~= registered_rules@);
    }
    Ok(())
}

/// A table extends itself by nothing.
proof fn lemma_extended_refl(
    deps: Seq<DependencyMatcher>,
    fms: Seq<FileMatcher>,
    exts: Seq<ExtensionMatcher>,
)
    ensures
        dep_matchers_extended(deps, deps, Seq::empty()),
        file_matchers_extended(fms, fms, Seq::empty()),
        ext_matchers_extended(exts, exts, Seq::empty()),
{
}

} // verus!
