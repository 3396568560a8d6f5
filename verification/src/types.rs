//! Declarative rule model: one record per detectable technology.

use vstd::prelude::*;

use crate::payload::Payload;
use crate::strutil::copy_strings;

verus! {

/// One dependency triple: ecosystem, name, version or locator.
pub type Dependency = (String, String, String);

/// A directed relationship to another component, with its access
/// flags.
pub struct GraphEdge {
    /// The component the edge points at.
    pub target: Payload,
    /// Whether the owner reads through this edge.
    pub read: bool,
    /// Whether the owner writes through this edge.
    pub write: bool,
}

/// A summary view of one analysed component: what a scan knows about
/// a payload once the walk is done.
pub struct Analyser {
    /// Unique random id for this payload.
    pub id: String,
    /// Best-effort name of this payload.
    pub name: String,
    /// Where this payload was found; after flattening it holds every
    /// path that was deduplicated.
    pub path: Vec<String>,
    /// The technology this payload is one instance of, if any.
    pub tech: Option<String>,
    /// Technologies matched from the rules, computed with the
    /// dependencies and languages.
    pub techs: Vec<String>,
    /// The payload hosting this one, when a hosting technology was
    /// found at the same level.
    pub in_component: Option<Payload>,
    /// All children of this payload.
    pub childs: Vec<Payload>,
    /// Languages found in this folder, counted by file extension.
    pub languages: Vec<(String, i32)>,
    /// Relationships from this payload to others.
    pub edges: Vec<GraphEdge>,
    /// Every dependency, whether or not it matched a rule.
    pub dependencies: Vec<Dependency>,
}

/// A copy of an optional string.
fn clone_opt(o: &Option<String>) -> (c: Option<String>)
    ensures
        c == *o,
{
    match o {
        None => None,
        Some(s) => Some(s.clone()),
    }
}

/// One dependency-declaration pattern of a rule, tagged with the
/// ecosystem it applies to (a package manager, a container image, ...).
#[derive(Clone, Debug)]
pub struct RuleDependency {
    /// Ecosystem the pattern is scoped to.
    pub dep_type: String,
    /// Anchored name pattern; an empty name is a catalog authoring bug.
    pub name: Option<String>,
    /// Free-text example of a matching declaration.
    pub example: Option<String>,
}

impl Default for RuleDependency {
    /// An empty dependency declaration.
    fn default() -> (r: RuleDependency)
        ensures
            r.dep_type@ == Seq::<char>::empty(),
            r.name is None,
            r.example is None,
    {
        RuleDependency { dep_type: String::new(), name: None, example: None }
    }
}

impl RuleDependency {
    /// A field-for-field copy.
    pub fn duplicate(&self) -> (c: RuleDependency)
        ensures
            c == *self,
    {
        RuleDependency {
            dep_type: self.dep_type.clone(),
            name: clone_opt(&self.name),
            example: clone_opt(&self.example),
        }
    }
}

/// The closed set of component detectors a rule can ask for.
#[derive(Clone, Copy, Debug, PartialEq, Eq, Structural)]
pub enum ComponentMatcher {
    /// Reads `package.json`.
    Nodejs,
    /// Reads `Cargo.toml`.
    Rust,
    /// Reads multi-service compose descriptors.
    Docker,
}

/// How a rule matches file names, if it does.
#[derive(Clone, Debug)]
pub enum RuleFiles {
    /// A regular expression over the file name.
    FilesRegex { files: String, example: String },
    /// A list of exact file names.
    FilesArray { files: Vec<String> },
    /// No file matching.
    NoFiles,
    /// A regular expression, optionally over the full path.
    MatchFullPath { match_full_path: bool, files: String, example: String },
}

/// A declarative description of one technology.
#[derive(Clone, Debug)]
pub struct Rule {
    /// Stable unique technology key.
    pub tech: String,
    /// Human-readable name.
    pub name: String,
    /// Coarse type tag: language, framework, db, tool, hosting, ...
    pub rule_type: String,
    /// Dependency-declaration patterns.
    pub dependencies: Option<Vec<RuleDependency>>,
    /// Component detectors this rule activates.
    pub detect: Option<Vec<ComponentMatcher>>,
    /// File extensions claimed by this technology.
    pub extensions: Option<Vec<String>>,
    /// File-name matching.
    pub files: Option<RuleFiles>,
    /// Free-text example.
    pub example: Option<String>,
}

/// Two rules with the same keys and the same matcher data, field for
/// field up to string views.
pub open spec fn rule_like(a: Rule, b: Rule) -> bool {
    &&& a.tech@ == b.tech@
    &&& a.name@ == b.name@
    &&& a.rule_type@ == b.rule_type@
    &&& (a.dependencies is Some <==> b.dependencies is Some)
    &&& (a.dependencies matches Some(ad) ==> b.dependencies matches Some(bd) && ad@ == bd@)
    &&& (a.detect is Some <==> b.detect is Some)
    &&& (a.detect matches Some(av) ==> b.detect matches Some(bv) && av@ == bv@)
    &&& (a.extensions is Some <==> b.extensions is Some)
    &&& (a.extensions matches Some(ae) ==> b.extensions matches Some(be) && ae@ == be@)
    &&& files_like(a.files, b.files)
    &&& a.example == b.example
}

/// Two file-matching declarations with the same content.
pub open spec fn files_like(a: Option<RuleFiles>, b: Option<RuleFiles>) -> bool {
    match a {
        None => b is None,
        Some(RuleFiles::FilesArray { files: af }) => b matches Some(
            RuleFiles::FilesArray { files: bf },
        ) && af@ == bf@,
        Some(RuleFiles::FilesRegex { files: af, example: ae }) => b matches Some(
            RuleFiles::FilesRegex { files: bf, example: be },
        ) && af@ == bf@ && ae@ == be@,
        Some(RuleFiles::NoFiles) => b matches Some(RuleFiles::NoFiles),
        Some(RuleFiles::MatchFullPath { match_full_path: am, files: af, example: ae }) => b matches Some(
            RuleFiles::MatchFullPath { match_full_path: bm, files: bf, example: be },
        ) && am == bm && af@ == bf@ && ae@ == be@,
    }
}

impl Rule {
    /// A copy carrying the same keys and the same matcher data.
    pub fn duplicate(&self) -> (c: Rule)
        ensures
            c.tech@ == self.tech@,
            c.name@ == self.name@,
            c.rule_type@ == self.rule_type@,
            rule_like(c, *self),
    {
        let dependencies = match &self.dependencies {
            None => None,
            Some(deps) => {
                let mut out: Vec<RuleDependency> = Vec::new();
                let mut i: usize = 0;
                while i < deps.len()
                    invariant
                        0 <= i <= deps@.len(),
                        out@.len() == i,
                        forall|k: int| 0 <= k < i ==> #[trigger] out@[k] == deps@[k],
                    decreases deps@.len() - i,
                {
                    out.push(deps[i].duplicate());
                    i += 1;
                }
                proof {
                    assert(out@ =~= deps@);
                }
                Some(out)
            },
        };
        let detect = match &self.detect {
            None => None,
            Some(d) => {
                let mut out: Vec<ComponentMatcher> = Vec::new();
                let mut i: usize = 0;
                while i < d.len()
                    invariant
                        0 <= i <= d@.len(),
                        out@.len() == i,
                        forall|k: int| 0 <= k < i ==> #[trigger] out@[k] == d@[k],
                    decreases d@.len() - i,
                {
                    out.push(d[i]);
                    i += 1;
                }
                proof {
                    assert(out@ =~= d@);
                }
                Some(out)
            },
        };
        let extensions = match &self.extensions {
            None => None,
            Some(e) => {
                let copied = copy_strings(e);
                proof {
                    assert(copied@ =~= e@);
                }
                Some(copied)
            },
        };
        let files = match &self.files {
            None => None,
            Some(RuleFiles::FilesRegex { files, example }) => Some(
                RuleFiles::FilesRegex { files: files.clone(), example: example.clone() },
            ),
            Some(RuleFiles::FilesArray { files }) => {
                let copied = copy_strings(files);
                proof {
                    assert(copied@ =~= files@);
                }
                Some(RuleFiles::FilesArray { files: copied })
            },
            Some(RuleFiles::NoFiles) => Some(RuleFiles::NoFiles),
            Some(RuleFiles::MatchFullPath { match_full_path, files, example }) => Some(
                RuleFiles::MatchFullPath {
                    match_full_path: *match_full_path,
                    files: files.clone(),
                    example: example.clone(),
                },
            ),
        };
        Rule {
            tech: self.tech.clone(),
            name: self.name.clone(),
            rule_type: self.rule_type.clone(),
            dependencies,
            detect,
            extensions,
            files,
            example: clone_opt(&self.example),
        }
    }
}

impl Default for Rule {
    /// A rule with empty keys and no matchers.
    fn default() -> (r: Rule)
        ensures
            r.tech@ == Seq::<char>::empty(),
            r.name@ == Seq::<char>::empty(),
            r.rule_type@ == Seq::<char>::empty(),
            r.dependencies is None,
            r.detect is None,
            r.extensions is None,
            r.files is None,
            r.example is None,
    {
        Rule {
            tech: String::new(),
            name: String::new(),
            rule_type: String::new(),
            dependencies: None,
            detect: None,
            extensions: None,
            files: None,
            example: None,
        }
    }
}

} // verus!
