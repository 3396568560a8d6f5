//! The rule catalog: an explicit registry value, built once and passed
//! by reference into compilation and traversal.

use vstd::prelude::*;

use crate::strutil::str_eq;
use crate::types::Rule;

verus! {

/// Why building the catalog failed. Both are authoring bugs caught at
/// startup; nothing fails once the catalog stands.
#[derive(Debug, Clone)]
pub enum CatalogError {
    /// A second rule claimed an already registered technology key.
    RegistrationConflict { name: String },
    /// A rule holds an empty or unusable match pattern.
    InvalidRuleDefinition { name: String },
}

/// The registered rule set. The vector of rules is the catalog; the
/// key vector mirrors it for conflict checks.
#[derive(Debug)]
pub struct Registry {
    /// Technology keys seen so far, in registration order.
    pub registered_tech: Vec<String>,
    /// Every registered rule, in registration order.
    pub registered_rules: Vec<Rule>,
}

/// The first registered rule carrying technology key `tech`.
pub open spec fn lookup_rule(rules: Seq<Rule>, tech: Seq<char>) -> Option<Rule>
    decreases rules.len(),
{
    if rules.len() == 0 {
        None
    } else if rules[0].tech@ == tech {
        Some(rules[0])
    } else {
        lookup_rule(rules.skip(1), tech)
    }
}

/// The technology key of the first registered rule named `name`.
pub open spec fn lookup_key_by_name(rules: Seq<Rule>, name: Seq<char>) -> Option<Seq<char>>
    decreases rules.len(),
{
    if rules.len() == 0 {
        None
    } else if rules[0].name@ == name {
        Some(rules[0].tech@)
    } else {
        lookup_key_by_name(rules.skip(1), name)
    }
}

/// Registering `r` after `prior` succeeds exactly when its key is new.
pub open spec fn spec_register_ok(prior: Seq<Rule>, r: Rule) -> bool {
    forall|i: int| 0 <= i < prior.len() ==> (#[trigger] prior[i]).tech@ != r.tech@
}

impl Registry {
    /// The derived lookups mirror the registered rules, entry for entry.
    pub open spec fn wf(self) -> bool {
        let rules = self.registered_rules@;
        &&& self.registered_tech@.len() == rules.len()
        &&& forall|i: int|
            0 <= i < rules.len() ==> (#[trigger] self.registered_tech@[i])@ == rules[i].tech@
        &&& forall|i: int, j: int|
            0 <= i < j < rules.len() ==> (#[trigger] rules[i]).tech@ != (#[trigger] rules[j]).tech@
    }

    /// An empty registry.
    pub fn new() -> (r: Registry)
        ensures
            r.wf(),
            r.registered_rules@.len() == 0,
    {
        Registry { registered_tech: Vec::new(), registered_rules: Vec::new() }
    }

    /// The registered rule for `tech`, if any.
    pub fn find_rule(&self, tech: &str) -> (r: Option<&Rule>)
        requires
            self.wf(),
        ensures
            match r {
                Some(rule) => lookup_rule(self.registered_rules@, tech@) == Some(*rule),
                None => lookup_rule(self.registered_rules@, tech@) is None,
            },
    {
        let rules = &self.registered_rules;
        let mut i: usize = 0;
        while i < rules.len()
            invariant
                self.wf(),
                rules == self.registered_rules,
                0 <= i <= rules@.len(),
                forall|k: int| 0 <= k < i ==> (#[trigger] rules@[k]).tech@ != tech@,
            decreases rules@.len() - i,
        {
            if str_eq(rules[i].tech.as_str(), tech) {
                proof {
                    lemma_lookup_hit(rules@, tech@, i as int);
                }
                return Some(&rules[i]);
            }
            i += 1;
        }
        proof {
            lemma_lookup_miss(rules@, tech@);
        }
        None
    }

    /// The technology key registered under display name `name`, if any.
    pub fn find_key_by_name(&self, name: &str) -> (r: Option<&String>)
        requires
            self.wf(),
        ensures
            match r {
                Some(key) => lookup_key_by_name(self.registered_rules@, name@) == Some(key@),
                None => lookup_key_by_name(self.registered_rules@, name@) is None,
            },
    {
        let rules = &self.registered_rules;
        let mut i: usize = 0;
        while i < rules.len()
            invariant
                self.wf(),
                rules == self.registered_rules,
                0 <= i <= rules@.len(),
                forall|k: int| 0 <= k < i ==> (#[trigger] rules@[k]).name@ != name@,
            decreases rules@.len() - i,
        {
            if str_eq(rules[i].name.as_str(), name) {
                proof {
                    lemma_lookup_name_hit(rules@, name@, i as int);
                }
                return Some(&rules[i].tech);
            }
            i += 1;
        }
        proof {
            lemma_lookup_name_miss(rules@, name@);
        }
        None
    }
}

/// A found rule carries the key it was looked up under.
pub proof fn lemma_lookup_rule_tech(rules: Seq<Rule>, tech: Seq<char>)
    ensures
        lookup_rule(rules, tech) matches Some(r) ==> r.tech@ == tech,
    decreases rules.len(),
{
    if rules.len() > 0 && rules[0].tech@ != tech {
        lemma_lookup_rule_tech(rules.skip(1), tech);
    }
}

/// A hit at the first matching index is what the lookup returns.
proof fn lemma_lookup_hit(rules: Seq<Rule>, tech: Seq<char>, i: int)
    requires
        0 <= i < rules.len(),
        rules[i].tech@ == tech,
        forall|k: int| 0 <= k < i ==> (#[trigger] rules[k]).tech@ != tech,
    ensures
        lookup_rule(rules, tech) == Some(rules[i]),
    decreases i,
{
    if i > 0 {
        assert(rules.skip(1)[i - 1] == rules[i]);
        assert forall|k: int| 0 <= k < i - 1 implies (#[trigger] rules.skip(1)[k]).tech@ != tech by {
            assert(rules.skip(1)[k] == rules[k + 1]);
        }
        lemma_lookup_hit(rules.skip(1), tech, i - 1);
    }
}

/// Without any matching key the lookup returns nothing.
proof fn lemma_lookup_miss(rules: Seq<Rule>, tech: Seq<char>)
    requires
        forall|k: int| 0 <= k < rules.len() ==> (#[trigger] rules[k]).tech@ != tech,
    ensures
        lookup_rule(rules, tech) is None,
    decreases rules.len(),
{
    if rules.len() > 0 {
        assert forall|k: int| 0 <= k < rules.skip(1).len() implies (#[trigger] rules.skip(
            1,
        )[k]).tech@ != tech by {
            assert(rules.skip(1)[k] == rules[k + 1]);
        }
        lemma_lookup_miss(rules.skip(1), tech);
    }
}

/// A hit at the first matching name is what the name lookup returns.
proof fn lemma_lookup_name_hit(rules: Seq<Rule>, name: Seq<char>, i: int)
    requires
        0 <= i < rules.len(),
        rules[i].name@ == name,
        forall|k: int| 0 <= k < i ==> (#[trigger] rules[k]).name@ != name,
    ensures
        lookup_key_by_name(rules, name) == Some(rules[i].tech@),
    decreases i,
{
    if i > 0 {
        assert(rules.skip(1)[i - 1] == rules[i]);
        assert forall|k: int| 0 <= k < i - 1 implies (#[trigger] rules.skip(1)[k]).name@ != name by {
            assert(rules.skip(1)[k] == rules[k + 1]);
        }
        lemma_lookup_name_hit(rules.skip(1), name, i - 1);
    }
}

/// Without any matching name the name lookup returns nothing.
proof fn lemma_lookup_name_miss(rules: Seq<Rule>, name: Seq<char>)
    requires
        forall|k: int| 0 <= k < rules.len() ==> (#[trigger] rules[k]).name@ != name,
    ensures
        lookup_key_by_name(rules, name) is None,
    decreases rules.len(),
{
    if rules.len() > 0 {
        assert forall|k: int| 0 <= k < rules.skip(1).len() implies (#[trigger] rules.skip(
            1,
        )[k]).name@ != name by {
            assert(rules.skip(1)[k] == rules[k + 1]);
        }
        lemma_lookup_name_miss(rules.skip(1), name);
    }
}

/// Add one rule to the catalog. The first registration of a technology
/// key wins; a second one fails and leaves the registry as it stood.
pub fn register(registry: &mut Registry, rule: Rule) -> (r: Result<(), CatalogError>)
    requires
        old(registry).wf(),
    ensures
        final(registry).wf(),
        match r {
            Ok(()) => spec_register_ok(old(registry).registered_rules@, rule)
                && final(registry).registered_rules@ == old(registry).registered_rules@.push(rule),
            Err(e) => {
                &&& !spec_register_ok(old(registry).registered_rules@, rule)
                &&& *final(registry) == *old(registry)
                &&& e matches CatalogError::RegistrationConflict { name } && name@ == rule.name@
            },
        },
{
    let mut i: usize = 0;
    let n = registry.registered_tech.len();
    while i < n
        invariant
            registry.wf(),
            n == registry.registered_tech@.len(),
            0 <= i <= n,
            forall|k: int|
                0 <= k < i ==> (#[trigger] registry.registered_rules@[k]).tech@ != rule.tech@,
        decreases n - i,
    {
        if str_eq(registry.registered_tech[i].as_str(), rule.tech.as_str()) {
            return Err(CatalogError::RegistrationConflict { name: rule.name });
        }
        i += 1;
    }
    registry.registered_tech.push(rule.tech.clone());
    registry.registered_rules.push(rule);
    Ok(())
}

/// LAW: a batch of rules whose technology keys are pairwise distinct
/// registers without conflict, and afterwards every key is mapped to
/// its own rule — present exactly once.
pub proof fn lemma_unique_keys_register(rules: Seq<Rule>)
    requires
        forall|i: int, j: int|
            0 <= i < j < rules.len() ==> (#[trigger] rules[i]).tech@ != (#[trigger] rules[j]).tech@,
    ensures
        forall|i: int| 0 <= i < rules.len() ==> spec_register_ok(rules.take(i), #[trigger] rules[i]),
        forall|i: int|
            0 <= i < rules.len() ==> lookup_rule(rules, (#[trigger] rules[i]).tech@) == Some(
                rules[i],
            ),
        forall|i: int, j: int|
            0 <= i < rules.len() && 0 <= j < rules.len() && (#[trigger] rules[j]).tech@ == (
            #[trigger] rules[i]).tech@ ==> i == j,
{
    assert forall|i: int| 0 <= i < rules.len() implies spec_register_ok(
        rules.take(i),
        #[trigger] rules[i],
    ) by {
        assert forall|k: int| 0 <= k < i implies (#[trigger] rules.take(i)[k]).tech@
            != rules[i].tech@ by {
            assert(rules.take(i)[k] == rules[k]);
        }
    }
    assert forall|i: int| 0 <= i < rules.len() implies lookup_rule(
        rules,
        (#[trigger] rules[i]).tech@,
    ) == Some(rules[i]) by {
        lemma_lookup_hit(rules, rules[i].tech@, i);
    }
}

/// LAW: in a batch whose technology keys and display names are both
/// pairwise distinct, every display name afterwards resolves to its
/// own rule's key. Two rules may share a display name — the catalog's
/// do not — and then the first one registered wins the name lookup,
/// so the law is stated for distinct names only.
pub proof fn lemma_unique_names_resolve(rules: Seq<Rule>)
    requires
        forall|i: int, j: int|
            0 <= i < j < rules.len() ==> (#[trigger] rules[i]).name@ != (#[trigger] rules[j]).name@,
    ensures
        forall|i: int|
            0 <= i < rules.len() ==> lookup_key_by_name(rules, (#[trigger] rules[i]).name@) == Some(
                rules[i].tech@,
            ),
{
    assert forall|i: int| 0 <= i < rules.len() implies lookup_key_by_name(
        rules,
        (#[trigger] rules[i]).name@,
    ) == Some(rules[i].tech@) by {
        lemma_lookup_name_hit(rules, rules[i].name@, i);
    }
}

} // verus!
