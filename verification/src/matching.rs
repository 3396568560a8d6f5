//! The matching engine: file-name, extension and dependency matchers
//! applied to a directory's listing and to extracted dependency names,
//! producing technology keys with human-readable evidence.

use vstd::prelude::*;

use crate::loader::{Compiled, DependencyMatcher, ExtensionMatcher, FileMatcher};
use crate::provider::ProviderFile;
use crate::regexes::{regex_is_match, regex_match, regex_source};
use crate::register::{lookup_rule, Registry};
use crate::strutil::{contains_str, spec_extension, spec_replace, str_views};
use crate::types::Rule;

verus! {

/// The name a matcher sees for a file: the plain name, or the path.
pub open spec fn chosen_name(f: ProviderFile, full: bool) -> Seq<char> {
    if full {
        f.fp@
    } else {
        f.name@
    }
}

/// The first file of the listing whose chosen name is in `names`.
pub open spec fn first_file_in(files: Seq<ProviderFile>, names: Seq<Seq<char>>, full: bool) -> Option<
    Seq<char>,
>
    decreases files.len(),
{
    if files.len() == 0 {
        None
    } else if names.contains(chosen_name(files[0], full)) {
        Some(chosen_name(files[0], full))
    } else {
        first_file_in(files.skip(1), names, full)
    }
}

/// The first file of the listing whose chosen name the pattern matches.
pub open spec fn first_regex_match(files: Seq<ProviderFile>, pattern: Seq<char>, full: bool) -> Option<
    Seq<char>,
>
    decreases files.len(),
{
    if files.len() == 0 {
        None
    } else if regex_match(pattern, chosen_name(files[0], full)) {
        Some(chosen_name(files[0], full))
    } else {
        first_regex_match(files.skip(1), pattern, full)
    }
}

/// Match a rule's exact file-name list against a listing: the first
/// file whose name is in the list wins, paired with the rule looked
/// up under `key`.
pub fn match_files<'a>(
    registry: &'a Registry,
    key: &str,
    files: &Vec<ProviderFile>,
    match_names: &Vec<String>,
    match_full_path: bool,
) -> (r: Option<(&'a Rule, String)>)
    requires
        registry.wf(),
    ensures
        match r {
            Some(hit) => first_file_in(files@, str_views(match_names@), match_full_path) == Some(
                hit.1@,
            ) && lookup_rule(registry.registered_rules@, key@) == Some(*hit.0),
            None => first_file_in(files@, str_views(match_names@), match_full_path) is None
                || lookup_rule(registry.registered_rules@, key@) is None,
        },
{
    let n = files.len();
    let mut i: usize = 0;
    proof {
        assert(files@.skip(0) =~= files@);
    }
    while i < n
        invariant
            registry.wf(),
            n == files@.len(),
            0 <= i <= n,
            first_file_in(files@, str_views(match_names@), match_full_path) == first_file_in(
                files@.skip(i as int),
                str_views(match_names@),
                match_full_path,
            ),
        decreases n - i,
    {
        let name = if match_full_path {
            &files[i].fp
        } else {
            &files[i].name
        };
        proof {
            assert(files@.skip(i as int)[0] == files@[i as int]);
        }
        if contains_str(match_names, name.as_str()) {
            match registry.find_rule(key) {
                Some(rule) => {
                    return Some((rule, name.clone()));
                },
                None => {
                    return None;
                },
            }
        }
        proof {
            assert(files@.skip(i as int).skip(1) =~= files@.skip(i + 1));
        }
        i += 1;
    }
    proof {
        assert(files@.skip(n as int) =~= Seq::<ProviderFile>::empty());
    }
    None
}

/// Match a rule's file-name pattern against a listing: the first file
/// the pattern matches wins.
pub fn match_files_regex<'a>(
    registry: &'a Registry,
    key: &str,
    files: &Vec<ProviderFile>,
    pattern: &regex::Regex,
    match_full_path: bool,
) -> (r: Option<(&'a Rule, String)>)
    requires
        registry.wf(),
    ensures
        match r {
            Some(hit) => first_regex_match(files@, regex_source(*pattern), match_full_path)
                == Some(hit.1@) && lookup_rule(registry.registered_rules@, key@) == Some(*hit.0),
            None => first_regex_match(files@, regex_source(*pattern), match_full_path) is None
                || lookup_rule(registry.registered_rules@, key@) is None,
        },
{
    let n = files.len();
    let mut i: usize = 0;
    proof {
        assert(files@.skip(0) =~= files@);
    }
    while i < n
        invariant
            registry.wf(),
            n == files@.len(),
            0 <= i <= n,
            first_regex_match(files@, regex_source(*pattern), match_full_path)
                == first_regex_match(
                files@.skip(i as int),
                regex_source(*pattern),
                match_full_path,
            ),
        decreases n - i,
    {
        let name = if match_full_path {
            &files[i].fp
        } else {
            &files[i].name
        };
        proof {
            assert(files@.skip(i as int)[0] == files@[i as int]);
        }
        if regex_is_match(pattern, name.as_str()) {
            match registry.find_rule(key) {
                Some(rule) => {
                    return Some((rule, name.clone()));
                },
                None => {
                    return None;
                },
            }
        }
        proof {
            assert(files@.skip(i as int).skip(1) =~= files@.skip(i + 1));
        }
        i += 1;
    }
    proof {
        assert(files@.skip(n as int) =~= Seq::<ProviderFile>::empty());
    }
    None
}

/// The first member of `list` present in `present`.
pub open spec fn first_in(list: Seq<Seq<char>>, present: Seq<Seq<char>>) -> Option<Seq<char>>
    decreases list.len(),
{
    if list.len() == 0 {
        None
    } else if present.contains(list[0]) {
        Some(list[0])
    } else {
        first_in(list.skip(1), present)
    }
}

/// Match a rule's extension list against the extensions present in a
/// directory: the first of the rule's extensions that is present wins.
pub fn match_extensions<'a>(
    registry: &'a Registry,
    key: &str,
    list: &Vec<String>,
    extensions: &Vec<String>,
) -> (r: Option<(&'a Rule, String)>)
    requires
        registry.wf(),
    ensures
        match r {
            Some(hit) => first_in(str_views(list@), str_views(extensions@)) == Some(hit.1@)
                && lookup_rule(registry.registered_rules@, key@) == Some(*hit.0),
            None => first_in(str_views(list@), str_views(extensions@)) is None || lookup_rule(
                registry.registered_rules@,
                key@,
            ) is None,
        },
{
    let n = list.len();
    let mut i: usize = 0;
    proof {
        assert(str_views(list@).skip(0) =~= str_views(list@));
    }
    while i < n
        invariant
            registry.wf(),
            n == list@.len(),
            0 <= i <= n,
            first_in(str_views(list@), str_views(extensions@)) == first_in(
                str_views(list@).skip(i as int),
                str_views(extensions@),
            ),
        decreases n - i,
    {
        proof {
            assert(str_views(list@).skip(i as int)[0] == str_views(list@)[i as int]);
        }
        if contains_str(extensions, list[i].as_str()) {
            match registry.find_rule(key) {
                Some(rule) => {
                    return Some((rule, list[i].clone()));
                },
                None => {
                    return None;
                },
            }
        }
        proof {
            assert(str_views(list@).skip(i as int).skip(1) =~= str_views(list@).skip(i + 1));
        }
        i += 1;
    }
    proof {
        assert(str_views(list@).skip(n as int) =~= Seq::<Seq<char>>::empty());
    }
    None
}

/// The views of an evidence map: technology key to evidence lines.
pub open spec fn assoc_views(v: Seq<(String, Vec<String>)>) -> Seq<(Seq<char>, Seq<Seq<char>>)> {
    v.map_values(|e: (String, Vec<String>)| (e.0@, str_views(e.1@)))
}

/// The first entry keyed `tech`.
pub open spec fn find_entry(acc: Seq<(Seq<char>, Seq<Seq<char>>)>, tech: Seq<char>) -> Option<int>
    decreases acc.len(),
{
    if acc.len() == 0 {
        None
    } else if acc[0].0 == tech {
        Some(0int)
    } else {
        match find_entry(acc.skip(1), tech) {
            None => None,
            Some(i) => Some(i + 1),
        }
    }
}

/// Record one more piece of evidence for `tech`: appended to its
/// entry, or opening a new entry at the end.
pub open spec fn upsert_entry(
    acc: Seq<(Seq<char>, Seq<Seq<char>>)>,
    tech: Seq<char>,
    msg: Seq<char>,
) -> Seq<(Seq<char>, Seq<Seq<char>>)> {
    match find_entry(acc, tech) {
        Some(i) => acc.update(i, (tech, acc[i].1.push(msg))),
        None => acc.push((tech, seq![msg])),
    }
}

/// The technology keys of an evidence map's entries.
pub open spec fn assoc_keys(m: Seq<(Seq<char>, Seq<Seq<char>>)>) -> Seq<Seq<char>> {
    m.map_values(|e: (Seq<char>, Seq<Seq<char>>)| e.0)
}

/// The evidence lines of an evidence map's entries.
pub open spec fn assoc_reasons(m: Seq<(Seq<char>, Seq<Seq<char>>)>) -> Seq<Seq<Seq<char>>> {
    m.map_values(|e: (Seq<char>, Seq<Seq<char>>)| e.1)
}

/// The views of the dependency matchers: ecosystem, pattern, claimed
/// technology.
pub open spec fn dm_views(ms: Seq<DependencyMatcher>) -> Seq<(Seq<char>, Seq<char>, Seq<char>)> {
    ms.map_values(|m: DependencyMatcher| (m.dep_type@, m.pattern@, m.tech@))
}

/// One package name run through the matchers of one ecosystem.
pub open spec fn spec_match_one_pkg(
    acc: Seq<(Seq<char>, Seq<Seq<char>>)>,
    ms: Seq<(Seq<char>, Seq<char>, Seq<char>)>,
    eco: Seq<char>,
    pkg: Seq<char>,
) -> Seq<(Seq<char>, Seq<Seq<char>>)>
    decreases ms.len(),
{
    if ms.len() == 0 {
        acc
    } else {
        let front = spec_match_one_pkg(acc, ms.drop_last(), eco, pkg);
        let m = ms.last();
        if m.0 == eco && regex_match(m.1, pkg) {
            upsert_entry(front, m.2, "matched: "@ + m.2)
        } else {
            front
        }
    }
}

/// Every package name run through the matchers, in order.
pub open spec fn spec_match_deps(
    ms: Seq<(Seq<char>, Seq<char>, Seq<char>)>,
    eco: Seq<char>,
    pkgs: Seq<Seq<char>>,
) -> Seq<(Seq<char>, Seq<Seq<char>>)>
    decreases pkgs.len(),
{
    if pkgs.len() == 0 {
        Seq::empty()
    } else {
        spec_match_one_pkg(spec_match_deps(ms, eco, pkgs.drop_last()), ms, eco, pkgs.last())
    }
}

/// A hit at the first matching key is what `find_entry` returns.
proof fn lemma_find_entry_hit(acc: Seq<(Seq<char>, Seq<Seq<char>>)>, tech: Seq<char>, i: int)
    requires
        0 <= i < acc.len(),
        acc[i].0 == tech,
        forall|k: int| 0 <= k < i ==> (#[trigger] acc[k]).0 != tech,
    ensures
        find_entry(acc, tech) == Some(i),
    decreases i,
{
    if i > 0 {
        assert(acc.skip(1)[i - 1] == acc[i]);
        assert forall|k: int| 0 <= k < i - 1 implies (#[trigger] acc.skip(1)[k]).0 != tech by {
            assert(acc.skip(1)[k] == acc[k + 1]);
        }
        lemma_find_entry_hit(acc.skip(1), tech, i - 1);
    }
}

/// Without any matching key the entry lookup returns nothing.
proof fn lemma_find_entry_miss(acc: Seq<(Seq<char>, Seq<Seq<char>>)>, tech: Seq<char>)
    requires
        forall|k: int| 0 <= k < acc.len() ==> (#[trigger] acc[k]).0 != tech,
    ensures
        find_entry(acc, tech) is None,
    decreases acc.len(),
{
    if acc.len() > 0 {
        assert forall|k: int| 0 <= k < acc.skip(1).len() implies (#[trigger] acc.skip(1)[k]).0
            != tech by {
            assert(acc.skip(1)[k] == acc[k + 1]);
        }
        lemma_find_entry_miss(acc.skip(1), tech);
    }
}

/// Record evidence `msg` for `tech` in the running evidence map.
fn upsert_exec(matched: &mut Vec<(String, Vec<String>)>, tech: &str, msg: String)
    ensures
        assoc_views(final(matched)@) == upsert_entry(assoc_views(old(matched)@), tech@, msg@),
{
    let ghost acc = assoc_views(matched@);
    let n = matched.len();
    let mut i: usize = 0;
    while i < n
        invariant
            *matched == *old(matched),
            acc == assoc_views(matched@),
            n == matched@.len(),
            0 <= i <= n,
            forall|k: int| 0 <= k < i ==> (#[trigger] acc[k]).0 != tech@,
        decreases n - i,
    {
        if crate::strutil::str_eq(matched[i].0.as_str(), tech) {
            proof {
                lemma_find_entry_hit(acc, tech@, i as int);
            }
            let mut entry = matched.remove(i);
            entry.1.push(msg);
            matched.insert(i, entry);
            proof {
                assert(assoc_views(matched@) =~= upsert_entry(acc, tech@, msg@)) by {
                    assert forall|j: int| 0 <= j < matched@.len() implies assoc_views(
                        matched@,
                    )[j] == upsert_entry(acc, tech@, msg@)[j] by {
                        if j < i as int {
                            assert(matched@[j] == old(matched)@[j]);
                        } else if j > i as int {
                            assert(matched@[j] == old(matched)@.remove(i as int).insert(
                                i as int,
                                matched@[i as int],
                            )[j]);
                            assert(matched@[j] == old(matched)@[j]);
                        } else {
                            assert(str_views(matched@[j].1@) =~= acc[j].1.push(msg@));
                        }
                    }
                }
            }
            return ;
        }
        i += 1;
    }
    proof {
        lemma_find_entry_miss(acc, tech@);
    }
    let mut lines: Vec<String> = Vec::new();
    lines.push(msg);
    matched.push((String::from_str(tech), lines));
    proof {
        assert(str_views(matched@.last().1@) =~= seq![msg@]);
        assert(assoc_views(matched@) =~= acc.push((tech@, seq![msg@])));
    }
}

/// Whether the evidence map already claims `tech`.
pub open spec fn has_entry(acc: Seq<(Seq<char>, Seq<Seq<char>>)>, tech: Seq<char>) -> bool {
    exists|k: int| 0 <= k < acc.len() && (#[trigger] acc[k]).0 == tech
}

/// Whether the running evidence map claims `tech`.
fn has_entry_exec(matched: &Vec<(String, Vec<String>)>, tech: &str) -> (r: bool)
    ensures
        r == has_entry(assoc_views(matched@), tech@),
{
    let ghost acc = assoc_views(matched@);
    let n = matched.len();
    let mut i: usize = 0;
    while i < n
        invariant
            acc == assoc_views(matched@),
            n == matched@.len(),
            0 <= i <= n,
            forall|k: int| 0 <= k < i ==> (#[trigger] acc[k]).0 != tech@,
        decreases n - i,
    {
        if crate::strutil::str_eq(matched[i].0.as_str(), tech) {
            proof {
                assert(acc[i as int].0 == tech@);
            }
            return true;
        }
        i += 1;
    }
    false
}

/// What one file matcher finds in a listing.
pub open spec fn fm_hit(m: FileMatcher, files: Seq<ProviderFile>) -> Option<Seq<char>> {
    match m {
        FileMatcher::Names { files: names, .. } => first_file_in(files, str_views(names@), false),
        FileMatcher::Pattern { pattern, .. } => first_regex_match(files, pattern@, false),
    }
}

/// The evidence map after the file-name matchers ran, in load order:
/// the first matcher to claim a technology wins it; a later match for
/// the same key never overwrites it.
pub open spec fn spec_file_stage(
    rules: Seq<Rule>,
    ms: Seq<FileMatcher>,
    files: Seq<ProviderFile>,
    base: Seq<char>,
) -> Seq<(Seq<char>, Seq<Seq<char>>)>
    decreases ms.len(),
{
    if ms.len() == 0 {
        Seq::empty()
    } else {
        let front = spec_file_stage(rules, ms.drop_last(), files, base);
        let m = ms.last();
        if fm_hit(m, files) matches Some(nm) && lookup_rule(rules, m.tech_of()) is Some
            && !has_entry(front, m.tech_of()) {
            front.push(
                (
                    m.tech_of(),
                    seq!["matched file: "@ + spec_replace(
                        fm_hit(m, files)->0,
                        base,
                        Seq::<char>::empty(),
                    )],
                ),
            )
        } else {
            front
        }
    }
}

/// The distinct extensions present among the listing's entries, in
/// order of first appearance.
pub open spec fn exts_of(files: Seq<ProviderFile>) -> Seq<Seq<char>>
    decreases files.len(),
{
    if files.len() == 0 {
        Seq::empty()
    } else {
        let front = exts_of(files.drop_last());
        match spec_extension(files.last().name@) {
            Some(e) => if front.contains(e) {
                front
            } else {
                front.push(e)
            },
            None => front,
        }
    }
}

/// The evidence map after the extension matchers ran over the
/// extensions present: a technology already claimed is not re-added.
pub open spec fn spec_ext_stage(
    rules: Seq<Rule>,
    acc: Seq<(Seq<char>, Seq<Seq<char>>)>,
    ems: Seq<ExtensionMatcher>,
    present: Seq<Seq<char>>,
) -> Seq<(Seq<char>, Seq<Seq<char>>)>
    decreases ems.len(),
{
    if ems.len() == 0 {
        acc
    } else {
        let front = spec_ext_stage(rules, acc, ems.drop_last(), present);
        let m = ems.last();
        if first_in(str_views(m.extensions@), present) is Some && lookup_rule(
            rules,
            m.tech@,
        ) is Some && !has_entry(front, m.tech@) {
            front.push(
                (m.tech@, seq!["matched extension: "@ + first_in(str_views(m.extensions@), present)->0]),
            )
        } else {
            front
        }
    }
}

/// The whole file-and-extension matching pass over one listing.
pub open spec fn spec_match_all(
    rules: Seq<Rule>,
    ms: Seq<FileMatcher>,
    ems: Seq<ExtensionMatcher>,
    files: Seq<ProviderFile>,
    base: Seq<char>,
) -> Seq<(Seq<char>, Seq<Seq<char>>)> {
    spec_ext_stage(rules, spec_file_stage(rules, ms, files, base), ems, exts_of(files))
}

/// Run every file-name and extension matcher over one directory
/// listing: the technology-to-evidence map of this level. File-name
/// matches take precedence; each technology is claimed at most once.
pub fn match_all_files(
    registry: &Registry,
    compiled: &Compiled,
    files: &Vec<ProviderFile>,
    base_path: &str,
) -> (r: Vec<(String, Vec<String>)>)
    requires
        registry.wf(),
        compiled.wf(),
    ensures
        assoc_views(r@) == spec_match_all(
            registry.registered_rules@,
            compiled.techs@,
            compiled.extensions@,
            files@,
            base_path@,
        ),
{
    let mut matched: Vec<(String, Vec<String>)> = Vec::new();
    let nm = compiled.techs.len();
    let mut mi: usize = 0;
    proof {
        assert(assoc_views(matched@) =~= Seq::<(Seq<char>, Seq<Seq<char>>)>::empty());
        assert(compiled.techs@.take(0) =~= Seq::<FileMatcher>::empty());
    }
    while mi < nm
        invariant
            registry.wf(),
            compiled.wf(),
            nm == compiled.techs@.len(),
            0 <= mi <= nm,
            assoc_views(matched@) == spec_file_stage(
                registry.registered_rules@,
                compiled.techs@.take(mi as int),
                files@,
                base_path@,
            ),
        decreases nm - mi,
    {
        let ghost front = assoc_views(matched@);
        let hit = match &compiled.techs[mi] {
            FileMatcher::Names { tech, files: names } => match_files(
                registry,
                tech.as_str(),
                files,
                names,
                false,
            ),
            FileMatcher::Pattern { tech, re, .. } => {
                proof {
                    assert(compiled.techs@[mi as int].wf());
                }
                match_files_regex(registry, tech.as_str(), files, re, false)
            },
        };
        match hit {
            Some((rule, path)) => {
                proof {
                    crate::register::lemma_lookup_rule_tech(
                        registry.registered_rules@,
                        compiled.techs@[mi as int].tech_of(),
                    );
                }
                if !has_entry_exec(&matched, rule.tech.as_str()) {
                    let display = crate::strutil::replace_str(path.as_str(), base_path, "");
                    proof {
                        reveal_strlit("matched file: ");
                        reveal_strlit("");
                        assert(""@ =~= Seq::<char>::empty());
                    }
                    let mut msg = String::from_str("matched file: ");
                    msg.append(display.as_str());
                    let mut lines: Vec<String> = Vec::new();
                    lines.push(msg);
                    matched.push((rule.tech.clone(), lines));
                    proof {
                        assert(str_views(matched@.last().1@) =~= seq![msg@]);
                        assert(assoc_views(matched@) =~= front.push(
                            (
                                compiled.techs@[mi as int].tech_of(),
                                seq!["matched file: "@ + spec_replace(
                                    path@,
                                    base_path@,
                                    Seq::<char>::empty(),
                                )],
                            ),
                        ));
                    }
                }
            },
            None => {},
        }
        proof {
            let t1 = compiled.techs@.take(mi + 1);
            assert(t1.drop_last() =~= compiled.techs@.take(mi as int));
            assert(t1.last() == compiled.techs@[mi as int]);
        }
        mi += 1;
    }
    proof {
        assert(compiled.techs@.take(nm as int) =~= compiled.techs@);
    }
    // the distinct extensions present, in order of first appearance
    let mut exts: Vec<String> = Vec::new();
    let nf = files.len();
    let mut fi: usize = 0;
    proof {
        assert(str_views(exts@) =~= exts_of(files@.take(0)));
    }
    while fi < nf
        invariant
            nf == files@.len(),
            0 <= fi <= nf,
            str_views(exts@) == exts_of(files@.take(fi as int)),
        decreases nf - fi,
    {
        let ghost before = str_views(exts@);
        match crate::strutil::extension_of(files[fi].name.as_str()) {
            Some(e) => {
                if !contains_str(&exts, e.as_str()) {
                    exts.push(e);
                    proof {
                        assert(str_views(exts@) =~= before.push(
                            spec_extension(files@[fi as int].name@)->0,
                        ));
                    }
                }
            },
            None => {},
        }
        proof {
            let t1 = files@.take(fi + 1);
            assert(t1.drop_last() =~= files@.take(fi as int));
            assert(t1.last() == files@[fi as int]);
        }
        fi += 1;
    }
    proof {
        assert(files@.take(nf as int) =~= files@);
    }
    // extension matchers over what is present
    let ghost after_files = assoc_views(matched@);
    let ne = compiled.extensions.len();
    let mut ei: usize = 0;
    proof {
        assert(compiled.extensions@.take(0) =~= Seq::<ExtensionMatcher>::empty());
    }
    while ei < ne
        invariant
            registry.wf(),
            compiled.wf(),
            str_views(exts@) == exts_of(files@),
            ne == compiled.extensions@.len(),
            0 <= ei <= ne,
            assoc_views(matched@) == spec_ext_stage(
                registry.registered_rules@,
                after_files,
                compiled.extensions@.take(ei as int),
                exts_of(files@),
            ),
        decreases ne - ei,
    {
        let ghost front = assoc_views(matched@);
        let em = &compiled.extensions[ei];
        match match_extensions(registry, em.tech.as_str(), &em.extensions, &exts) {
            Some((rule, ext)) => {
                proof {
                    crate::register::lemma_lookup_rule_tech(registry.registered_rules@, em.tech@);
                }
                if !has_entry_exec(&matched, rule.tech.as_str()) {
                    proof {
                        reveal_strlit("matched extension: ");
                    }
                    let mut msg = String::from_str("matched extension: ");
                    msg.append(ext.as_str());
                    let mut lines: Vec<String> = Vec::new();
                    lines.push(msg);
                    matched.push((rule.tech.clone(), lines));
                    proof {
                        assert(str_views(matched@.last().1@) =~= seq![msg@]);
                        assert(assoc_views(matched@) =~= front.push(
                            (em.tech@, seq!["matched extension: "@ + ext@]),
                        ));
                    }
                }
            },
            None => {},
        }
        proof {
            let t1 = compiled.extensions@.take(ei + 1);
            assert(t1.drop_last() =~= compiled.extensions@.take(ei as int));
            assert(t1.last() == compiled.extensions@[ei as int]);
        }
        ei += 1;
    }
    proof {
        assert(compiled.extensions@.take(ne as int) =~= compiled.extensions@);
    }
    matched
}

/// Match extracted dependency names against the matchers of one
/// ecosystem: every matcher whose pattern accepts a name claims its
/// technology, with one evidence line per accepting name.
pub fn match_dependencies(compiled: &Compiled, pkgs: &Vec<String>, dep_type: &str) -> (r: Vec<
    (String, Vec<String>),
>)
    requires
        compiled.wf(),
    ensures
        assoc_views(r@) == spec_match_deps(
            dm_views(compiled.dependencies@),
            dep_type@,
            str_views(pkgs@),
        ),
{
    let ghost ms = dm_views(compiled.dependencies@);
    let mut matched: Vec<(String, Vec<String>)> = Vec::new();
    let np = pkgs.len();
    let mut i: usize = 0;
    proof {
        assert(assoc_views(matched@) =~= Seq::<(Seq<char>, Seq<Seq<char>>)>::empty());
        assert(str_views(pkgs@).take(0) =~= Seq::<Seq<char>>::empty());
    }
    while i < np
        invariant
            compiled.wf(),
            ms == dm_views(compiled.dependencies@),
            np == pkgs@.len(),
            0 <= i <= np,
            assoc_views(matched@) == spec_match_deps(ms, dep_type@, str_views(pkgs@).take(i as int)),
        decreases np - i,
    {
        let pkg = &pkgs[i];
        let nm = compiled.dependencies.len();
        let ghost acc0 = assoc_views(matched@);
        let mut j: usize = 0;
        proof {
            assert(ms.take(0) =~= Seq::<(Seq<char>, Seq<char>, Seq<char>)>::empty());
        }
        while j < nm
            invariant
                compiled.wf(),
                ms == dm_views(compiled.dependencies@),
                nm == compiled.dependencies@.len(),
                pkg == &pkgs@[i as int],
                0 <= i < np,
                np == pkgs@.len(),
                0 <= j <= nm,
                assoc_views(matched@) == spec_match_one_pkg(
                    acc0,
                    ms.take(j as int),
                    dep_type@,
                    pkg@,
                ),
            decreases nm - j,
        {
            let m = &compiled.dependencies[j];
            let ghost before = assoc_views(matched@);
            if crate::strutil::str_eq(m.dep_type.as_str(), dep_type) && regex_is_match(
                &m.match_pattern,
                pkg.as_str(),
            ) {
                proof {
                    reveal_strlit("matched: ");
                }
                let mut msg = String::from_str("matched: ");
                msg.append(m.tech.as_str());
                upsert_exec(&mut matched, m.tech.as_str(), msg);
            }
            proof {
                let t1 = ms.take(j + 1);
                assert(t1.drop_last() =~= ms.take(j as int));
                assert(t1.last() == ms[j as int]);
                assert(ms[j as int].1 == compiled.dependencies@[j as int].pattern@);
                assert(regex_source(compiled.dependencies@[j as int].match_pattern) == ms[
                    j as int].1);
            }
            j += 1;
        }
        proof {
            assert(ms.take(nm as int) =~= ms);
            let t1 = str_views(pkgs@).take(i + 1);
            assert(t1.drop_last() =~= str_views(pkgs@).take(i as int));
            assert(t1.last() == pkgs@[i as int]@);
        }
        i += 1;
    }
    proof {
        assert(str_views(pkgs@).take(np as int) =~= str_views(pkgs@));
    }
    matched
}

} // verus!
