//! Component detectors: recognize a manifest in a directory listing,
//! read it through the provider, and extract a fully-formed component
//! with its declared dependencies.

use vstd::prelude::*;

use crate::loader::Compiled;
use crate::manifest::{doc_get, json_doc, parse_json, parse_toml, parse_yaml, spec_get, toml_doc, yaml_doc, DocVal};
use crate::matching::match_dependencies;
use crate::payload::{pv_wf, Payload};
use crate::provider::{BaseProvider, ProviderFile};
use crate::regexes::{regex_is_match, regex_new};
use crate::register::Registry;
use crate::strutil::{spec_find, str_eq, str_views};

verus! {

/// The entries of an object whose values are strings, in order.
pub open spec fn spec_string_entries(es: Seq<(String, DocVal)>) -> Seq<(Seq<char>, Seq<char>)>
    decreases es.len(),
{
    if es.len() == 0 {
        Seq::empty()
    } else {
        let front = spec_string_entries(es.drop_last());
        match es.last().1 {
            DocVal::Str(s) => front.push((es.last().0@, s@)),
            _ => front,
        }
    }
}

/// The string-valued entries of a document's object under `key`, or
/// nothing when the key is absent or not an object.
pub open spec fn spec_section(doc: DocVal, key: Seq<char>) -> Seq<(Seq<char>, Seq<char>)> {
    match spec_get(doc, key) {
        Some(DocVal::Obj(es)) => spec_string_entries(es@),
        _ => Seq::empty(),
    }
}

/// The views of a name-version list.
pub open spec fn pair_views(v: Seq<(String, String)>) -> Seq<(Seq<char>, Seq<char>)> {
    v.map_values(|e: (String, String)| (e.0@, e.1@))
}

/// Collect the string-valued entries of an object.
fn string_entries(es: &Vec<(String, DocVal)>) -> (r: Vec<(String, String)>)
    ensures
        pair_views(r@) == spec_string_entries(es@),
{
    let mut out: Vec<(String, String)> = Vec::new();
    let n = es.len();
    let mut i: usize = 0;
    proof {
        assert(pair_views(out@) =~= spec_string_entries(es@.take(0)));
    }
    while i < n
        invariant
            n == es@.len(),
            0 <= i <= n,
            pair_views(out@) == spec_string_entries(es@.take(i as int)),
        decreases n - i,
    {
        let ghost before = pair_views(out@);
        match &es[i].1 {
            DocVal::Str(s) => {
                out.push((es[i].0.clone(), s.clone()));
                proof {
                    assert(pair_views(out@) =~= before.push((es@[i as int].0@, s@)));
                }
            },
            _ => {},
        }
        proof {
            let t1 = es@.take(i + 1);
            assert(t1.drop_last() =~= es@.take(i as int));
            assert(t1.last() == es@[i as int]);
        }
        i += 1;
    }
    proof {
        assert(es@.take(n as int) =~= es@);
    }
    out
}

/// The first pair keyed `key`.
pub open spec fn find_pair(ps: Seq<(Seq<char>, Seq<char>)>, key: Seq<char>) -> Option<int>
    decreases ps.len(),
{
    if ps.len() == 0 {
        None
    } else if ps[0].0 == key {
        Some(0int)
    } else {
        match find_pair(ps.skip(1), key) {
            None => None,
            Some(i) => Some(i + 1),
        }
    }
}

/// One name-version pair folded into the running list: a fresh name
/// is appended, a known name keeps its place with the newer version.
pub open spec fn spec_upsert_pair(
    acc: Seq<(Seq<char>, Seq<char>)>,
    key: Seq<char>,
    val: Seq<char>,
) -> Seq<(Seq<char>, Seq<char>)> {
    match find_pair(acc, key) {
        Some(i) => acc.update(i, (key, val)),
        None => acc.push((key, val)),
    }
}

/// A whole section folded in, pair for pair.
pub open spec fn spec_merge_pairs(
    acc: Seq<(Seq<char>, Seq<char>)>,
    src: Seq<(Seq<char>, Seq<char>)>,
) -> Seq<(Seq<char>, Seq<char>)>
    decreases src.len(),
{
    if src.len() == 0 {
        acc
    } else {
        spec_upsert_pair(spec_merge_pairs(acc, src.drop_last()), src.last().0, src.last().1)
    }
}

/// A hit at the first matching key is what `find_pair` returns.
proof fn lemma_find_pair_hit(ps: Seq<(Seq<char>, Seq<char>)>, key: Seq<char>, i: int)
    requires
        0 <= i < ps.len(),
        ps[i].0 == key,
        forall|k: int| 0 <= k < i ==> (#[trigger] ps[k]).0 != key,
    ensures
        find_pair(ps, key) == Some(i),
    decreases i,
{
    if i > 0 {
        assert(ps.skip(1)[i - 1] == ps[i]);
        assert forall|k: int| 0 <= k < i - 1 implies (#[trigger] ps.skip(1)[k]).0 != key by {
            assert(ps.skip(1)[k] == ps[k + 1]);
        }
        lemma_find_pair_hit(ps.skip(1), key, i - 1);
    }
}

/// Without any matching key `find_pair` returns nothing.
proof fn lemma_find_pair_miss(ps: Seq<(Seq<char>, Seq<char>)>, key: Seq<char>)
    requires
        forall|k: int| 0 <= k < ps.len() ==> (#[trigger] ps[k]).0 != key,
    ensures
        find_pair(ps, key) is None,
    decreases ps.len(),
{
    if ps.len() > 0 {
        assert forall|k: int| 0 <= k < ps.skip(1).len() implies (#[trigger] ps.skip(1)[k]).0
            != key by {
            assert(ps.skip(1)[k] == ps[k + 1]);
        }
        lemma_find_pair_miss(ps.skip(1), key);
    }
}

/// Fold one pair into the running name-version list.
fn upsert_pair(acc: &mut Vec<(String, String)>, key: &String, val: &String)
    ensures
        pair_views(final(acc)@) == spec_upsert_pair(pair_views(old(acc)@), key@, val@),
{
    let ghost ps = pair_views(acc@);
    let n = acc.len();
    let mut i: usize = 0;
    while i < n
        invariant
            *acc == *old(acc),
            ps == pair_views(acc@),
            n == acc@.len(),
            0 <= i <= n,
            forall|k: int| 0 <= k < i ==> (#[trigger] ps[k]).0 != key@,
        decreases n - i,
    {
        if str_eq(acc[i].0.as_str(), key.as_str()) {
            proof {
                lemma_find_pair_hit(ps, key@, i as int);
            }
            let _old_entry = acc.remove(i);
            acc.insert(i, (key.clone(), val.clone()));
            proof {
                assert(pair_views(acc@) =~= spec_upsert_pair(ps, key@, val@)) by {
                    assert forall|j: int| 0 <= j < acc@.len() implies pair_views(acc@)[j]
                        == spec_upsert_pair(ps, key@, val@)[j] by {
                        if j < i as int {
                            assert(acc@[j] == old(acc)@[j]);
                        } else if j > i as int {
                            assert(acc@[j] == old(acc)@.remove(i as int).insert(
                                i as int,
                                acc@[i as int],
                            )[j]);
                            assert(acc@[j] == old(acc)@[j]);
                        }
                    }
                }
            }
            return ;
        }
        i += 1;
    }
    proof {
        lemma_find_pair_miss(ps, key@);
    }
    acc.push((key.clone(), val.clone()));
    proof {
        assert(pair_views(acc@) =~= ps.push((key@, val@)));
    }
}

/// Fold a whole section into the running name-version list.
fn merge_pairs(acc: &mut Vec<(String, String)>, src: &Vec<(String, String)>)
    ensures
        pair_views(final(acc)@) == spec_merge_pairs(pair_views(old(acc)@), pair_views(src@)),
{
    let ghost sv = pair_views(src@);
    let n = src.len();
    let mut i: usize = 0;
    proof {
        assert(sv.take(0) =~= Seq::<(Seq<char>, Seq<char>)>::empty());
    }
    while i < n
        invariant
            n == src@.len(),
            sv == pair_views(src@),
            0 <= i <= n,
            pair_views(acc@) == spec_merge_pairs(pair_views(old(acc)@), sv.take(i as int)),
        decreases n - i,
    {
        upsert_pair(acc, &src[i].0, &src[i].1);
        proof {
            let t1 = sv.take(i + 1);
            assert(t1.drop_last() =~= sv.take(i as int));
            assert(t1.last() == sv[i as int]);
        }
        i += 1;
    }
    proof {
        assert(sv.take(n as int) =~= sv);
    }
}

/// The dependency names of name-version pairs.
pub open spec fn pair_keys(ps: Seq<(Seq<char>, Seq<char>)>) -> Seq<Seq<char>> {
    ps.map_values(|p: (Seq<char>, Seq<char>)| p.0)
}

/// The dependency names of a name-version list.
fn keys_of(pairs: &Vec<(String, String)>) -> (r: Vec<String>)
    ensures
        str_views(r@) == pair_keys(pair_views(pairs@)),
{
    let mut out: Vec<String> = Vec::new();
    let n = pairs.len();
    let mut i: usize = 0;
    while i < n
        invariant
            n == pairs@.len(),
            0 <= i <= n,
            out@.len() == i,
            forall|k: int| 0 <= k < i ==> (#[trigger] out@[k])@ == pairs@[k].0@,
        decreases n - i,
    {
        out.push(pairs[i].0.clone());
        i += 1;
    }
    proof {
        assert(str_views(out@) =~= pair_keys(pair_views(pairs@)));
    }
    out
}

/// Name-version pairs as dependency triples of one ecosystem.
pub open spec fn spec_triples(eco: Seq<char>, ps: Seq<(Seq<char>, Seq<char>)>) -> Seq<
    Seq<Seq<char>>,
> {
    ps.map_values(|p: (Seq<char>, Seq<char>)| seq![eco, p.0, p.1])
}

/// Turn name-version pairs into dependency triples.
fn triples_of(eco: &str, pairs: &Vec<(String, String)>) -> (r: Vec<Vec<String>>)
    ensures
        crate::payload::dep_views(r@) == spec_triples(eco@, pair_views(pairs@)),
{
    let mut out: Vec<Vec<String>> = Vec::new();
    let n = pairs.len();
    let mut i: usize = 0;
    while i < n
        invariant
            n == pairs@.len(),
            0 <= i <= n,
            out@.len() == i,
            forall|k: int|
                0 <= k < i ==> str_views((#[trigger] out@[k])@) == seq![
                    eco@,
                    pairs@[k].0@,
                    pairs@[k].1@,
                ],
        decreases n - i,
    {
        let mut t: Vec<String> = Vec::new();
        t.push(String::from_str(eco));
        t.push(pairs[i].0.clone());
        t.push(pairs[i].1.clone());
        proof {
            assert(str_views(t@) =~= seq![eco@, pairs@[i as int].0@, pairs@[i as int].1@]);
        }
        out.push(t);
        i += 1;
    }
    proof {
        assert(crate::payload::dep_views(out@) =~= spec_triples(eco@, pair_views(pairs@)));
    }
    out
}

/// The declared name of a package manifest, when one is there.
pub open spec fn spec_doc_name(doc: DocVal) -> Option<Seq<char>> {
    match spec_get(doc, "name"@) {
        Some(DocVal::Str(s)) => Some(s@),
        _ => None,
    }
}

/// The flattened dependency pairs of a package manifest: the runtime
/// section, then the development section, later entries overriding
/// earlier ones of the same name.
pub open spec fn spec_node_deps(doc: DocVal) -> Seq<(Seq<char>, Seq<char>)> {
    spec_merge_pairs(
        spec_merge_pairs(Seq::empty(), spec_section(doc, "dependencies"@)),
        spec_section(doc, "devDependencies"@),
    )
}

/// The string-valued entries of the section under `key`.
fn section_of(doc: &DocVal, key: &str) -> (r: Vec<(String, String)>)
    ensures
        pair_views(r@) == spec_section(*doc, key@),
{
    match doc_get(doc, key) {
        Some(DocVal::Obj(es)) => string_entries(es),
        _ => Vec::new(),
    }
}

/// What the component built from a package manifest looks like:
/// named after the manifest, one `npm` triple per declared
/// dependency, technologies and evidence from the dependency-name
/// matches, implicit children derived from them in map order.
pub open spec fn node_payload_rel(
    rules: Seq<crate::types::Rule>,
    dm: Seq<(Seq<char>, Seq<char>, Seq<char>)>,
    doc: DocVal,
    fp: Seq<char>,
    pv: crate::payload::PayloadView,
) -> bool {
    let m = crate::matching::spec_match_deps(dm, "npm"@, pair_keys(spec_node_deps(doc)));
    &&& pv.name == spec_doc_name(doc)->0
    &&& pv.path == seq![fp]
    &&& pv.dependencies == spec_triples("npm"@, spec_node_deps(doc))
    &&& pv.techs == crate::payload::spec_add_keys(
        Seq::<Seq<char>>::empty(),
        crate::matching::assoc_keys(m),
    )
    &&& pv.reason == crate::payload::spec_add_reasons(
        Seq::<Seq<char>>::empty(),
        crate::matching::assoc_reasons(m),
    )
    &&& crate::payload::implicit_chain_ok(
        rules,
        fp,
        m,
        Seq::<crate::payload::PayloadView>::empty(),
        pv.childs,
    )
    &&& pv.tech is None
    &&& pv.edges == Seq::<crate::payload::EdgeView>::empty()
    &&& pv_wf(pv)
}

/// Build the component a package manifest declares: named after the
/// manifest, carrying one `npm` triple per declared dependency, its
/// technologies annotated from those dependency names.
pub fn node_component_from_doc(
    registry: &Registry,
    compiled: &Compiled,
    doc: &DocVal,
    fp: &str,
) -> (r: Option<Payload>)
    requires
        registry.wf(),
        compiled.wf(),
    ensures
        r is Some <==> spec_doc_name(*doc) is Some,
        r matches Some(pl) ==> node_payload_rel(
            registry.registered_rules@,
            crate::matching::dm_views(compiled.dependencies@),
            *doc,
            fp@,
            pl@,
        ) && pl.parent is None,
{
    let name = match doc_get(doc, "name") {
        Some(DocVal::Str(s)) => s.clone(),
        _ => {
            return None;
        },
    };
    let mut deps: Vec<(String, String)> = Vec::new();
    proof {
        assert(pair_views(Seq::<(String, String)>::empty()) =~= Seq::<
            (Seq<char>, Seq<char>),
        >::empty());
    }
    let runtime = section_of(doc, "dependencies");
    merge_pairs(&mut deps, &runtime);
    let dev = section_of(doc, "devDependencies");
    merge_pairs(&mut deps, &dev);
    let names = keys_of(&deps);
    let techs = match_dependencies(compiled, &names, "npm");
    let mut pl = Payload::new(name.as_str(), fp);
    proof {
        let m = crate::matching::spec_match_deps(
            crate::matching::dm_views(compiled.dependencies@),
            "npm"@,
            pair_keys(spec_node_deps(*doc)),
        );
        assert(crate::matching::assoc_views(techs@) == m);
        assert(crate::payload::map_keys(techs@) =~= crate::matching::assoc_keys(m));
        assert(crate::payload::map_reasons(techs@) =~= crate::matching::assoc_reasons(m));
        assert(crate::payload::map_entry_views(techs@) =~= m);
    }
    pl.add_techs(registry, &techs);
    let ghost mid = pl@;
    pl.dependencies = triples_of("npm", &deps);
    proof {
        crate::payload::lemma_wf_same_content(mid, pl@);
    }
    Some(pl)
}

/// The version or locator of one manifest dependency value: a bare
/// string is the version; a table is read as a path locator, a
/// source-control locator pinned to its branch or revision (or
/// `latest`), or a plain version, in that order; anything else is
/// `latest`.
pub open spec fn spec_version_of(v: DocVal) -> Seq<char> {
    match v {
        DocVal::Str(s) => s@,
        DocVal::Obj(es) => spec_table_version(v),
        _ => "latest"@,
    }
}

/// The locator or version a dependency table encodes.
pub open spec fn spec_table_version(v: DocVal) -> Seq<char> {
    match spec_get(v, "path"@) {
        Some(DocVal::Str(p)) => match spec_get(v, "version"@) {
            Some(DocVal::Str(ver)) => "path:"@ + p@ + ":"@ + ver@,
            _ => "path:"@ + p@,
        },
        _ => match spec_get(v, "git"@) {
            Some(DocVal::Str(g)) => "git:"@ + g@ + "#"@ + spec_git_suffix(v),
            _ => match spec_get(v, "version"@) {
                Some(DocVal::Str(ver)) => ver@,
                _ => "latest"@,
            },
        },
    }
}

/// The reference a source-control dependency is pinned to.
pub open spec fn spec_git_suffix(v: DocVal) -> Seq<char> {
    match spec_get(v, "branch"@) {
        Some(DocVal::Str(b)) => b@,
        _ => match spec_get(v, "rev"@) {
            Some(DocVal::Str(rv)) => rv@,
            _ => "latest"@,
        },
    }
}

/// Read one dependency value's version or locator.
fn version_of(v: &DocVal) -> (r: String)
    ensures
        r@ == spec_version_of(*v),
{
    match v {
        DocVal::Str(s) => s.clone(),
        DocVal::Obj(_) => {
            if let Some(DocVal::Str(p)) = doc_get(v, "path") {
                let mut out = String::from_str("path:");
                out.append(p.as_str());
                match doc_get(v, "version") {
                    Some(DocVal::Str(ver)) => {
                        out.append(":");
                        out.append(ver.as_str());
                        proof {
                            reveal_strlit(":");
                        }
                        out
                    },
                    _ => out,
                }
            } else if let Some(DocVal::Str(g)) = doc_get(v, "git") {
                let mut out = String::from_str("git:");
                out.append(g.as_str());
                out.append("#");
                proof {
                    reveal_strlit("#");
                }
                match doc_get(v, "branch") {
                    Some(DocVal::Str(b)) => {
                        out.append(b.as_str());
                        out
                    },
                    _ => {
                        match doc_get(v, "rev") {
                            Some(DocVal::Str(rv)) => {
                                out.append(rv.as_str());
                                out
                            },
                            _ => {
                                out.append("latest");
                                out
                            },
                        }
                    },
                }
            } else if let Some(DocVal::Str(ver)) = doc_get(v, "version") {
                ver.clone()
            } else {
                String::from_str("latest")
            }
        },
        _ => String::from_str("latest"),
    }
}

/// The dependency pairs of one manifest section, a version or locator
/// for every entry.
pub open spec fn spec_dep_entries(es: Seq<(String, DocVal)>) -> Seq<(Seq<char>, Seq<char>)>
    decreases es.len(),
{
    if es.len() == 0 {
        Seq::empty()
    } else {
        spec_dep_entries(es.drop_last()).push((es.last().0@, spec_version_of(es.last().1)))
    }
}

/// The dependency pairs under `key`, when it holds an object.
pub open spec fn spec_dep_section(doc: DocVal, key: Seq<char>) -> Seq<(Seq<char>, Seq<char>)> {
    match spec_get(doc, key) {
        Some(DocVal::Obj(es)) => spec_dep_entries(es@),
        _ => Seq::empty(),
    }
}

/// Read the dependency pairs of the section under `key`.
fn dep_section_of(doc: &DocVal, key: &str) -> (r: Vec<(String, String)>)
    ensures
        pair_views(r@) == spec_dep_section(*doc, key@),
{
    match doc_get(doc, key) {
        Some(section) => {
            match section {
                DocVal::Obj(es) => {
                    let mut out: Vec<(String, String)> = Vec::new();
                    let n = es.len();
                    let mut i: usize = 0;
                    proof {
                        assert(pair_views(out@) =~= spec_dep_entries(es@.take(0)));
                    }
                    while i < n
                        invariant
                            n == es@.len(),
                            0 <= i <= n,
                            pair_views(out@) == spec_dep_entries(es@.take(i as int)),
                        decreases n - i,
                    {
                        let ghost before = pair_views(out@);
                        let ver = version_of(&es[i].1);
                        out.push((es[i].0.clone(), ver));
                        proof {
                            assert(pair_views(out@) =~= before.push(
                                (es@[i as int].0@, spec_version_of(es@[i as int].1)),
                            ));
                            let t1 = es@.take(i + 1);
                            assert(t1.drop_last() =~= es@.take(i as int));
                            assert(t1.last() == es@[i as int]);
                        }
                        i += 1;
                    }
                    proof {
                        assert(es@.take(n as int) =~= es@);
                    }
                    out
                },
                _ => Vec::new(),
            }
        },
        None => Vec::new(),
    }
}

/// The declared name of a build manifest: its package's name, or
/// `virtual` for a bare workspace manifest.
pub open spec fn spec_rust_name(doc: DocVal) -> Seq<char> {
    match spec_get(doc, "package"@) {
        Some(pkg) => match spec_get(pkg, "name"@) {
            Some(DocVal::Str(s)) => s@,
            _ => "virtual"@,
        },
        _ => "virtual"@,
    }
}

/// The flattened dependency pairs of a build manifest: runtime,
/// development and build sections, then the workspace's own, later
/// sections overriding earlier entries of the same name.
pub open spec fn spec_rust_deps(doc: DocVal) -> Seq<(Seq<char>, Seq<char>)> {
    let a = spec_merge_pairs(Seq::empty(), spec_dep_section(doc, "dependencies"@));
    let b = spec_merge_pairs(a, spec_dep_section(doc, "dev-dependencies"@));
    let c = spec_merge_pairs(b, spec_dep_section(doc, "build-dependencies"@));
    match spec_get(doc, "workspace"@) {
        Some(ws) => spec_merge_pairs(c, spec_dep_section(ws, "dependencies"@)),
        None => c,
    }
}

/// What the component built from a build manifest looks like: named
/// after its package (or `virtual` for a bare workspace), one `rust`
/// triple per dependency over all sections, technologies and
/// evidence from the dependency-name matches.
pub open spec fn rust_payload_rel(
    rules: Seq<crate::types::Rule>,
    dm: Seq<(Seq<char>, Seq<char>, Seq<char>)>,
    doc: DocVal,
    fp: Seq<char>,
    pv: crate::payload::PayloadView,
) -> bool {
    let m = crate::matching::spec_match_deps(dm, "rust"@, pair_keys(spec_rust_deps(doc)));
    &&& pv.name == spec_rust_name(doc)
    &&& pv.path == seq![fp]
    &&& pv.dependencies == spec_triples("rust"@, spec_rust_deps(doc))
    &&& pv.techs == crate::payload::spec_add_keys(
        Seq::<Seq<char>>::empty(),
        crate::matching::assoc_keys(m),
    )
    &&& pv.reason == crate::payload::spec_add_reasons(
        Seq::<Seq<char>>::empty(),
        crate::matching::assoc_reasons(m),
    )
    &&& crate::payload::implicit_chain_ok(
        rules,
        fp,
        m,
        Seq::<crate::payload::PayloadView>::empty(),
        pv.childs,
    )
    &&& pv.tech is None
    &&& pv.edges == Seq::<crate::payload::EdgeView>::empty()
    &&& pv_wf(pv)
}

/// Build the component a build manifest declares: named after its
/// package (or `virtual` for a bare workspace), carrying one `rust`
/// triple per dependency over all sections, versions encoded as
/// locators for path- and source-control dependencies.
pub fn rust_component_from_doc(
    registry: &Registry,
    compiled: &Compiled,
    doc: &DocVal,
    fp: &str,
) -> (pl: Payload)
    requires
        registry.wf(),
        compiled.wf(),
    ensures
        rust_payload_rel(
            registry.registered_rules@,
            crate::matching::dm_views(compiled.dependencies@),
            *doc,
            fp@,
            pl@,
        ),
        pl.parent is None,
{
    let name = match doc_get(doc, "package") {
        Some(pkg) => match doc_get(pkg, "name") {
            Some(DocVal::Str(s)) => s.clone(),
            _ => String::from_str("virtual"),
        },
        _ => String::from_str("virtual"),
    };
    let mut deps: Vec<(String, String)> = Vec::new();
    proof {
        assert(pair_views(Seq::<(String, String)>::empty()) =~= Seq::<
            (Seq<char>, Seq<char>),
        >::empty());
    }
    let runtime = dep_section_of(doc, "dependencies");
    merge_pairs(&mut deps, &runtime);
    let dev = dep_section_of(doc, "dev-dependencies");
    merge_pairs(&mut deps, &dev);
    let build = dep_section_of(doc, "build-dependencies");
    merge_pairs(&mut deps, &build);
    match doc_get(doc, "workspace") {
        Some(ws) => {
            let wsd = dep_section_of(ws, "dependencies");
            merge_pairs(&mut deps, &wsd);
        },
        None => {},
    }
    let names = keys_of(&deps);
    let techs = match_dependencies(compiled, &names, "rust");
    let mut pl = Payload::new(name.as_str(), fp);
    proof {
        let m = crate::matching::spec_match_deps(
            crate::matching::dm_views(compiled.dependencies@),
            "rust"@,
            pair_keys(spec_rust_deps(*doc)),
        );
        assert(crate::matching::assoc_views(techs@) == m);
        assert(crate::payload::map_keys(techs@) =~= crate::matching::assoc_keys(m));
        assert(crate::payload::map_reasons(techs@) =~= crate::matching::assoc_reasons(m));
        assert(crate::payload::map_entry_views(techs@) =~= m);
    }
    pl.add_techs(registry, &techs);
    let ghost mid = pl@;
    pl.dependencies = triples_of("rust", &deps);
    proof {
        crate::payload::lemma_wf_same_content(mid, pl@);
    }
    pl
}

/// The service map of a multi-service descriptor, when one is there.
pub open spec fn spec_services(doc: DocVal) -> Option<Seq<(String, DocVal)>> {
    match spec_get(doc, "services"@) {
        Some(DocVal::Obj(es)) => Some(es@),
        _ => None,
    }
}

/// The image name of a reference: what stands before the first colon.
pub open spec fn spec_image_name(s: Seq<char>) -> Seq<char> {
    match spec_find(s, ':') {
        None => s,
        Some(i) => s.take(i),
    }
}

/// The tag of an image reference: what stands between the first colon
/// and the next, if any colon is there at all.
pub open spec fn spec_image_version(s: Seq<char>) -> Option<Seq<char>> {
    match spec_find(s, ':') {
        None => None,
        Some(i) => {
            let rest = s.skip(i + 1);
            match spec_find(rest, ':') {
                None => Some(rest),
                Some(j) => Some(rest.take(j)),
            }
        },
    }
}

/// Split an image reference into its name and its tag.
fn image_parts(s: &str) -> (r: (String, Option<String>))
    ensures
        r.0@ == spec_image_name(s@),
        match r.1 {
            Some(v) => spec_image_version(s@) == Some(v@),
            None => spec_image_version(s@) is None,
        },
{
    let n = s.unicode_len();
    match crate::strutil::find_char(s, ':') {
        None => {
            proof {
                crate::strutil::lemma_spec_find(s@, ':');
            }
            (String::from_str(s), None)
        },
        Some(i) => {
            proof {
                crate::strutil::lemma_spec_find(s@, ':');
            }
            let name = String::from_str(s.substring_char(0, i));
            let rest = s.substring_char(i + 1, n);
            proof {
                assert(rest@ == s@.skip(i + 1));
            }
            let version = match crate::strutil::find_char(rest, ':') {
                None => String::from_str(rest),
                Some(j) => {
                    proof {
                        crate::strutil::lemma_spec_find(rest@, ':');
                    }
                    String::from_str(rest.substring_char(0, j))
                },
            };
            proof {
                assert(name@ =~= s@.take(i as int));
            }
            (name, Some(version))
        },
    }
}

/// The image reference of one declared service, when it is readable.
pub open spec fn compose_image(svc: DocVal) -> Option<Seq<char>> {
    match spec_get(svc, "image"@) {
        Some(DocVal::Str(s)) => Some(s@),
        _ => None,
    }
}

/// Whether a declared service yields a component: its image reference
/// is readable and is not an unresolved variable placeholder.
pub open spec fn compose_service_emitted(svc: DocVal) -> bool {
    compose_image(svc) matches Some(img) && !(img.len() > 0 && img[0] == '$')
}

/// The shape of the child one emitted service yields: named by its
/// container name (else the service key), one `docker` triple from
/// the image name and tag (`latest` when unspecified), its technology
/// and evidence from the first docker dependency match on the image
/// name.
pub open spec fn compose_child_ok(
    ms: Seq<(Seq<char>, Seq<char>, Seq<char>)>,
    fp: Seq<char>,
    key: Seq<char>,
    svc: DocVal,
    c: crate::payload::PayloadView,
) -> bool {
    let img = compose_image(svc)->0;
    let iname = spec_image_name(img);
    let iver = match spec_image_version(img) {
        Some(v) => v,
        None => "latest"@,
    };
    let m = crate::matching::spec_match_deps(ms, "docker"@, seq![iname]);
    &&& c.name == (match spec_get(svc, "container_name"@) {
        Some(DocVal::Str(s)) => s@,
        _ => key,
    })
    &&& c.tech == (if m.len() > 0 {
        Some(m[0].0)
    } else {
        None
    })
    &&& c.path == seq![fp]
    &&& c.dependencies.len() == 1
    &&& c.dependencies[0].len() == 3
    &&& c.dependencies[0][0] == "docker"@
    &&& c.dependencies[0][1] == iname
    &&& c.dependencies[0][2] == iver
    &&& c.reason == seq![
        if m.len() > 0 {
            "matched: "@ + m[0].0
        } else {
            "matched: "@ + iname
        },
    ]
    &&& c.techs == Seq::<Seq<char>>::empty()
    &&& c.languages == Seq::<(Seq<char>, int)>::empty()
    &&& c.childs == Seq::<crate::payload::PayloadView>::empty()
    &&& c.edges == Seq::<crate::payload::EdgeView>::empty()
}

/// A run of intermediate child lists carrying the declared services
/// from `from` to `to`: each emitted service's child added under the
/// merge rule, in declaration order; skipped services change nothing.
pub open spec fn compose_steps_ok(
    ms: Seq<(Seq<char>, Seq<char>, Seq<char>)>,
    fp: Seq<char>,
    services: Seq<(String, DocVal)>,
    from: Seq<crate::payload::PayloadView>,
    to: Seq<crate::payload::PayloadView>,
    steps: Seq<Seq<crate::payload::PayloadView>>,
) -> bool {
    &&& steps.len() == services.len() + 1
    &&& steps[0] == from
    &&& steps[services.len() as int] == to
    &&& forall|k: int|
        0 <= k < services.len() ==> (if compose_service_emitted((#[trigger] services[k]).1) {
            exists|c: crate::payload::PayloadView|
                #[trigger] compose_child_ok(ms, fp, services[k].0@, services[k].1, c) && steps[k
                    + 1] == crate::payload::spec_add_child(steps[k], c)
        } else {
            steps[k + 1] == steps[k]
        })
}

/// How the declared services build the virtual container's children.
pub open spec fn compose_children_ok(
    ms: Seq<(Seq<char>, Seq<char>, Seq<char>)>,
    fp: Seq<char>,
    services: Seq<(String, DocVal)>,
    from: Seq<crate::payload::PayloadView>,
    to: Seq<crate::payload::PayloadView>,
) -> bool {
    exists|steps: Seq<Seq<crate::payload::PayloadView>>|
        #[trigger] compose_steps_ok(ms, fp, services, from, to, steps)
}

/// One more service extends a compose run.
proof fn lemma_compose_step(
    ms: Seq<(Seq<char>, Seq<char>, Seq<char>)>,
    fp: Seq<char>,
    services: Seq<(String, DocVal)>,
    from: Seq<crate::payload::PayloadView>,
    mid: Seq<crate::payload::PayloadView>,
    to: Seq<crate::payload::PayloadView>,
)
    requires
        services.len() > 0,
        compose_children_ok(ms, fp, services.drop_last(), from, mid),
        (if compose_service_emitted(services.last().1) {
            exists|c: crate::payload::PayloadView|
                #[trigger] compose_child_ok(ms, fp, services.last().0@, services.last().1, c)
                    && to == crate::payload::spec_add_child(mid, c)
        } else {
            to == mid
        }),
    ensures
        compose_children_ok(ms, fp, services, from, to),
{
    let front = services.drop_last();
    let steps0 = choose|steps0: Seq<Seq<crate::payload::PayloadView>>|
        #[trigger] compose_steps_ok(ms, fp, front, from, mid, steps0);
    let steps = steps0.push(to);
    assert(compose_steps_ok(ms, fp, services, from, to, steps)) by {
        assert(steps[0] == steps0[0]);
        assert(steps[services.len() as int] == to);
        assert forall|k: int| 0 <= k < services.len() implies (if compose_service_emitted(
            (#[trigger] services[k]).1,
        ) {
            exists|c: crate::payload::PayloadView|
                #[trigger] compose_child_ok(ms, fp, services[k].0@, services[k].1, c) && steps[k
                    + 1] == crate::payload::spec_add_child(steps[k], c)
        } else {
            steps[k + 1] == steps[k]
        }) by {
            if k < services.len() - 1 {
                assert(front[k] == services[k]);
                assert(steps[k] == steps0[k]);
                assert(steps[k + 1] == steps0[k + 1]);
                assert(if compose_service_emitted(front[k].1) {
                    exists|c: crate::payload::PayloadView|
                        #[trigger] compose_child_ok(ms, fp, front[k].0@, front[k].1, c) && steps0[k
                            + 1] == crate::payload::spec_add_child(steps0[k], c)
                } else {
                    steps0[k + 1] == steps0[k]
                });
            } else {
                assert(steps[k] == steps0[front.len() as int]);
                assert(steps0[front.len() as int] == mid);
                assert(services[k] == services.last());
                assert(steps[k + 1] == to);
            }
        }
    }
}

/// What the virtual container built from a multi-service descriptor
/// looks like: a bare container named `virtual`, one child per
/// emitted service in declaration order.
pub open spec fn docker_payload_rel(
    dm: Seq<(Seq<char>, Seq<char>, Seq<char>)>,
    doc: DocVal,
    fp: Seq<char>,
    pv: crate::payload::PayloadView,
) -> bool {
    &&& pv.name == "virtual"@
    &&& pv.path == seq![fp]
    &&& pv.tech is None
    &&& pv.techs == Seq::<Seq<char>>::empty()
    &&& pv.dependencies == Seq::<Seq<Seq<char>>>::empty()
    &&& pv.edges == Seq::<crate::payload::EdgeView>::empty()
    &&& compose_children_ok(
        dm,
        fp,
        spec_services(doc)->0,
        Seq::<crate::payload::PayloadView>::empty(),
        pv.childs,
    )
    &&& pv_wf(pv)
}

/// Build the virtual container a multi-service descriptor declares:
/// one child per service whose image reference can be read, each with
/// its resolved image name and tag (`latest` when unspecified). A
/// service whose image is an unresolved variable placeholder is
/// skipped entirely.
pub fn docker_components_from_doc(
    registry: &Registry,
    compiled: &Compiled,
    doc: &DocVal,
    fp: &str,
) -> (r: Option<Payload>)
    requires
        registry.wf(),
        compiled.wf(),
    ensures
        r is Some <==> spec_services(*doc) is Some,
        r matches Some(pl) ==> docker_payload_rel(
            crate::matching::dm_views(compiled.dependencies@),
            *doc,
            fp@,
            pl@,
        ) && pl.parent is None,
{
    let services = match doc_get(doc, "services") {
        Some(section) => {
            match section {
                DocVal::Obj(es) => es,
                _ => {
                    return None;
                },
            }
        },
        None => {
            return None;
        },
    };
    proof {
        assert(spec_services(*doc)->0 == services@);
    }
    let ghost ms = crate::matching::dm_views(compiled.dependencies@);
    let mut pl = Payload::new("virtual", fp);
    let n = services.len();
    let mut i: usize = 0;
    proof {
        assert(compose_steps_ok(
            ms,
            fp@,
            services@.take(0),
            pl@.childs,
            pl@.childs,
            seq![pl@.childs],
        ));
        assert(pl@.childs =~= Seq::<crate::payload::PayloadView>::empty());
    }
    while i < n
        invariant
            registry.wf(),
            compiled.wf(),
            ms == crate::matching::dm_views(compiled.dependencies@),
            n == services@.len(),
            0 <= i <= n,
            pl@.name == "virtual"@,
            pl@.path =~= seq![fp@],
            pl@.tech is None,
            pl@.techs =~= Seq::<Seq<char>>::empty(),
            pl@.dependencies =~= Seq::<Seq<Seq<char>>>::empty(),
            pl@.edges =~= Seq::<crate::payload::EdgeView>::empty(),
            pl.parent is None,
            pv_wf(pl@),
            compose_children_ok(
                ms,
                fp@,
                services@.take(i as int),
                Seq::<crate::payload::PayloadView>::empty(),
                pl@.childs,
            ),
        decreases n - i,
    {
        let ghost svc = services@[i as int].1;
        let ghost mid_childs = pl@.childs;
        let service = &services[i].1;
        let image = match doc_get(service, "image") {
            Some(DocVal::Str(s)) => Some(s.clone()),
            _ => None,
        };
        match image {
            Some(image) => {
                proof {
                    assert(compose_image(svc) == Some(image@));
                }
                let placeholder = image.as_str().unicode_len() > 0 && image.as_str().get_char(0)
                    == '$';
                if !placeholder {
                    proof {
                        assert(compose_service_emitted(svc));
                    }
                    let (image_name, version_opt) = image_parts(image.as_str());
                    let image_version = match version_opt {
                        Some(v) => v,
                        None => String::from_str("latest"),
                    };
                    let mut pkg_names: Vec<String> = Vec::new();
                    pkg_names.push(image_name.clone());
                    let matched = match_dependencies(compiled, &pkg_names, "docker");
                    proof {
                        assert(str_views(pkg_names@) =~= seq![spec_image_name(image@)]);
                        assert(crate::matching::assoc_views(matched@)
                            == crate::matching::spec_match_deps(
                            ms,
                            "docker"@,
                            seq![spec_image_name(image@)],
                        ));
                    }
                    let (tech, reason_txt) = if matched.len() > 0 {
                        proof {
                            reveal_strlit("matched: ");
                            assert(crate::matching::assoc_views(matched@)[0].0 == matched@[0].0@);
                        }
                        let mut msg = String::from_str("matched: ");
                        msg.append(matched[0].0.as_str());
                        (Some(matched[0].0.clone()), msg)
                    } else {
                        proof {
                            reveal_strlit("matched: ");
                        }
                        let mut msg = String::from_str("matched: ");
                        msg.append(image_name.as_str());
                        (None, msg)
                    };
                    let child_name = match doc_get(service, "container_name") {
                        Some(DocVal::Str(s)) => s.clone(),
                        _ => services[i].0.clone(),
                    };
                    let mut child = Payload::new(child_name.as_str(), fp);
                    let ghost c0 = child@;
                    child.tech = tech;
                    let mut triple: Vec<String> = Vec::new();
                    triple.push(String::from_str("docker"));
                    triple.push(image_name);
                    triple.push(image_version);
                    proof {
                        assert(str_views(triple@) =~= seq![
                            "docker"@,
                            spec_image_name(image@),
                            (match spec_image_version(image@) {
                                Some(v) => v,
                                None => "latest"@,
                            }),
                        ]);
                    }
                    let mut dep_list: Vec<Vec<String>> = Vec::new();
                    dep_list.push(triple);
                    child.dependencies = dep_list;
                    let mut reasons: Vec<String> = Vec::new();
                    reasons.push(reason_txt);
                    child.reason = reasons;
                    proof {
                        assert(str_views(child.reason@) =~= seq![reason_txt@]);
                        assert(pv_wf(child@)) by {
                            crate::payload::lemma_wf_same_content(
                                crate::payload::PayloadView {
                                    reason: child@.reason,
                                    ..c0
                                },
                                child@,
                            );
                        }
                        assert(crate::payload::dep_views(child.dependencies@) =~~= seq![
                            seq![
                                "docker"@,
                                spec_image_name(image@),
                                (match spec_image_version(image@) {
                                    Some(v) => v,
                                    None => "latest"@,
                                }),
                            ],
                        ]);
                        assert(image@ == compose_image(svc)->0);
                        assert(crate::payload::dep_views(child.dependencies@).len() == 1);
                        assert(crate::payload::dep_views(child.dependencies@)[0] =~= seq![
                            "docker"@,
                            spec_image_name(compose_image(svc)->0),
                            (match spec_image_version(compose_image(svc)->0) {
                                Some(v) => v,
                                None => "latest"@,
                            }),
                        ]);
                        assert(compose_child_ok(ms, fp@, services@[i as int].0@, svc, child@));
                    }
                    let ghost cv = child@;
                    pl.add_child(child);
                    proof {
                        assert(pl@.childs == crate::payload::spec_add_child(mid_childs, cv));
                        let t1 = services@.take(i + 1);
                        assert(t1.drop_last() =~= services@.take(i as int));
                        assert(t1.last() == services@[i as int]);
                        lemma_compose_step(
                            ms,
                            fp@,
                            t1,
                            Seq::<crate::payload::PayloadView>::empty(),
                            mid_childs,
                            pl@.childs,
                        );
                    }
                } else {
                    proof {
                        assert(!compose_service_emitted(svc));
                        let t1 = services@.take(i + 1);
                        assert(t1.drop_last() =~= services@.take(i as int));
                        assert(t1.last() == services@[i as int]);
                        lemma_compose_step(
                            ms,
                            fp@,
                            t1,
                            Seq::<crate::payload::PayloadView>::empty(),
                            mid_childs,
                            pl@.childs,
                        );
                    }
                }
            },
            None => {
                proof {
                    assert(!compose_service_emitted(svc));
                    let t1 = services@.take(i + 1);
                    assert(t1.drop_last() =~= services@.take(i as int));
                    assert(t1.last() == services@[i as int]);
                    lemma_compose_step(
                        ms,
                        fp@,
                        t1,
                        Seq::<crate::payload::PayloadView>::empty(),
                        mid_childs,
                        pl@.childs,
                    );
                }
            },
        }
        i += 1;
    }
    proof {
        assert(services@.take(n as int) =~= services@);
    }
    Some(pl)
}

/// Whether one listing entry yields the package component: it is
/// named for the package manifest, its content is readable, parses,
/// and declares a name.
pub open spec fn node_entry_qualifies<P: BaseProvider>(
    provider: &P,
    name: Seq<char>,
    fp: Seq<char>,
) -> bool {
    &&& name == "package.json"@
    &&& provider.open_spec(fp) matches Some(c) && json_doc(c) matches Some(doc)
        && spec_doc_name(doc) is Some
}

/// Whether one listing entry yields the build-manifest component: it
/// is named for the build manifest, its content is readable and
/// parses.
pub open spec fn rust_entry_qualifies<P: BaseProvider>(
    provider: &P,
    name: Seq<char>,
    fp: Seq<char>,
) -> bool {
    &&& name == "Cargo.toml"@
    &&& provider.open_spec(fp) matches Some(c) && toml_doc(c) is Some
}

/// Whether one listing entry yields the multi-service container: its
/// name matches the compose pattern, its content is readable, parses,
/// and declares a services map.
pub open spec fn docker_entry_qualifies<P: BaseProvider>(
    provider: &P,
    name: Seq<char>,
    fp: Seq<char>,
) -> bool {
    &&& crate::regexes::regex_match(compose_file_pattern(), name)
    &&& provider.open_spec(fp) matches Some(c) && yaml_doc(c) matches Some(doc)
        && spec_services(doc) is Some
}

/// Recognize a package manifest in the listing, read it, and extract
/// the component it declares. Absence, unreadable content, or a
/// manifest without a name is no match, never an error.
pub fn detect_node_component<P: BaseProvider>(
    registry: &Registry,
    compiled: &Compiled,
    files: &Vec<ProviderFile>,
    provider: &P,
) -> (r: Result<Payload, bool>)
    requires
        registry.wf(),
        compiled.wf(),
    ensures
        r is Ok <==> exists|i: int|
            0 <= i < files@.len() && node_entry_qualifies(
                provider,
                (#[trigger] files@[i]).name@,
                files@[i].fp@,
            ),
        r matches Ok(pl) ==> pl.parent is None && exists|i: int|
            {
                &&& 0 <= i < files@.len()
                &&& node_entry_qualifies(provider, (#[trigger] files@[i]).name@, files@[i].fp@)
                &&& forall|k: int|
                    0 <= k < i ==> !node_entry_qualifies(
                        provider,
                        (#[trigger] files@[k]).name@,
                        files@[k].fp@,
                    )
                &&& node_payload_rel(
                    registry.registered_rules@,
                    crate::matching::dm_views(compiled.dependencies@),
                    json_doc(provider.open_spec(files@[i].fp@)->0)->0,
                    files@[i].fp@,
                    pl@,
                )
            },
{
    let n = files.len();
    let mut i: usize = 0;
    while i < n
        invariant
            registry.wf(),
            compiled.wf(),
            n == files@.len(),
            0 <= i <= n,
            forall|k: int|
                0 <= k < i ==> !node_entry_qualifies(
                    provider,
                    (#[trigger] files@[k]).name@,
                    files@[k].fp@,
                ),
        decreases n - i,
    {
        if str_eq(files[i].name.as_str(), "package.json") {
            match provider.open(files[i].fp.as_str()) {
                Some(content) => {
                    match parse_json(content.as_str()) {
                        Some(doc) => {
                            proof {
                                assert(provider.open_spec(files@[i as int].fp@) == Some(
                                    content@,
                                ));
                                assert(json_doc(content@) == Some(doc));
                            }
                            match node_component_from_doc(
                                registry,
                                compiled,
                                &doc,
                                files[i].fp.as_str(),
                            ) {
                                Some(pl) => {
                                    proof {
                                        assert(node_entry_qualifies(
                                            provider,
                                            files@[i as int].name@,
                                            files@[i as int].fp@,
                                        ));
                                    }
                                    return Ok(pl);
                                },
                                None => {
                                    proof {
                                        assert(!node_entry_qualifies(
                                            provider,
                                            files@[i as int].name@,
                                            files@[i as int].fp@,
                                        ));
                                    }
                                },
                            }
                        },
                        None => {
                            proof {
                                assert(provider.open_spec(files@[i as int].fp@) == Some(
                                    content@,
                                ));
                                assert(!node_entry_qualifies(
                                    provider,
                                    files@[i as int].name@,
                                    files@[i as int].fp@,
                                ));
                            }
                        },
                    }
                },
                None => {
                    proof {
                        assert(!node_entry_qualifies(
                            provider,
                            files@[i as int].name@,
                            files@[i as int].fp@,
                        ));
                    }
                },
            }
        } else {
            proof {
                assert(!node_entry_qualifies(
                    provider,
                    files@[i as int].name@,
                    files@[i as int].fp@,
                ));
            }
        }
        i += 1;
    }
    Err(false)
}

/// Recognize a build manifest in the listing, read it, and extract
/// the component it declares.
pub fn detect_rust_component<P: BaseProvider>(
    registry: &Registry,
    compiled: &Compiled,
    files: &Vec<ProviderFile>,
    provider: &P,
) -> (r: Result<Payload, bool>)
    requires
        registry.wf(),
        compiled.wf(),
    ensures
        r is Ok <==> exists|i: int|
            0 <= i < files@.len() && rust_entry_qualifies(
                provider,
                (#[trigger] files@[i]).name@,
                files@[i].fp@,
            ),
        r matches Ok(pl) ==> pl.parent is None && exists|i: int|
            {
                &&& 0 <= i < files@.len()
                &&& rust_entry_qualifies(provider, (#[trigger] files@[i]).name@, files@[i].fp@)
                &&& forall|k: int|
                    0 <= k < i ==> !rust_entry_qualifies(
                        provider,
                        (#[trigger] files@[k]).name@,
                        files@[k].fp@,
                    )
                &&& rust_payload_rel(
                    registry.registered_rules@,
                    crate::matching::dm_views(compiled.dependencies@),
                    toml_doc(provider.open_spec(files@[i].fp@)->0)->0,
                    files@[i].fp@,
                    pl@,
                )
            },
{
    let n = files.len();
    let mut i: usize = 0;
    while i < n
        invariant
            registry.wf(),
            compiled.wf(),
            n == files@.len(),
            0 <= i <= n,
            forall|k: int|
                0 <= k < i ==> !rust_entry_qualifies(
                    provider,
                    (#[trigger] files@[k]).name@,
                    files@[k].fp@,
                ),
        decreases n - i,
    {
        if str_eq(files[i].name.as_str(), "Cargo.toml") {
            match provider.open(files[i].fp.as_str()) {
                Some(content) => {
                    match parse_toml(content.as_str()) {
                        Some(doc) => {
                            proof {
                                assert(provider.open_spec(files@[i as int].fp@) == Some(
                                    content@,
                                ));
                                assert(toml_doc(content@) == Some(doc));
                                assert(rust_entry_qualifies(
                                    provider,
                                    files@[i as int].name@,
                                    files@[i as int].fp@,
                                ));
                            }
                            let pl = rust_component_from_doc(
                                registry,
                                compiled,
                                &doc,
                                files[i].fp.as_str(),
                            );
                            return Ok(pl);
                        },
                        None => {
                            proof {
                                assert(provider.open_spec(files@[i as int].fp@) == Some(
                                    content@,
                                ));
                                assert(!rust_entry_qualifies(
                                    provider,
                                    files@[i as int].name@,
                                    files@[i as int].fp@,
                                ));
                            }
                        },
                    }
                },
                None => {
                    proof {
                        assert(!rust_entry_qualifies(
                            provider,
                            files@[i as int].name@,
                            files@[i as int].fp@,
                        ));
                    }
                },
            }
        } else {
            proof {
                assert(!rust_entry_qualifies(
                    provider,
                    files@[i as int].name@,
                    files@[i as int].fp@,
                ));
            }
        }
        i += 1;
    }
    Err(false)
}

/// The file-name pattern that marks a multi-service descriptor.
pub open spec fn compose_file_pattern() -> Seq<char> {
    "^docker-compose(.*)?\\.y(a)?ml$"@
}

/// Recognize a multi-service descriptor in the listing by its file
/// name pattern, read it, and extract one virtual component holding
/// the declared services.
pub fn detect_docker_component<P: BaseProvider>(
    registry: &Registry,
    compiled: &Compiled,
    files: &Vec<ProviderFile>,
    provider: &P,
) -> (r: Result<Payload, bool>)
    requires
        registry.wf(),
        compiled.wf(),
    ensures
        crate::regexes::regex_valid(compose_file_pattern()) ==> (r is Ok <==> exists|i: int|
            0 <= i < files@.len() && docker_entry_qualifies(
                provider,
                (#[trigger] files@[i]).name@,
                files@[i].fp@,
            )),
        !crate::regexes::regex_valid(compose_file_pattern()) ==> r is Err,
        r matches Ok(pl) ==> pl.parent is None && exists|i: int|
            {
                &&& 0 <= i < files@.len()
                &&& docker_entry_qualifies(provider, (#[trigger] files@[i]).name@, files@[i].fp@)
                &&& forall|k: int|
                    0 <= k < i ==> !docker_entry_qualifies(
                        provider,
                        (#[trigger] files@[k]).name@,
                        files@[k].fp@,
                    )
                &&& docker_payload_rel(
                    crate::matching::dm_views(compiled.dependencies@),
                    yaml_doc(provider.open_spec(files@[i].fp@)->0)->0,
                    files@[i].fp@,
                    pl@,
                )
            },
{
    let re = match regex_new("^docker-compose(.*)?\\.y(a)?ml$") {
        Some(re) => re,
        None => {
            return Err(false);
        },
    };
    let n = files.len();
    let mut i: usize = 0;
    while i < n
        invariant
            registry.wf(),
            compiled.wf(),
            crate::regexes::regex_source(re) == compose_file_pattern(),
            crate::regexes::regex_valid(compose_file_pattern()),
            n == files@.len(),
            0 <= i <= n,
            forall|k: int|
                0 <= k < i ==> !docker_entry_qualifies(
                    provider,
                    (#[trigger] files@[k]).name@,
                    files@[k].fp@,
                ),
        decreases n - i,
    {
        if regex_is_match(&re, files[i].name.as_str()) {
            match provider.open(files[i].fp.as_str()) {
                Some(content) => {
                    match parse_yaml(content.as_str()) {
                        Some(doc) => {
                            proof {
                                assert(provider.open_spec(files@[i as int].fp@) == Some(
                                    content@,
                                ));
                                assert(yaml_doc(content@) == Some(doc));
                            }
                            match docker_components_from_doc(
                                registry,
                                compiled,
                                &doc,
                                files[i].fp.as_str(),
                            ) {
                                Some(pl) => {
                                    proof {
                                        assert(docker_entry_qualifies(
                                            provider,
                                            files@[i as int].name@,
                                            files@[i as int].fp@,
                                        ));
                                    }
                                    return Ok(pl);
                                },
                                None => {
                                    proof {
                                        assert(!docker_entry_qualifies(
                                            provider,
                                            files@[i as int].name@,
                                            files@[i as int].fp@,
                                        ));
                                    }
                                },
                            }
                        },
                        None => {
                            proof {
                                assert(provider.open_spec(files@[i as int].fp@) == Some(
                                    content@,
                                ));
                                assert(!docker_entry_qualifies(
                                    provider,
                                    files@[i as int].name@,
                                    files@[i as int].fp@,
                                ));
                            }
                        },
                    }
                },
                None => {
                    proof {
                        assert(!docker_entry_qualifies(
                            provider,
                            files@[i as int].name@,
                            files@[i as int].fp@,
                        ));
                    }
                },
            }
        } else {
            proof {
                assert(!docker_entry_qualifies(
                    provider,
                    files@[i as int].name@,
                    files@[i as int].fp@,
                ));
            }
        }
        i += 1;
    }
    Err(false)
}

} // verus!
