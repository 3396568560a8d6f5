//! The component tree: one Payload per discovered component, with its
//! paths, technologies, languages, dependency triples and children.
//! Merging children by identity (same name, or same technology key) is
//! the single deduplication rule of the engine.

use vstd::prelude::*;

use crate::strutil::{contains_str, copy_strings, distinct_seqs, str_views, union_strs};

verus! {

/// A directed relationship from the owning payload to `target`.
#[derive(Debug)]
pub struct Edge {
    pub target: Box<Payload>,
    pub read: bool,
    pub write: bool,
}

/// One component node of the output graph.
#[derive(Debug)]
pub struct Payload {
    /// Unique random identifier.
    pub id: String,
    /// Best-effort name: directory, manifest or service name.
    pub name: String,
    /// Where this component was found; never empty, no duplicates.
    pub path: Vec<String>,
    /// The technology this node is one instance of, if known.
    pub tech: Option<String>,
    /// Language name to file count.
    pub languages: Vec<(String, i32)>,
    /// Child components.
    pub childs: Vec<Payload>,
    /// Technologies detected within this node; only ever grows.
    pub techs: Vec<String>,
    /// Raw dependency triples: ecosystem, name, version or locator.
    pub dependencies: Vec<Vec<String>>,
    /// Relationships to other components.
    pub edges: Vec<Edge>,
    /// Back-reference for traversal bookkeeping; not part of the tree.
    pub parent: Option<Box<Payload>>,
    /// Human-readable evidence for each detection.
    pub reason: Vec<String>,
}

/// The mathematical content of an edge.
pub ghost struct EdgeView {
    pub target: Box<PayloadView>,
    pub read: bool,
    pub write: bool,
}

/// The mathematical content of a payload, with strings as character
/// sequences. The parent back-reference is bookkeeping and stays out.
pub ghost struct PayloadView {
    pub id: Seq<char>,
    pub name: Seq<char>,
    pub path: Seq<Seq<char>>,
    pub tech: Option<Seq<char>>,
    pub languages: Seq<(Seq<char>, int)>,
    pub childs: Seq<PayloadView>,
    pub techs: Seq<Seq<char>>,
    pub dependencies: Seq<Seq<Seq<char>>>,
    pub edges: Seq<EdgeView>,
    pub reason: Seq<Seq<char>>,
}

/// Views of a sequence of dependency triples.
pub open spec fn dep_views(v: Seq<Vec<String>>) -> Seq<Seq<Seq<char>>> {
    v.map_values(|d: Vec<String>| str_views(d@))
}

/// Views of the language counters.
pub open spec fn lang_views(v: Seq<(String, i32)>) -> Seq<(Seq<char>, int)> {
    v.map_values(|e: (String, i32)| (e.0@, e.1 as int))
}

/// The view of one payload.
pub open spec fn payload_view(p: Payload) -> PayloadView
    decreases p,
{
    PayloadView {
        id: p.id@,
        name: p.name@,
        path: str_views(p.path@),
        tech: match p.tech {
            Some(t) => Some(t@),
            None => None,
        },
        languages: lang_views(p.languages@),
        childs: child_views(p.childs@),
        techs: str_views(p.techs@),
        dependencies: dep_views(p.dependencies@),
        edges: edge_views(p.edges@),
        reason: str_views(p.reason@),
    }
}

/// The views of a sequence of child payloads.
pub open spec fn child_views(cs: Seq<Payload>) -> Seq<PayloadView>
    decreases cs,
{
    if cs.len() == 0 {
        Seq::empty()
    } else {
        seq![payload_view(cs[0])] + child_views(cs.skip(1))
    }
}

/// The views of a sequence of edges.
pub open spec fn edge_views(es: Seq<Edge>) -> Seq<EdgeView>
    decreases es,
{
    if es.len() == 0 {
        Seq::empty()
    } else {
        seq![EdgeView { target: Box::new(payload_view(*es[0].target)), read: es[0].read, write: es[0].write }]
            + edge_views(es.skip(1))
    }
}

impl View for Payload {
    type V = PayloadView;

    open spec fn view(&self) -> PayloadView {
        payload_view(*self)
    }
}

/// Child views are the element views, position for position.
pub broadcast proof fn lemma_child_views(cs: Seq<Payload>)
    ensures
        (#[trigger] child_views(cs)).len() == cs.len(),
        forall|i: int| 0 <= i < cs.len() ==> child_views(cs)[i] == payload_view(cs[i]),
    decreases cs,
{
    if cs.len() > 0 {
        lemma_child_views(cs.skip(1));
        assert forall|i: int| 0 <= i < cs.len() implies child_views(cs)[i] == payload_view(
            cs[i],
        ) by {
            if i > 0 {
                assert(child_views(cs)[i] == child_views(cs.skip(1))[i - 1]);
                assert(cs.skip(1)[i - 1] == cs[i]);
            }
        }
    }
}

/// Edge views are the element views, position for position.
pub broadcast proof fn lemma_edge_views(es: Seq<Edge>)
    ensures
        (#[trigger] edge_views(es)).len() == es.len(),
        forall|i: int|
            0 <= i < es.len() ==> edge_views(es)[i] == (EdgeView {
                target: Box::new(payload_view(*es[i].target)),
                read: es[i].read,
                write: es[i].write,
            }),
    decreases es,
{
    if es.len() > 0 {
        lemma_edge_views(es.skip(1));
        assert forall|i: int| 0 <= i < es.len() implies edge_views(es)[i] == (EdgeView {
            target: Box::new(payload_view(*es[i].target)),
            read: es[i].read,
            write: es[i].write,
        }) by {
            if i > 0 {
                assert(edge_views(es)[i] == edge_views(es.skip(1))[i - 1]);
                assert(es.skip(1)[i - 1] == es[i]);
            }
        }
    }
}

/// Structural well-formedness: the path set is never empty, the
/// string sets hold no duplicates, the language counters have
/// distinct keys, and every child is well-formed in turn.
pub open spec fn pv_wf(v: PayloadView) -> bool
    decreases v,
{
    &&& v.path.len() > 0
    &&& distinct_seqs(v.path)
    &&& distinct_seqs(v.techs)
    &&& distinct_seqs(v.reason)
    &&& forall|i: int, j: int|
        0 <= i < j < v.languages.len() ==> (#[trigger] v.languages[i]).0 != (
        #[trigger] v.languages[j]).0
    &&& forall|i: int| 0 <= i < v.childs.len() ==> pv_wf(#[trigger] v.childs[i])
}

/// Well-formedness carries over to a view with the same path, tech
/// sets, evidence, language counters and children.
pub proof fn lemma_wf_same_content(a: PayloadView, b: PayloadView)
    requires
        pv_wf(a),
        b.path == a.path,
        b.techs == a.techs,
        b.reason == a.reason,
        b.languages == a.languages,
        b.childs == a.childs,
    ensures
        pv_wf(b),
{
    assert forall|i: int, j: int| 0 <= i < j < b.languages.len() implies (
    #[trigger] b.languages[i]).0 != (#[trigger] b.languages[j]).0 by {
        assert((a.languages[i]).0 != (a.languages[j]).0);
    }
    assert forall|i: int| 0 <= i < b.childs.len() implies pv_wf(#[trigger] b.childs[i]) by {
        assert(pv_wf(a.childs[i]));
    }
}

/// The single identity rule of the engine: two payloads are the same
/// component when they share a name, or both are instances of the
/// same technology.
pub open spec fn same_component(a: PayloadView, b: PayloadView) -> bool {
    a.name == b.name || (a.tech is Some && b.tech is Some && a.tech == b.tech)
}

/// The first existing child that `c` merges into, if any.
pub open spec fn find_same(childs: Seq<PayloadView>, c: PayloadView) -> Option<int>
    decreases childs.len(),
{
    if childs.len() == 0 {
        None
    } else if same_component(childs[0], c) {
        Some(0int)
    } else {
        match find_same(childs.skip(1), c) {
            None => None,
            Some(i) => Some(i + 1),
        }
    }
}

/// Merging a duplicate child extends the survivor's path set and
/// appends the duplicate's dependencies; everything else stays.
pub open spec fn merge_pv(e: PayloadView, c: PayloadView) -> PayloadView {
    PayloadView { path: union_strs(e.path, c.path), dependencies: e.dependencies + c.dependencies, ..e }
}

/// What adding `c` under a parent does to its child list.
pub open spec fn spec_add_child(childs: Seq<PayloadView>, c: PayloadView) -> Seq<PayloadView> {
    match find_same(childs, c) {
        Some(i) => childs.update(i, merge_pv(childs[i], c)),
        None => childs.push(c),
    }
}

/// The index `find_same` returns points at a matching child, and
/// nothing before it matches; a miss means nothing matches.
pub proof fn lemma_find_same(childs: Seq<PayloadView>, c: PayloadView)
    ensures
        find_same(childs, c) matches Some(i) ==> 0 <= i < childs.len() && same_component(
            childs[i],
            c,
        ) && forall|k: int| 0 <= k < i ==> !same_component(#[trigger] childs[k], c),
        find_same(childs, c) is None ==> forall|k: int|
            0 <= k < childs.len() ==> !same_component(#[trigger] childs[k], c),
    decreases childs.len(),
{
    if childs.len() > 0 && !same_component(childs[0], c) {
        lemma_find_same(childs.skip(1), c);
        let t = childs.skip(1);
        if find_same(t, c) is Some {
            let i = find_same(t, c)->0;
            assert(t[i] == childs[i + 1]);
            assert forall|k: int| 0 <= k < i + 1 implies !same_component(
                #[trigger] childs[k],
                c,
            ) by {
                if k > 0 {
                    assert(t[k - 1] == childs[k]);
                }
            }
        } else {
            assert forall|k: int| 0 <= k < childs.len() implies !same_component(
                #[trigger] childs[k],
                c,
            ) by {
                if k > 0 {
                    assert(t[k - 1] == childs[k]);
                }
            }
        }
    }
}

/// Index of the first existing child sharing `service`'s identity.
fn find_same_index(childs: &Vec<Payload>, service: &Payload) -> (r: Option<usize>)
    ensures
        match r {
            Some(i) => find_same(child_views(childs@), service@) == Some(i as int),
            None => find_same(child_views(childs@), service@) is None,
        },
{
    proof {
        lemma_child_views(childs@);
    }
    let ghost views = child_views(childs@);
    let mut i: usize = 0;
    while i < childs.len()
        invariant
            views == child_views(childs@),
            views.len() == childs@.len(),
            forall|k: int| 0 <= k < views.len() ==> views[k] == payload_view(childs@[k]),
            0 <= i <= childs@.len(),
            forall|k: int| 0 <= k < i ==> !same_component(#[trigger] views[k], service@),
        decreases childs@.len() - i,
    {
        let c = &childs[i];
        let name_hit = crate::strutil::str_eq(c.name.as_str(), service.name.as_str());
        let tech_hit = match (&c.tech, &service.tech) {
            (Some(a), Some(b)) => crate::strutil::str_eq(a.as_str(), b.as_str()),
            _ => false,
        };
        if name_hit || tech_hit {
            proof {
                assert(same_component(views[i as int], service@));
                lemma_find_same_hit(views, service@, i as int);
            }
            return Some(i);
        }
        proof {
            assert(!same_component(views[i as int], service@));
        }
        i += 1;
    }
    proof {
        lemma_find_same(views, service@);
        if find_same(views, service@) is Some {
            let j = find_same(views, service@)->0;
            assert(same_component(views[j], service@));
            assert(false);
        }
    }
    None
}

/// A hit at the first matching position is what `find_same` returns.
proof fn lemma_find_same_hit(childs: Seq<PayloadView>, c: PayloadView, i: int)
    requires
        0 <= i < childs.len(),
        same_component(childs[i], c),
        forall|k: int| 0 <= k < i ==> !same_component(#[trigger] childs[k], c),
    ensures
        find_same(childs, c) == Some(i),
    decreases i,
{
    if i > 0 {
        assert(childs.skip(1)[i - 1] == childs[i]);
        assert forall|k: int| 0 <= k < i - 1 implies !same_component(
            #[trigger] childs.skip(1)[k],
            c,
        ) by {
            assert(childs.skip(1)[k] == childs[k + 1]);
        }
        lemma_find_same_hit(childs.skip(1), c, i - 1);
    }
}

/// LAW: merging never loses a dependency triple. Whatever triple either
/// side of the merge holds is present in the merged child.
pub proof fn lemma_merge_keeps_dependencies(e: PayloadView, c: PayloadView, t: Seq<Seq<char>>)
    requires
        e.dependencies.contains(t) || c.dependencies.contains(t),
    ensures
        merge_pv(e, c).dependencies.contains(t),
{
    if e.dependencies.contains(t) {
        let i = choose|i: int| 0 <= i < e.dependencies.len() && e.dependencies[i] == t;
        assert(merge_pv(e, c).dependencies[i] == t);
    } else {
        let i = choose|i: int| 0 <= i < c.dependencies.len() && c.dependencies[i] == t;
        assert(merge_pv(e, c).dependencies[e.dependencies.len() + i] == t);
    }
}

/// LAW: adding a child that matches an existing one never increases
/// the child count; it only extends that child's path set and
/// dependency list. A child without a match is appended.
pub proof fn lemma_add_child_merge_invariant(childs: Seq<PayloadView>, c: PayloadView)
    ensures
        find_same(childs, c) is Some ==> spec_add_child(childs, c).len() == childs.len(),
        find_same(childs, c) matches Some(i) ==> {
            let m = spec_add_child(childs, c)[i];
            &&& forall|p: Seq<char>|
                childs[i].path.contains(p) || c.path.contains(p) ==> #[trigger] m.path.contains(p)
            &&& m.dependencies == childs[i].dependencies + c.dependencies
        },
        find_same(childs, c) is None ==> spec_add_child(childs, c) == childs.push(c),
{
    lemma_find_same(childs, c);
    if find_same(childs, c) is Some {
        let i = find_same(childs, c)->0;
        let m = spec_add_child(childs, c)[i];
        assert(m == merge_pv(childs[i], c));
        assert forall|p: Seq<char>|
            childs[i].path.contains(p) || c.path.contains(p) implies #[trigger] m.path.contains(
            p,
        ) by {
            crate::strutil::lemma_union_strs_membership(childs[i].path, c.path);
        }
    }
}

/// The shape of an implicit child derived from `rule` for `tech`: a
/// fresh component at the parent's first path, carrying the evidence.
pub open spec fn implicit_child_shape(
    c: PayloadView,
    rule: crate::types::Rule,
    tech: Seq<char>,
    reasons: Seq<Seq<char>>,
    p0: Seq<char>,
) -> bool {
    &&& c.name == rule.name@
    &&& c.tech == Some(tech)
    &&& c.path == seq![p0]
    &&& c.reason == union_strs(Seq::<Seq<char>>::empty(), reasons)
    &&& c.techs == Seq::<Seq<char>>::empty()
    &&& c.languages == Seq::<(Seq<char>, int)>::empty()
    &&& c.childs == Seq::<PayloadView>::empty()
    &&& c.dependencies == Seq::<Seq<Seq<char>>>::empty()
    &&& c.edges == Seq::<EdgeView>::empty()
}

/// How attributing `tech` changes a child list rooted at `path0`:
/// either no implicit component is warranted and it stays, or the
/// derived child was added under the merge rule.
pub open spec fn implicit_children_ok(
    childs0: Seq<PayloadView>,
    path0: Seq<char>,
    rules: Seq<crate::types::Rule>,
    tech: Seq<char>,
    reasons: Seq<Seq<char>>,
    newchilds: Seq<PayloadView>,
) -> bool {
    match crate::helpers::spec_implicit_rule(rules, tech) {
        None => newchilds == childs0,
        Some(rule) => exists|c: PayloadView|
            implicit_child_shape(c, rule, tech, reasons, path0) && newchilds == spec_add_child(
                childs0,
                c,
            ),
    }
}

/// The views of an evidence map: technology key to evidence lines.
pub open spec fn map_entry_views(m: Seq<(String, Vec<String>)>) -> Seq<
    (Seq<char>, Seq<Seq<char>>),
> {
    m.map_values(|e: (String, Vec<String>)| (e.0@, str_views(e.1@)))
}

/// A run of intermediate child lists carrying an evidence map from
/// `from` to `to`: one `implicit_children_ok` step per map entry.
pub open spec fn chain_steps_ok(
    rules: Seq<crate::types::Rule>,
    path0: Seq<char>,
    entries: Seq<(Seq<char>, Seq<Seq<char>>)>,
    from: Seq<PayloadView>,
    to: Seq<PayloadView>,
    steps: Seq<Seq<PayloadView>>,
) -> bool {
    &&& steps.len() == entries.len() + 1
    &&& steps[0] == from
    &&& steps[entries.len() as int] == to
    &&& forall|k: int|
        0 <= k < entries.len() ==> implicit_children_ok(
            steps[k],
            path0,
            rules,
            (#[trigger] entries[k]).0,
            entries[k].1,
            steps[k + 1],
        )
}

/// How attributing a whole evidence map, entry by entry, changes a
/// child list rooted at `path0`: each entry's implicit component, if
/// one is warranted, added in map order.
pub open spec fn implicit_chain_ok(
    rules: Seq<crate::types::Rule>,
    path0: Seq<char>,
    entries: Seq<(Seq<char>, Seq<Seq<char>>)>,
    from: Seq<PayloadView>,
    to: Seq<PayloadView>,
) -> bool {
    exists|steps: Seq<Seq<PayloadView>>|
        #[trigger] chain_steps_ok(rules, path0, entries, from, to, steps)
}

/// An empty evidence map carries a child list to itself.
pub proof fn lemma_implicit_chain_empty(
    rules: Seq<crate::types::Rule>,
    path0: Seq<char>,
    entries: Seq<(Seq<char>, Seq<Seq<char>>)>,
    from: Seq<PayloadView>,
)
    requires
        entries.len() == 0,
    ensures
        implicit_chain_ok(rules, path0, entries, from, from),
{
    assert(chain_steps_ok(rules, path0, entries, from, from, seq![from]));
}

/// One more map entry extends an attribution chain.
proof fn lemma_implicit_chain_step(
    rules: Seq<crate::types::Rule>,
    path0: Seq<char>,
    entries: Seq<(Seq<char>, Seq<Seq<char>>)>,
    from: Seq<PayloadView>,
    mid: Seq<PayloadView>,
    to: Seq<PayloadView>,
)
    requires
        entries.len() > 0,
        implicit_chain_ok(rules, path0, entries.drop_last(), from, mid),
        implicit_children_ok(mid, path0, rules, entries.last().0, entries.last().1, to),
    ensures
        implicit_chain_ok(rules, path0, entries, from, to),
{
    let front = entries.drop_last();
    let steps0 = choose|steps0: Seq<Seq<PayloadView>>|
        #[trigger] chain_steps_ok(rules, path0, front, from, mid, steps0);
    let steps = steps0.push(to);
    assert(chain_steps_ok(rules, path0, entries, from, to, steps)) by {
        assert(steps[0] == steps0[0]);
        assert(steps[entries.len() as int] == to);
        assert forall|k: int| 0 <= k < entries.len() implies implicit_children_ok(
            steps[k],
            path0,
            rules,
            (#[trigger] entries[k]).0,
            entries[k].1,
            steps[k + 1],
        ) by {
            if k < entries.len() - 1 {
                assert(front[k] == entries[k]);
                assert(steps[k] == steps0[k]);
                assert(steps[k + 1] == steps0[k + 1]);
                assert(implicit_children_ok(
                    steps0[k],
                    path0,
                    rules,
                    front[k].0,
                    front[k].1,
                    steps0[k + 1],
                ));
            } else {
                assert(steps[k] == steps0[front.len() as int]);
                assert(steps0[front.len() as int] == mid);
                assert(entries[k] == entries.last());
                assert(steps[k + 1] == to);
            }
        }
    }
}

/// The first language counter keyed `name`.
pub open spec fn find_lang(ls: Seq<(Seq<char>, int)>, name: Seq<char>) -> Option<int>
    decreases ls.len(),
{
    if ls.len() == 0 {
        None
    } else if ls[0].0 == name {
        Some(0int)
    } else {
        match find_lang(ls.skip(1), name) {
            None => None,
            Some(i) => Some(i + 1),
        }
    }
}

/// Addition on language counters, saturating at the counter bounds.
pub open spec fn sat_add_i32(a: int, b: int) -> int {
    if a + b > i32::MAX {
        i32::MAX as int
    } else if a + b < i32::MIN {
        i32::MIN as int
    } else {
        a + b
    }
}

/// A language counter bumped by `c`: the existing entry saturatingly
/// increased, or a new entry appended.
pub open spec fn lang_upsert(ls: Seq<(Seq<char>, int)>, name: Seq<char>, c: int) -> Seq<
    (Seq<char>, int),
> {
    match find_lang(ls, name) {
        Some(i) => ls.update(i, (name, sat_add_i32(ls[i].1, c))),
        None => ls.push((name, c)),
    }
}

/// What counting `c` files of language `name` does to a payload: the
/// counter is bumped, and when the language's display name is itself a
/// registered technology that is not yet recorded, that technology is
/// attributed (evidence-free), possibly deriving an implicit child.
pub open spec fn spec_add_lang(
    oldv: PayloadView,
    rules: Seq<crate::types::Rule>,
    name: Seq<char>,
    c: int,
    newv: PayloadView,
) -> bool {
    &&& newv.languages == lang_upsert(oldv.languages, name, c)
    &&& {
        let k = crate::register::lookup_key_by_name(rules, name);
        if k is Some && !oldv.techs.contains(k->0) {
            &&& newv.techs == oldv.techs.push(k->0)
            &&& implicit_children_ok(
                oldv.childs,
                oldv.path[0],
                rules,
                k->0,
                Seq::<Seq<char>>::empty(),
                newv.childs,
            )
        } else {
            &&& newv.techs == oldv.techs
            &&& newv.childs == oldv.childs
        }
    }
    &&& newv.reason == oldv.reason
    &&& newv.id == oldv.id
    &&& newv.name == oldv.name
    &&& newv.path == oldv.path
    &&& newv.tech == oldv.tech
    &&& newv.dependencies == oldv.dependencies
    &&& newv.edges == oldv.edges
}

/// Technology keys folded into a set kept in insertion order.
pub open spec fn spec_add_keys(techs: Seq<Seq<char>>, keys: Seq<Seq<char>>) -> Seq<Seq<char>>
    decreases keys.len(),
{
    if keys.len() == 0 {
        techs
    } else {
        let u = spec_add_keys(techs, keys.drop_last());
        if u.contains(keys.last()) {
            u
        } else {
            u.push(keys.last())
        }
    }
}

/// Evidence lines of a whole evidence map folded into the reason set.
pub open spec fn spec_add_reasons(
    reason: Seq<Seq<char>>,
    entries: Seq<Seq<Seq<char>>>,
) -> Seq<Seq<char>>
    decreases entries.len(),
{
    if entries.len() == 0 {
        reason
    } else {
        union_strs(spec_add_reasons(reason, entries.drop_last()), entries.last())
    }
}

/// The technology keys of an evidence map.
pub open spec fn map_keys(m: Seq<(String, Vec<String>)>) -> Seq<Seq<char>> {
    m.map_values(|e: (String, Vec<String>)| e.0@)
}

/// The evidence lines of an evidence map, entry by entry.
pub open spec fn map_reasons(m: Seq<(String, Vec<String>)>) -> Seq<Seq<Seq<char>>> {
    m.map_values(|e: (String, Vec<String>)| str_views(e.1@))
}

/// What counting one file's language does to a payload: nothing for
/// a file without a cataloged extension, else one `spec_add_lang`
/// step under the language the catalog pairs with the extension.
pub open spec fn spec_detect_lang_rel(
    oldv: PayloadView,
    rules: Seq<crate::types::Rule>,
    filename: Seq<char>,
    newv: PayloadView,
) -> bool {
    &&& (crate::strutil::spec_extension(filename) is None ==> newv == oldv)
    &&& (crate::strutil::spec_extension(filename) matches Some(e) ==> {
        let key = seq!['.'] + e;
        &&& (!crate::languages::catalog_has_key(key) ==> newv == oldv)
        &&& (crate::languages::catalog_has_key(key) ==> exists|nm: Seq<char>|
            #[trigger] crate::languages::catalog_name_for_key(nm, key) && spec_add_lang(
                oldv,
                rules,
                nm,
                1,
                newv,
            ))
    })
}

/// What attributing a whole evidence map does to a payload: the
/// technology and reason sets folded in, the implicit children
/// derived in map order, everything else kept.
pub open spec fn add_techs_rel(
    oldv: PayloadView,
    rules: Seq<crate::types::Rule>,
    entries: Seq<(Seq<char>, Seq<Seq<char>>)>,
    newv: PayloadView,
) -> bool {
    &&& newv.techs == spec_add_keys(oldv.techs, crate::matching::assoc_keys(entries))
    &&& newv.reason == spec_add_reasons(oldv.reason, crate::matching::assoc_reasons(entries))
    &&& implicit_chain_ok(rules, oldv.path[0], entries, oldv.childs, newv.childs)
    &&& newv.id == oldv.id
    &&& newv.name == oldv.name
    &&& newv.path == oldv.path
    &&& newv.tech == oldv.tech
    &&& newv.languages == oldv.languages
    &&& newv.dependencies == oldv.dependencies
    &&& newv.edges == oldv.edges
}

/// What one listing entry does to the active context: a file's
/// language is counted; an ignored subdirectory, or one beyond the
/// walk's depth, changes nothing; any other subdirectory is walked,
/// which keeps the node's identity and only grows its technologies.
pub open spec fn level_entry_ok(
    rules: Seq<crate::types::Rule>,
    e: (Seq<char>, crate::provider::FileType, Seq<char>),
    depth: int,
    from: PayloadView,
    to: PayloadView,
) -> bool {
    if e.1 == crate::provider::FileType::File {
        spec_detect_lang_rel(from, rules, e.0, to)
    } else if e.0 == "node_modules"@ || e.0 == "dist"@ || e.0 == "build"@ || depth <= 0 {
        to == from
    } else {
        &&& to.id == from.id
        &&& to.name == from.name
        &&& to.path == from.path
        &&& to.tech == from.tech
        &&& from.techs.is_prefix_of(to.techs)
    }
}

/// A run of intermediate states carrying a listing's entries from
/// `from` to `to`: one `level_entry_ok` step per entry.
pub open spec fn level_steps_ok(
    rules: Seq<crate::types::Rule>,
    entries: Seq<(Seq<char>, crate::provider::FileType, Seq<char>)>,
    depth: int,
    from: PayloadView,
    to: PayloadView,
    steps: Seq<PayloadView>,
) -> bool {
    &&& steps.len() == entries.len() + 1
    &&& steps[0] == from
    &&& steps[entries.len() as int] == to
    &&& forall|k: int|
        0 <= k < entries.len() ==> level_entry_ok(
            rules,
            #[trigger] entries[k],
            depth,
            steps[k],
            steps[k + 1],
        )
}

/// How a whole listing's entries, in order, carry the active context
/// from `from` to `to`.
pub open spec fn level_files_ok(
    rules: Seq<crate::types::Rule>,
    entries: Seq<(Seq<char>, crate::provider::FileType, Seq<char>)>,
    depth: int,
    from: PayloadView,
    to: PayloadView,
) -> bool {
    exists|steps: Seq<PayloadView>|
        #[trigger] level_steps_ok(rules, entries, depth, from, to, steps)
}

/// One more listing entry extends a level run.
proof fn lemma_level_step(
    rules: Seq<crate::types::Rule>,
    entries: Seq<(Seq<char>, crate::provider::FileType, Seq<char>)>,
    depth: int,
    from: PayloadView,
    mid: PayloadView,
    to: PayloadView,
)
    requires
        entries.len() > 0,
        level_files_ok(rules, entries.drop_last(), depth, from, mid),
        level_entry_ok(rules, entries.last(), depth, mid, to),
    ensures
        level_files_ok(rules, entries, depth, from, to),
{
    let front = entries.drop_last();
    let steps0 = choose|steps0: Seq<PayloadView>|
        #[trigger] level_steps_ok(rules, front, depth, from, mid, steps0);
    let steps = steps0.push(to);
    assert(level_steps_ok(rules, entries, depth, from, to, steps)) by {
        assert(steps[0] == steps0[0]);
        assert(steps[entries.len() as int] == to);
        assert forall|k: int| 0 <= k < entries.len() implies level_entry_ok(
            rules,
            #[trigger] entries[k],
            depth,
            steps[k],
            steps[k + 1],
        ) by {
            if k < entries.len() - 1 {
                assert(front[k] == entries[k]);
                assert(steps[k] == steps0[k]);
                assert(steps[k + 1] == steps0[k + 1]);
                assert(level_entry_ok(rules, front[k], depth, steps0[k], steps0[k + 1]));
            } else {
                assert(steps[k] == steps0[front.len() as int]);
                assert(steps0[front.len() as int] == mid);
                assert(entries[k] == entries.last());
                assert(steps[k + 1] == to);
            }
        }
    }
}

/// A virtual container's children folded into a child list, first
/// declared first, each under the merge rule.
pub open spec fn add_children_fold(cs: Seq<PayloadView>, kids: Seq<PayloadView>) -> Seq<
    PayloadView,
>
    decreases kids.len(),
{
    if kids.len() == 0 {
        cs
    } else {
        spec_add_child(add_children_fold(cs, kids.drop_last()), kids.last())
    }
}

/// Folding children in never shrinks the list.
proof fn lemma_children_fold_grows(cs: Seq<PayloadView>, kids: Seq<PayloadView>)
    ensures
        add_children_fold(cs, kids).len() >= cs.len(),
    decreases kids.len(),
{
    if kids.len() > 0 {
        lemma_children_fold_grows(cs, kids.drop_last());
        lemma_find_same(add_children_fold(cs, kids.drop_last()), kids.last());
    }
}

/// How one detector result reshapes the node: a named component is
/// merged in as a child; a virtual container contributes its
/// dependency union and each of its children.
pub open spec fn merge_detected_ok(from: PayloadView, to: PayloadView, pv: PayloadView) -> bool {
    if pv.name != "virtual"@ {
        to == (PayloadView { childs: spec_add_child(from.childs, pv), ..from })
    } else {
        to == (PayloadView {
            dependencies: crate::strutil::spec_dedup_by_key(from.dependencies + pv.dependencies),
            childs: add_children_fold(from.childs, pv.childs),
            ..from
        })
    }
}

/// What one configured detector does to the node over the listing:
/// nothing without a qualifying manifest; else the component built
/// from the first qualifying manifest is merged in.
pub open spec fn detector_step_ok<P: crate::provider::BaseProvider>(
    provider: &P,
    rules: Seq<crate::types::Rule>,
    dm: Seq<(Seq<char>, Seq<char>, Seq<char>)>,
    kind: crate::types::ComponentMatcher,
    fs: Seq<crate::provider::ProviderFile>,
    from: PayloadView,
    to: PayloadView,
) -> bool {
    match kind {
        crate::types::ComponentMatcher::Nodejs => if exists|i: int|
            0 <= i < fs.len() && crate::detectors::node_entry_qualifies(
                provider,
                (#[trigger] fs[i]).name@,
                fs[i].fp@,
            ) {
            exists|i: int, pv: PayloadView|
                {
                    &&& 0 <= i < fs.len()
                    &&& crate::detectors::node_entry_qualifies(provider, fs[i].name@, fs[i].fp@)
                    &&& forall|k: int|
                        0 <= k < i ==> !crate::detectors::node_entry_qualifies(
                            provider,
                            (#[trigger] fs[k]).name@,
                            fs[k].fp@,
                        )
                    &&& #[trigger] crate::detectors::node_payload_rel(
                        rules,
                        dm,
                        crate::manifest::json_doc(provider.open_spec(fs[i].fp@)->0)->0,
                        fs[i].fp@,
                        pv,
                    )
                    &&& merge_detected_ok(from, to, pv)
                }
        } else {
            to == from
        },
        crate::types::ComponentMatcher::Rust => if exists|i: int|
            0 <= i < fs.len() && crate::detectors::rust_entry_qualifies(
                provider,
                (#[trigger] fs[i]).name@,
                fs[i].fp@,
            ) {
            exists|i: int, pv: PayloadView|
                {
                    &&& 0 <= i < fs.len()
                    &&& crate::detectors::rust_entry_qualifies(provider, fs[i].name@, fs[i].fp@)
                    &&& forall|k: int|
                        0 <= k < i ==> !crate::detectors::rust_entry_qualifies(
                            provider,
                            (#[trigger] fs[k]).name@,
                            fs[k].fp@,
                        )
                    &&& #[trigger] crate::detectors::rust_payload_rel(
                        rules,
                        dm,
                        crate::manifest::toml_doc(provider.open_spec(fs[i].fp@)->0)->0,
                        fs[i].fp@,
                        pv,
                    )
                    &&& merge_detected_ok(from, to, pv)
                }
        } else {
            to == from
        },
        crate::types::ComponentMatcher::Docker => if crate::regexes::regex_valid(
            crate::detectors::compose_file_pattern(),
        ) && (exists|i: int|
            0 <= i < fs.len() && crate::detectors::docker_entry_qualifies(
                provider,
                (#[trigger] fs[i]).name@,
                fs[i].fp@,
            )) {
            exists|i: int, pv: PayloadView|
                {
                    &&& 0 <= i < fs.len()
                    &&& crate::detectors::docker_entry_qualifies(provider, fs[i].name@, fs[i].fp@)
                    &&& forall|k: int|
                        0 <= k < i ==> !crate::detectors::docker_entry_qualifies(
                            provider,
                            (#[trigger] fs[k]).name@,
                            fs[k].fp@,
                        )
                    &&& #[trigger] crate::detectors::docker_payload_rel(
                        dm,
                        crate::manifest::yaml_doc(provider.open_spec(fs[i].fp@)->0)->0,
                        fs[i].fp@,
                        pv,
                    )
                    &&& merge_detected_ok(from, to, pv)
                }
        } else {
            to == from
        },
    }
}

/// A run of intermediate states carrying the configured detectors,
/// in catalog order, from `from` to `to`.
pub open spec fn detector_steps_ok<P: crate::provider::BaseProvider>(
    provider: &P,
    rules: Seq<crate::types::Rule>,
    dm: Seq<(Seq<char>, Seq<char>, Seq<char>)>,
    kinds: Seq<crate::types::ComponentMatcher>,
    fs: Seq<crate::provider::ProviderFile>,
    from: PayloadView,
    to: PayloadView,
    steps: Seq<PayloadView>,
) -> bool {
    &&& steps.len() == kinds.len() + 1
    &&& steps[0] == from
    &&& steps[kinds.len() as int] == to
    &&& forall|k: int|
        0 <= k < kinds.len() ==> detector_step_ok(
            provider,
            rules,
            dm,
            #[trigger] kinds[k],
            fs,
            steps[k],
            steps[k + 1],
        )
}

/// How the whole detector pass, in catalog order, carries the node
/// from `from` to `to`.
pub open spec fn detector_chain_ok<P: crate::provider::BaseProvider>(
    provider: &P,
    rules: Seq<crate::types::Rule>,
    dm: Seq<(Seq<char>, Seq<char>, Seq<char>)>,
    kinds: Seq<crate::types::ComponentMatcher>,
    fs: Seq<crate::provider::ProviderFile>,
    from: PayloadView,
    to: PayloadView,
) -> bool {
    exists|steps: Seq<PayloadView>|
        #[trigger] detector_steps_ok(provider, rules, dm, kinds, fs, from, to, steps)
}

/// One more detector extends a detector run.
proof fn lemma_detector_chain_step<P: crate::provider::BaseProvider>(
    provider: &P,
    rules: Seq<crate::types::Rule>,
    dm: Seq<(Seq<char>, Seq<char>, Seq<char>)>,
    kinds: Seq<crate::types::ComponentMatcher>,
    fs: Seq<crate::provider::ProviderFile>,
    from: PayloadView,
    mid: PayloadView,
    to: PayloadView,
)
    requires
        kinds.len() > 0,
        detector_chain_ok(provider, rules, dm, kinds.drop_last(), fs, from, mid),
        detector_step_ok(provider, rules, dm, kinds.last(), fs, mid, to),
    ensures
        detector_chain_ok(provider, rules, dm, kinds, fs, from, to),
{
    let front = kinds.drop_last();
    let steps0 = choose|steps0: Seq<PayloadView>|
        #[trigger] detector_steps_ok(provider, rules, dm, front, fs, from, mid, steps0);
    let steps = steps0.push(to);
    assert(detector_steps_ok(provider, rules, dm, kinds, fs, from, to, steps)) by {
        assert(steps[0] == steps0[0]);
        assert(steps[kinds.len() as int] == to);
        assert forall|k: int| 0 <= k < kinds.len() implies detector_step_ok(
            provider,
            rules,
            dm,
            #[trigger] kinds[k],
            fs,
            steps[k],
            steps[k + 1],
        ) by {
            if k < kinds.len() - 1 {
                assert(front[k] == kinds[k]);
                assert(steps[k] == steps0[k]);
                assert(steps[k + 1] == steps0[k + 1]);
                assert(detector_step_ok(
                    provider,
                    rules,
                    dm,
                    front[k],
                    fs,
                    steps0[k],
                    steps0[k + 1],
                ));
            } else {
                assert(steps[k] == steps0[front.len() as int]);
                assert(steps0[front.len() as int] == mid);
                assert(kinds[k] == kinds.last());
                assert(steps[k + 1] == to);
            }
        }
    }
}

/// Relies on uuid::Uuid::new_v4, printed in its hyphenated text form:
/// a freshly generated random identifier. Nothing is promised of its
/// value; two calls may differ.
#[verifier::external_body]
fn generate_id() -> (r: String) {
    uuid::Uuid::new_v4().to_string()
}

impl Payload {
    /// A fresh component at one path, with nothing detected yet.
    pub fn new(name: &str, folder_path: &str) -> (r: Payload)
        ensures
            r@.name == name@,
            r@.path =~= seq![folder_path@],
            r@.tech is None,
            r@.languages =~= Seq::<(Seq<char>, int)>::empty(),
            r@.childs =~= Seq::<PayloadView>::empty(),
            r@.techs =~= Seq::<Seq<char>>::empty(),
            r@.dependencies =~= Seq::<Seq<Seq<char>>>::empty(),
            r@.edges =~= Seq::<EdgeView>::empty(),
            r@.reason =~= Seq::<Seq<char>>::empty(),
            r.parent is None,
            pv_wf(r@),
    {
        let mut path: Vec<String> = Vec::new();
        path.push(String::from_str(folder_path));
        let r = Payload {
            id: generate_id(),
            name: String::from_str(name),
            path,
            tech: None,
            languages: Vec::new(),
            childs: Vec::new(),
            techs: Vec::new(),
            dependencies: Vec::new(),
            edges: Vec::new(),
            parent: None,
            reason: Vec::new(),
        };
        proof {
            assert(str_views(r.path@) =~= seq![folder_path@]);
        }
        r
    }

    /// Register a relationship from this payload to `pl`, readable and
    /// writable by default.
    pub fn add_edges(&mut self, pl: Payload)
        ensures
            final(self)@.edges =~= old(self)@.edges.push(
                EdgeView { target: Box::new(pl@), read: true, write: true },
            ),
            final(self)@.id == old(self)@.id,
            final(self)@.name == old(self)@.name,
            final(self)@.path == old(self)@.path,
            final(self)@.tech == old(self)@.tech,
            final(self)@.languages == old(self)@.languages,
            final(self)@.childs == old(self)@.childs,
            final(self)@.techs == old(self)@.techs,
            final(self)@.dependencies == old(self)@.dependencies,
            final(self)@.reason == old(self)@.reason,
            final(self).parent == old(self).parent,
    {
        let ghost old_edges = self.edges@;
        self.edges.push(Edge { target: Box::new(pl), read: true, write: true });
        proof {
            lemma_edge_views(old_edges);
            lemma_edge_views(self.edges@);
            assert(self.edges@.len() == old_edges.len() + 1);
            assert forall|i: int| 0 <= i < old_edges.len() implies edge_views(self.edges@)[i]
                == edge_views(old_edges)[i] by {
                assert(self.edges@[i] == old_edges[i]);
            }
        }
    }

    /// Register or clear the parent back-reference.
    pub fn set_parent(&mut self, pl: Option<Payload>)
        ensures
            final(self)@ == old(self)@,
            match pl {
                Some(p) => final(self).parent matches Some(b) && *b == p,
                None => final(self).parent is None,
            },
    {
        self.parent = match pl {
            Some(p) => Some(Box::new(p)),
            None => None,
        };
    }

    /// Record that technology `tech` was detected within this payload,
    /// with the given evidence, and derive the implicit component the
    /// detection may imply. Technologies only ever grow.
    pub fn add_tech(&mut self, registry: &crate::register::Registry, tech: &str, reasons: &Vec<String>)
        requires
            old(self)@.path.len() > 0,
            registry.wf(),
        ensures
            final(self)@.techs == (if old(self)@.techs.contains(tech@) {
                old(self)@.techs
            } else {
                old(self)@.techs.push(tech@)
            }),
            final(self)@.reason == union_strs(old(self)@.reason, str_views(reasons@)),
            implicit_children_ok(
                old(self)@.childs,
                old(self)@.path[0],
                registry.registered_rules@,
                tech@,
                str_views(reasons@),
                final(self)@.childs,
            ),
            final(self)@.id == old(self)@.id,
            final(self)@.name == old(self)@.name,
            final(self)@.path == old(self)@.path,
            final(self)@.tech == old(self)@.tech,
            final(self)@.languages == old(self)@.languages,
            final(self)@.dependencies == old(self)@.dependencies,
            final(self)@.edges == old(self)@.edges,
            final(self).parent == old(self).parent,
            pv_wf(old(self)@) ==> pv_wf(final(self)@),
    {
        let ghost o = *self;
        if !contains_str(&self.techs, tech) {
            let ghost tv = str_views(self.techs@);
            self.techs.push(String::from_str(tech));
            proof {
                assert(str_views(self.techs@) =~= tv.push(tech@));
            }
        }
        crate::strutil::extend_unique(&mut self.reason, reasons);
        let ghost mid = *self;
        proof {
            if pv_wf(o@) {
                assert(payload_view(mid).languages == o@.languages);
                assert forall|a: int, b: int|
                    0 <= a < b < payload_view(mid).languages.len() implies (
                #[trigger] payload_view(mid).languages[a]).0 != (
                #[trigger] payload_view(mid).languages[b]).0 by {
                    assert((o@.languages[a]).0 != (o@.languages[b]).0);
                }
                assert(payload_view(mid).childs == o@.childs);
                assert forall|j: int| 0 <= j < payload_view(mid).childs.len() implies pv_wf(
                    #[trigger] payload_view(mid).childs[j],
                ) by {
                    assert(o@.childs[j] == payload_view(mid).childs[j]);
                }
                assert(pv_wf(mid@));
            }
        }
        crate::helpers::find_implicit_component(self, registry, tech, reasons);
        proof {
            assert(mid@.childs == o@.childs);
            assert(mid@.path[0] == o@.path[0]);
        }
    }

    /// Attribute every technology of an evidence map, in map order:
    /// the technology set grows by the keys not yet present, and the
    /// reason set by every new evidence line.
    pub fn add_techs(
        &mut self,
        registry: &crate::register::Registry,
        tech_map: &Vec<(String, Vec<String>)>,
    )
        requires
            old(self)@.path.len() > 0,
            registry.wf(),
        ensures
            final(self)@.techs == spec_add_keys(old(self)@.techs, map_keys(tech_map@)),
            final(self)@.reason == spec_add_reasons(old(self)@.reason, map_reasons(tech_map@)),
            implicit_chain_ok(
                registry.registered_rules@,
                old(self)@.path[0],
                map_entry_views(tech_map@),
                old(self)@.childs,
                final(self)@.childs,
            ),
            old(self)@.techs.is_prefix_of(final(self)@.techs),
            final(self)@.id == old(self)@.id,
            final(self)@.name == old(self)@.name,
            final(self)@.path == old(self)@.path,
            final(self)@.tech == old(self)@.tech,
            final(self)@.languages == old(self)@.languages,
            final(self)@.dependencies == old(self)@.dependencies,
            final(self)@.edges == old(self)@.edges,
            final(self).parent == old(self).parent,
            pv_wf(old(self)@) ==> pv_wf(final(self)@),
    {
        let ghost o = *self;
        let mut i: usize = 0;
        proof {
            assert(o@.techs.is_prefix_of(payload_view(*self).techs));
            assert(map_keys(tech_map@).take(0) =~= Seq::<Seq<char>>::empty());
            assert(map_reasons(tech_map@).take(0) =~= Seq::<Seq<Seq<char>>>::empty());
            assert(map_entry_views(tech_map@).take(0) =~= Seq::<
                (Seq<char>, Seq<Seq<char>>),
            >::empty());
            lemma_implicit_chain_empty(
                registry.registered_rules@,
                o@.path[0],
                map_entry_views(tech_map@).take(0),
                o@.childs,
            );
        }
        while i < tech_map.len()
            invariant
                registry.wf(),
                0 <= i <= tech_map@.len(),
                payload_view(*self).techs == spec_add_keys(
                    o@.techs,
                    map_keys(tech_map@).take(i as int),
                ),
                payload_view(*self).reason == spec_add_reasons(
                    o@.reason,
                    map_reasons(tech_map@).take(i as int),
                ),
                implicit_chain_ok(
                    registry.registered_rules@,
                    o@.path[0],
                    map_entry_views(tech_map@).take(i as int),
                    o@.childs,
                    payload_view(*self).childs,
                ),
                o@.techs.is_prefix_of(payload_view(*self).techs),
                payload_view(*self).path == o@.path,
                payload_view(*self).path.len() > 0 || o@.path.len() == 0,
                o@.path.len() > 0,
                payload_view(*self).id == o@.id,
                payload_view(*self).name == o@.name,
                payload_view(*self).tech == o@.tech,
                payload_view(*self).languages == o@.languages,
                payload_view(*self).dependencies == o@.dependencies,
                payload_view(*self).edges == o@.edges,
                self.parent == o.parent,
                pv_wf(o@) ==> pv_wf(payload_view(*self)),
            decreases tech_map@.len() - i,
        {
            let ghost before = payload_view(*self).techs;
            let ghost before_childs = payload_view(*self).childs;
            self.add_tech(registry, tech_map[i].0.as_str(), &tech_map[i].1);
            proof {
                let et1 = map_entry_views(tech_map@).take(i + 1);
                assert(et1.drop_last() =~= map_entry_views(tech_map@).take(i as int));
                assert(et1.last() == (tech_map@[i as int].0@, str_views(tech_map@[i as int].1@)));
                assert(implicit_chain_ok(
                    registry.registered_rules@,
                    o@.path[0],
                    et1.drop_last(),
                    o@.childs,
                    before_childs,
                ));
                assert(implicit_children_ok(
                    before_childs,
                    o@.path[0],
                    registry.registered_rules@,
                    et1.last().0,
                    et1.last().1,
                    payload_view(*self).childs,
                ));
                lemma_implicit_chain_step(
                    registry.registered_rules@,
                    o@.path[0],
                    et1,
                    o@.childs,
                    before_childs,
                    payload_view(*self).childs,
                );
                assert(o@.techs.is_prefix_of(payload_view(*self).techs)) by {
                    if !before.contains(tech_map@[i as int].0@) {
                        assert(payload_view(*self).techs == before.push(tech_map@[i as int].0@));
                    }
                }
                let kt = map_keys(tech_map@).take(i + 1);
                assert(kt.drop_last() =~= map_keys(tech_map@).take(i as int));
                assert(kt.last() == tech_map@[i as int].0@);
                let rt = map_reasons(tech_map@).take(i + 1);
                assert(rt.drop_last() =~= map_reasons(tech_map@).take(i as int));
                assert(rt.last() == str_views(tech_map@[i as int].1@));
            }
            i += 1;
        }
        proof {
            assert(map_keys(tech_map@).take(tech_map@.len() as int) =~= map_keys(tech_map@));
            assert(map_reasons(tech_map@).take(tech_map@.len() as int) =~= map_reasons(
                tech_map@,
            ));
            assert(map_entry_views(tech_map@).take(tech_map@.len() as int) =~= map_entry_views(
                tech_map@,
            ));
        }
    }

    /// Bump the counter of language `name` by `count`, saturating at
    /// the counter bounds; a language whose display name is itself a
    /// registered technology is attributed as one.
    pub fn add_lang(&mut self, registry: &crate::register::Registry, name: &str, count: i32)
        requires
            old(self)@.path.len() > 0,
            registry.wf(),
        ensures
            spec_add_lang(
                old(self)@,
                registry.registered_rules@,
                name@,
                count as int,
                final(self)@,
            ),
            final(self).parent == old(self).parent,
            pv_wf(old(self)@) ==> pv_wf(final(self)@),
    {
        let ghost o = *self;
        let ghost lv = lang_views(self.languages@);
        let n = self.languages.len();
        let mut i: usize = 0;
        while i < n
            invariant
                *self == o,
                o == *old(self),
                o@.path.len() > 0,
                registry.wf(),
                n == self.languages@.len(),
                lv == lang_views(self.languages@),
                0 <= i <= n,
                forall|k: int| 0 <= k < i ==> (#[trigger] lv[k]).0 != name@,
            decreases n - i,
        {
            if crate::strutil::str_eq(self.languages[i].0.as_str(), name) {
                proof {
                    lemma_find_lang_hit(lv, name@, i as int);
                }
                let entry = self.languages.remove(i);
                let c0 = entry.1;
                let bumped = if count >= 0 {
                    if c0 > i32::MAX - count {
                        i32::MAX
                    } else {
                        c0 + count
                    }
                } else {
                    if c0 < i32::MIN - count {
                        i32::MIN
                    } else {
                        c0 + count
                    }
                };
                self.languages.insert(i, (entry.0, bumped));
                proof {
                    assert(bumped as int == sat_add_i32(lv[i as int].1, count as int));
                    assert(lang_views(self.languages@) =~= lang_upsert(lv, name@, count as int))
                        by {
                        assert forall|j: int| 0 <= j < self.languages@.len() implies lang_views(
                            self.languages@,
                        )[j] == lang_upsert(lv, name@, count as int)[j] by {
                            if j < i as int {
                                assert(self.languages@[j] == o.languages@[j]);
                            } else if j > i as int {
                                assert(self.languages@[j] == o.languages@.remove(i as int).insert(
                                    i as int,
                                    (o.languages@[i as int].0, bumped),
                                )[j]);
                                assert(self.languages@[j] == o.languages@[j]);
                            } else {
                                assert(self.languages@[j] == (o.languages@[i as int].0, bumped));
                                assert(lang_views(self.languages@)[j] == (lv[j].0, bumped as int));
                                assert(lv[j].0 == name@);
                            }
                        }
                    }
                }
                proof {
                    assert(payload_view(*self).path == o@.path);
                    assert(payload_view(*self).techs == o@.techs);
                    assert(payload_view(*self).childs == o@.childs);
                    assert(payload_view(*self).reason == o@.reason);
                    assert(payload_view(*self).languages == lang_upsert(
                        o@.languages,
                        name@,
                        count as int,
                    ));
                }
                self.finish_add_lang(registry, name, Ghost(o), Ghost(count as int));
                return ;
            }
            i += 1;
        }
        proof {
            lemma_find_lang_miss(lv, name@);
        }
        self.languages.push((String::from_str(name), count));
        proof {
            assert(lang_views(self.languages@) =~= lv.push((name@, count as int)));
            assert(payload_view(*self).path == o@.path);
            assert(payload_view(*self).techs == o@.techs);
            assert(payload_view(*self).childs == o@.childs);
            assert(payload_view(*self).reason == o@.reason);
            assert(payload_view(*self).languages == lang_upsert(o@.languages, name@, count as int));
        }
        self.finish_add_lang(registry, name, Ghost(o), Ghost(count as int));
    }

    /// Detect the language of one file at this level from its
    /// extension and count it; the display name of a dialect's group
    /// counts for the group.
    pub fn detect_lang(&mut self, registry: &crate::register::Registry, filename: &str)
        requires
            old(self)@.path.len() > 0,
            registry.wf(),
        ensures
            crate::strutil::spec_extension(filename@) is None ==> *final(self) == *old(self),
            crate::strutil::spec_extension(filename@) matches Some(e) ==> {
                let key = seq!['.'] + e;
                &&& !crate::languages::catalog_has_key(key) ==> *final(self) == *old(self)
                &&& crate::languages::catalog_has_key(key) ==> exists|nm: Seq<char>|
                    #[trigger] crate::languages::catalog_name_for_key(nm, key) && spec_add_lang(
                        old(self)@,
                        registry.registered_rules@,
                        nm,
                        1,
                        final(self)@,
                    )
            },
            spec_detect_lang_rel(old(self)@, registry.registered_rules@, filename@, final(self)@),
            final(self).parent == old(self).parent,
            pv_wf(old(self)@) ==> pv_wf(final(self)@),
    {
        match crate::languages::detect_lang(filename) {
            Some(lang) => {
                let lang_name = match &lang.group {
                    Some(g) => g.clone(),
                    None => lang.name.clone(),
                };
                self.add_lang(registry, lang_name.as_str(), 1);
                proof {
                    let e = crate::strutil::spec_extension(filename@)->0;
                    let key = seq!['.'] + e;
                    assert(crate::languages::catalog_item(lang));
                    assert(lang_name@ == lang.name@);
                    assert(crate::languages::catalog_name_for_key(lang_name@, key));
                }
            },
            None => {},
        }
    }

    /// The technology-attribution tail of `add_lang`, run after the
    /// language counter itself was brought up to date.
    fn finish_add_lang(
        &mut self,
        registry: &crate::register::Registry,
        name: &str,
        Ghost(o): Ghost<Payload>,
        Ghost(c): Ghost<int>,
    )
        requires
            old(self)@.path.len() > 0,
            registry.wf(),
            old(self)@.languages == lang_upsert(o@.languages, name@, c),
            old(self)@.techs == o@.techs,
            old(self)@.childs == o@.childs,
            old(self)@.reason == o@.reason,
            old(self)@.id == o@.id,
            old(self)@.name == o@.name,
            old(self)@.path == o@.path,
            old(self)@.tech == o@.tech,
            old(self)@.dependencies == o@.dependencies,
            old(self)@.edges == o@.edges,
            old(self).parent == o.parent,
        ensures
            spec_add_lang(o@, registry.registered_rules@, name@, c, final(self)@),
            final(self).parent == o.parent,
            pv_wf(o@) ==> pv_wf(final(self)@),
    {
        let ghost m = *self;
        proof {
            if pv_wf(o@) {
                lemma_lang_upsert_wf(o@.languages, name@, c);
                assert forall|j: int| 0 <= j < payload_view(m).childs.len() implies pv_wf(
                    #[trigger] payload_view(m).childs[j],
                ) by {
                    assert(o@.childs[j] == payload_view(m).childs[j]);
                }
                assert(pv_wf(m@));
            }
        }
        let key_opt = registry.find_key_by_name(name);
        match key_opt {
            Some(tech_key) => {
                if !contains_str(&self.techs, tech_key.as_str()) {
                    let tk = tech_key.clone();
                    let empty_reasons: Vec<String> = Vec::new();
                    proof {
                        assert(str_views(empty_reasons@) =~= Seq::<Seq<char>>::empty());
                        assert(!o@.techs.contains(tk@));
                    }
                    self.add_tech(registry, tk.as_str(), &empty_reasons);
                    proof {
                        assert(union_strs(o@.reason, Seq::<Seq<char>>::empty()) == o@.reason);
                        assert(m@.childs == o@.childs);
                        assert(m@.path[0] == o@.path[0]);
                    }
                } else {
                    proof {
                        assert(o@.techs.contains(tech_key@));
                    }
                }
            },
            None => {},
        }
    }

    /// Walk one directory level and dive into subdirectories, at most
    /// `depth` levels deep: run the component detectors on the listing,
    /// attach file and extension evidence to the active context — the
    /// freshly detected component, or this node — count languages, and
    /// recurse. A provider failure surfaces as an empty listing, so
    /// the walk always completes.
    /// Fold one detector result into this node: a named component is
    /// merged as a child and becomes the active context; a virtual
    /// container contributes its dependency union and its children;
    /// no match leaves everything as it stood.
    fn merge_detected(&mut self, res: Result<Payload, bool>, ctx_idx: &mut Option<usize>)
        requires
            pv_wf(old(self)@),
            res matches Ok(pl) ==> pv_wf(pl@),
            (*old(ctx_idx)) matches Some(ix) ==> ix < old(self)@.childs.len(),
        ensures
            res matches Ok(pl) ==> merge_detected_ok(old(self)@, final(self)@, pl@),
            res is Err ==> *final(self) == *old(self) && *final(ctx_idx) == *old(ctx_idx),
            final(self)@.id == old(self)@.id,
            final(self)@.name == old(self)@.name,
            final(self)@.path == old(self)@.path,
            final(self)@.tech == old(self)@.tech,
            final(self)@.techs == old(self)@.techs,
            final(self)@.languages == old(self)@.languages,
            final(self)@.reason == old(self)@.reason,
            final(self)@.edges == old(self)@.edges,
            final(self).parent == old(self).parent,
            pv_wf(final(self)@),
            (*final(ctx_idx)) matches Some(ix) ==> ix < final(self)@.childs.len(),
    {
        match res {
            Ok(pl) => {
                let ghost from_v = payload_view(*self);
                if !crate::strutil::str_eq(pl.name.as_str(), "virtual") {
                    let ghost plv = pl@;
                    let idx = self.add_child(pl);
                    proof {
                        lemma_child_views(self.childs@);
                        assert(payload_view(*self) == (PayloadView {
                            childs: spec_add_child(from_v.childs, plv),
                            ..from_v
                        }));
                        lemma_find_same(from_v.childs, plv);
                    }
                    *ctx_idx = Some(idx);
                } else {
                    self.combine_dependencies(&pl);
                    proof {
                        lemma_wf_same_content(from_v, payload_view(*self));
                    }
                    let ghost plv = pl@;
                    let Payload { childs: mut kids, .. } = pl;
                    proof {
                        lemma_child_views(kids@);
                        assert(child_views(kids@) == plv.childs);
                        assert forall|k: int| 0 <= k < kids@.len() implies pv_wf(
                            payload_view(#[trigger] kids@[k]),
                        ) by {
                            assert(plv.childs[k] == payload_view(kids@[k]));
                            assert(pv_wf(plv.childs[k]));
                        }
                        assert(plv.childs.take(0) =~= Seq::<PayloadView>::empty());
                        assert(add_children_fold(from_v.childs, plv.childs.take(0))
                            == from_v.childs);
                    }
                    let ghost total = plv.childs.len() as int;
                    while kids.len() > 0
                        invariant
                            total == plv.childs.len(),
                            0 <= kids@.len() <= total,
                            child_views(kids@) == plv.childs.skip(total - kids@.len()),
                            forall|k: int|
                                0 <= k < kids@.len() ==> pv_wf(payload_view(#[trigger] kids@[k])),
                            pv_wf(payload_view(*self)),
                            payload_view(*self) == (PayloadView {
                                childs: add_children_fold(
                                    from_v.childs,
                                    plv.childs.take(total - kids@.len()),
                                ),
                                dependencies: payload_view(*self).dependencies,
                                ..from_v
                            }),
                            payload_view(*self).dependencies == crate::strutil::spec_dedup_by_key(
                                from_v.dependencies + plv.dependencies,
                            ),
                            self.parent == old(self).parent,
                        decreases kids@.len(),
                    {
                        let ghost done = total - kids@.len();
                        let ghost kids0 = kids@;
                        let c = kids.remove(0);
                        proof {
                            assert(c == kids0[0]);
                            lemma_child_views(kids0);
                            lemma_child_views(kids@);
                            assert(payload_view(c) == plv.childs[done]) by {
                                assert(child_views(kids0)[0] == payload_view(kids0[0]));
                                assert(plv.childs.skip(done)[0] == plv.childs[done]);
                            }
                            assert(kids@ =~= kids0.skip(1));
                            assert(child_views(kids@) =~= plv.childs.skip(done + 1)) by {
                                assert forall|t: int|
                                    0 <= t < kids@.len() implies child_views(kids@)[t]
                                    == plv.childs.skip(done + 1)[t] by {
                                    assert(child_views(kids@)[t] == payload_view(kids@[t]));
                                    assert(kids@[t] == kids0[t + 1]);
                                    assert(child_views(kids0)[t + 1] == payload_view(
                                        kids0[t + 1],
                                    ));
                                    assert(plv.childs.skip(done)[t + 1] == plv.childs[done + 1
                                        + t]);
                                    assert(plv.childs.skip(done + 1)[t] == plv.childs[done + 1
                                        + t]);
                                }
                            }
                            assert forall|k: int| 0 <= k < kids@.len() implies pv_wf(
                                payload_view(#[trigger] kids@[k]),
                            ) by {
                                assert(kids@[k] == kids0[k + 1]);
                            }
                        }
                        let ghost bv = payload_view(*self).childs;
                        let ghost cv = c@;
                        self.add_child(c);
                        proof {
                            lemma_find_same(bv, cv);
                            lemma_child_views(self.childs@);
                            assert(payload_view(*self).childs == spec_add_child(bv, cv));
                            let t1 = plv.childs.take(done + 1);
                            assert(t1.drop_last() =~= plv.childs.take(done));
                            assert(t1.last() == plv.childs[done]);
                        }
                    }
                    proof {
                        assert(plv.childs.take(total) =~= plv.childs);
                        assert(payload_view(*self) == (PayloadView {
                            dependencies: crate::strutil::spec_dedup_by_key(
                                from_v.dependencies + plv.dependencies,
                            ),
                            childs: add_children_fold(from_v.childs, plv.childs),
                            ..from_v
                        }));
                    }
                    match ctx_idx {
                        Some(ix) => {
                            proof {
                                lemma_children_fold_grows(from_v.childs, plv.childs);
                            }
                        },
                        None => {},
                    }
                }
            },
            Err(_) => {},
        }
    }

    /// Walk one directory level and dive into subdirectories, at most
    /// `depth` levels deep: run the component detectors on the listing,
    /// attach file and extension evidence to the active context — the
    /// freshly detected component, or this node — count languages, and
    /// recurse. A provider failure surfaces as an empty listing, so
    /// the walk always completes.
    pub fn recurse<P: crate::provider::BaseProvider>(
        &mut self,
        registry: &crate::register::Registry,
        compiled: &crate::loader::Compiled,
        provider: &P,
        file_path: &str,
        depth: u32,
    )
        requires
            pv_wf(old(self)@),
            registry.wf(),
            compiled.wf(),
        ensures
            final(self)@.id == old(self)@.id,
            final(self)@.name == old(self)@.name,
            final(self)@.path == old(self)@.path,
            final(self)@.tech == old(self)@.tech,
            old(self)@.techs.is_prefix_of(final(self)@.techs),
            final(self).parent == old(self).parent,
            pv_wf(final(self)@),
            exists|fs: Seq<crate::provider::ProviderFile>, mid: PayloadView|
                {
                    &&& crate::provider::pf_views(fs) == provider.list_dir_spec(file_path@)
                    &&& #[trigger] detector_chain_ok(
                        provider,
                        registry.registered_rules@,
                        crate::matching::dm_views(compiled.dependencies@),
                        compiled.components@,
                        fs,
                        old(self)@,
                        mid,
                    )
                    &&& ({
                        let evidence = crate::matching::spec_match_all(
                            registry.registered_rules@,
                            compiled.techs@,
                            compiled.extensions@,
                            fs,
                            provider.base_path_spec(),
                        );
                        ||| (exists|mid2: PayloadView|
                            #[trigger] add_techs_rel(
                                mid,
                                registry.registered_rules@,
                                evidence,
                                mid2,
                            ) && level_files_ok(
                                registry.registered_rules@,
                                crate::provider::pf_views(fs),
                                depth as int,
                                mid2,
                                final(self)@,
                            ))
                        ||| (exists|ix: int, mid2: PayloadView, c2: PayloadView|
                            #![trigger add_techs_rel(mid.childs[ix], registry.registered_rules@, evidence, mid2), level_files_ok(registry.registered_rules@, crate::provider::pf_views(fs), depth as int, mid2, c2)]
                            {
                                &&& 0 <= ix < mid.childs.len()
                                &&& add_techs_rel(
                                    mid.childs[ix],
                                    registry.registered_rules@,
                                    evidence,
                                    mid2,
                                )
                                &&& level_files_ok(
                                    registry.registered_rules@,
                                    crate::provider::pf_views(fs),
                                    depth as int,
                                    mid2,
                                    c2,
                                )
                                &&& final(self)@ == (PayloadView {
                                    childs: mid.childs.update(ix, c2),
                                    ..mid
                                })
                            })
                    })
                },
        decreases depth, 1int,
    {
        let files = provider.list_dir(file_path);
        let ghost fsg = files@;
        let ghost rules = registry.registered_rules@;
        let ghost dm = crate::matching::dm_views(compiled.dependencies@);
        let mut ctx_idx: Option<usize> = None;
        let ncomp = compiled.components.len();
        let mut ci: usize = 0;
        proof {
            assert(detector_steps_ok(
                provider,
                rules,
                dm,
                compiled.components@.take(0),
                fsg,
                old(self)@,
                old(self)@,
                seq![old(self)@],
            ));
        }
        while ci < ncomp
            invariant
                registry.wf(),
                compiled.wf(),
                rules == registry.registered_rules@,
                dm == crate::matching::dm_views(compiled.dependencies@),
                fsg == files@,
                ncomp == compiled.components@.len(),
                0 <= ci <= ncomp,
                detector_chain_ok(
                    provider,
                    rules,
                    dm,
                    compiled.components@.take(ci as int),
                    fsg,
                    old(self)@,
                    payload_view(*self),
                ),
                pv_wf(payload_view(*self)),
                payload_view(*self).id == old(self)@.id,
                payload_view(*self).name == old(self)@.name,
                payload_view(*self).path == old(self)@.path,
                payload_view(*self).tech == old(self)@.tech,
                payload_view(*self).techs == old(self)@.techs,
                self.parent == old(self).parent,
                ctx_idx matches Some(ix) ==> ix < payload_view(*self).childs.len(),
            decreases ncomp - ci,
        {
            let ghost from_v = payload_view(*self);
            match compiled.components[ci] {
                crate::types::ComponentMatcher::Nodejs => {
                    let res = crate::detectors::detect_node_component(
                        registry,
                        compiled,
                        &files,
                        provider,
                    );
                    let ghost resg = match res {
                        Ok(ref pl) => Some(pl@),
                        Err(_) => None,
                    };
                    self.merge_detected(res, &mut ctx_idx);
                    proof {
                        assert(detector_step_ok(
                            provider,
                            rules,
                            dm,
                            crate::types::ComponentMatcher::Nodejs,
                            fsg,
                            from_v,
                            payload_view(*self),
                        )) by {
                            if resg is Some {
                                let pv = resg->0;
                                let i = choose|i: int|
                                    {
                                        &&& 0 <= i < fsg.len()
                                        &&& crate::detectors::node_entry_qualifies(
                                            provider,
                                            (#[trigger] fsg[i]).name@,
                                            fsg[i].fp@,
                                        )
                                        &&& forall|k: int|
                                            0 <= k < i
                                                ==> !crate::detectors::node_entry_qualifies(
                                                provider,
                                                (#[trigger] fsg[k]).name@,
                                                fsg[k].fp@,
                                            )
                                        &&& crate::detectors::node_payload_rel(
                                            rules,
                                            dm,
                                            crate::manifest::json_doc(
                                                provider.open_spec(fsg[i].fp@)->0,
                                            )->0,
                                            fsg[i].fp@,
                                            pv,
                                        )
                                    };
                                assert(merge_detected_ok(from_v, payload_view(*self), pv));
                            }
                        }
                    }
                },
                crate::types::ComponentMatcher::Rust => {
                    let res = crate::detectors::detect_rust_component(
                        registry,
                        compiled,
                        &files,
                        provider,
                    );
                    let ghost resg = match res {
                        Ok(ref pl) => Some(pl@),
                        Err(_) => None,
                    };
                    self.merge_detected(res, &mut ctx_idx);
                    proof {
                        assert(detector_step_ok(
                            provider,
                            rules,
                            dm,
                            crate::types::ComponentMatcher::Rust,
                            fsg,
                            from_v,
                            payload_view(*self),
                        )) by {
                            if resg is Some {
                                let pv = resg->0;
                                let i = choose|i: int|
                                    {
                                        &&& 0 <= i < fsg.len()
                                        &&& crate::detectors::rust_entry_qualifies(
                                            provider,
                                            (#[trigger] fsg[i]).name@,
                                            fsg[i].fp@,
                                        )
                                        &&& forall|k: int|
                                            0 <= k < i
                                                ==> !crate::detectors::rust_entry_qualifies(
                                                provider,
                                                (#[trigger] fsg[k]).name@,
                                                fsg[k].fp@,
                                            )
                                        &&& crate::detectors::rust_payload_rel(
                                            rules,
                                            dm,
                                            crate::manifest::toml_doc(
                                                provider.open_spec(fsg[i].fp@)->0,
                                            )->0,
                                            fsg[i].fp@,
                                            pv,
                                        )
                                    };
                                assert(merge_detected_ok(from_v, payload_view(*self), pv));
                            }
                        }
                    }
                },
                crate::types::ComponentMatcher::Docker => {
                    let res = crate::detectors::detect_docker_component(
                        registry,
                        compiled,
                        &files,
                        provider,
                    );
                    let ghost resg = match res {
                        Ok(ref pl) => Some(pl@),
                        Err(_) => None,
                    };
                    self.merge_detected(res, &mut ctx_idx);
                    proof {
                        assert(detector_step_ok(
                            provider,
                            rules,
                            dm,
                            crate::types::ComponentMatcher::Docker,
                            fsg,
                            from_v,
                            payload_view(*self),
                        )) by {
                            if resg is Some {
                                let pv = resg->0;
                                let i = choose|i: int|
                                    {
                                        &&& 0 <= i < fsg.len()
                                        &&& crate::detectors::docker_entry_qualifies(
                                            provider,
                                            (#[trigger] fsg[i]).name@,
                                            fsg[i].fp@,
                                        )
                                        &&& forall|k: int|
                                            0 <= k < i
                                                ==> !crate::detectors::docker_entry_qualifies(
                                                provider,
                                                (#[trigger] fsg[k]).name@,
                                                fsg[k].fp@,
                                            )
                                        &&& crate::detectors::docker_payload_rel(
                                            dm,
                                            crate::manifest::yaml_doc(
                                                provider.open_spec(fsg[i].fp@)->0,
                                            )->0,
                                            fsg[i].fp@,
                                            pv,
                                        )
                                    };
                                assert(merge_detected_ok(from_v, payload_view(*self), pv));
                            }
                        }
                    }
                },
            }
            proof {
                let t1 = compiled.components@.take(ci + 1);
                assert(t1.drop_last() =~= compiled.components@.take(ci as int));
                assert(t1.last() == compiled.components@[ci as int]);
                lemma_detector_chain_step(
                    provider,
                    rules,
                    dm,
                    t1,
                    fsg,
                    old(self)@,
                    from_v,
                    payload_view(*self),
                );
            }
            ci += 1;
        }
        proof {
            assert(compiled.components@.take(ncomp as int) =~= compiled.components@);
        }
        let ghost mid_v = payload_view(*self);
        let base = provider.base_path();
        let matched = crate::matching::match_all_files(registry, compiled, &files, base.as_str());
        proof {
            assert(map_entry_views(matched@) =~= crate::matching::spec_match_all(
                rules,
                compiled.techs@,
                compiled.extensions@,
                fsg,
                provider.base_path_spec(),
            ));
        }
        match ctx_idx {
            Some(ix) => {
                proof {
                    lemma_child_views(self.childs@);
                }
                let ghost pre = payload_view(*self);
                let mut active = self.childs.remove(ix);
                proof {
                    assert(payload_view(active) == pre.childs[ix as int]);
                    assert(pv_wf(payload_view(active)));
                }
                apply_level(&mut active, registry, compiled, provider, &files, &matched, depth);
                let ghost cs0 = self.childs@;
                self.childs.insert(ix, active);
                proof {
                    lemma_child_views(cs0);
                    lemma_child_views(self.childs@);
                    assert forall|j: int| 0 <= j < payload_view(*self).childs.len() implies pv_wf(
                        #[trigger] payload_view(*self).childs[j],
                    ) by {
                        assert(payload_view(*self).childs[j] == payload_view(self.childs@[j]));
                        if j < ix as int {
                            assert(self.childs@[j] == cs0[j]);
                            assert(payload_view(cs0[j]) == pre.childs[j]);
                        } else if j > ix as int {
                            assert(self.childs@[j] == cs0.insert(ix as int, active)[j]);
                            assert(self.childs@[j] == cs0[j - 1]);
                            assert(payload_view(cs0[j - 1]) == pre.childs[j]);
                        } else {
                            assert(self.childs@[j] == active);
                        }
                    }
                    assert(payload_view(*self).languages == pre.languages);
                    assert forall|a: int, b: int|
                        0 <= a < b < payload_view(*self).languages.len() implies (
                    #[trigger] payload_view(*self).languages[a]).0 != (
                    #[trigger] payload_view(*self).languages[b]).0 by {
                        assert((pre.languages[a]).0 != (pre.languages[b]).0);
                    }
                    assert(pv_wf(payload_view(*self)));
                    crate::strutil::lemma_prefix_refl(payload_view(*self).techs);
                    // the level's evidence landed on the active child
                    let c2 = payload_view(active);
                    assert(payload_view(*self).childs =~= mid_v.childs.update(ix as int, c2)) by {
                        assert forall|j: int|
                            0 <= j < payload_view(*self).childs.len() implies payload_view(
                            *self,
                        ).childs[j] == mid_v.childs.update(ix as int, c2)[j] by {
                            assert(payload_view(*self).childs[j] == payload_view(
                                self.childs@[j],
                            ));
                            if j < ix as int {
                                assert(self.childs@[j] == cs0[j]);
                            } else if j > ix as int {
                                assert(self.childs@[j] == cs0.insert(ix as int, active)[j]);
                                assert(self.childs@[j] == cs0[j - 1]);
                            } else {
                                assert(self.childs@[j] == active);
                            }
                        }
                    }
                    assert(payload_view(*self) == (PayloadView {
                        childs: mid_v.childs.update(ix as int, c2),
                        ..mid_v
                    }));
                }
            },
            None => {
                apply_level(self, registry, compiled, provider, &files, &matched, depth);
            },
        }
    }

    /// A copy of this payload with the same mathematical content. The
    /// parent back-reference is copied along.
    pub fn duplicate(&self) -> (r: Payload)
        ensures
            r@ == (*self)@,
        decreases *self,
    {
        let path = copy_strings(&self.path);
        let techs = copy_strings(&self.techs);
        let reason = copy_strings(&self.reason);
        proof {
            assert(path@ =~= self.path@);
            assert(techs@ =~= self.techs@);
            assert(reason@ =~= self.reason@);
        }
        let r = Payload {
            id: self.id.clone(),
            name: self.name.clone(),
            path,
            tech: match &self.tech {
                Some(t) => Some(t.clone()),
                None => None,
            },
            languages: copy_langs(&self.languages),
            childs: copy_payloads(&self.childs),
            techs,
            dependencies: copy_deps(&self.dependencies),
            edges: copy_edges(&self.edges),
            parent: match &self.parent {
                Some(b) => Some(Box::new(b.duplicate())),
                None => None,
            },
            reason,
        };
        proof {
            lemma_child_views(r.childs@);
            lemma_child_views(self.childs@);
            lemma_edge_views(r.edges@);
            lemma_edge_views(self.edges@);
            assert(child_views(r.childs@) =~= child_views(self.childs@));
            assert(edge_views(r.edges@) =~= edge_views(self.edges@));
            assert(lang_views(r.languages@) =~= lang_views(self.languages@));
            assert(dep_views(r.dependencies@) =~= dep_views(self.dependencies@));
        }
        r
    }

    /// Add `service` under this payload: merge it into the first child
    /// sharing its identity, or append it. Returns the index of the
    /// merged or appended child.
    pub fn add_child(&mut self, service: Payload) -> (idx: usize)
        requires
            pv_wf(service@),
        ensures
            final(self)@.childs == spec_add_child(old(self)@.childs, service@),
            idx as int == match find_same(old(self)@.childs, service@) {
                Some(i) => i,
                None => old(self)@.childs.len() as int,
            },
            idx < final(self).childs@.len(),
            final(self)@.id == old(self)@.id,
            final(self)@.name == old(self)@.name,
            final(self)@.path == old(self)@.path,
            final(self)@.tech == old(self)@.tech,
            final(self)@.languages == old(self)@.languages,
            final(self)@.techs == old(self)@.techs,
            final(self)@.dependencies == old(self)@.dependencies,
            final(self)@.edges == old(self)@.edges,
            final(self)@.reason == old(self)@.reason,
            final(self).parent == old(self).parent,
            pv_wf(old(self)@) ==> pv_wf(final(self)@),
    {
        proof {
            lemma_child_views(self.childs@);
        }
        let ghost old_views = child_views(self.childs@);
        let ghost sv = service@;
        let found = find_same_index(&self.childs, &service);
        proof {
            lemma_find_same(old_views, sv);
        }
        if let Some(idx) = found {
            let ghost old_self = *self;
            let mut existing = self.childs.remove(idx);
            let ghost e0 = existing;
            let Payload { path: spath, dependencies: sdeps, .. } = service;
            let mut k: usize = 0;
            proof {
                assert(str_views(spath@).take(0) =~= Seq::<Seq<char>>::empty());
                assert(union_strs(str_views(e0.path@), str_views(spath@).take(0)) == str_views(
                    e0.path@,
                ));
            }
            while k < spath.len()
                invariant
                    0 <= k <= spath@.len(),
                    str_views(existing.path@) == union_strs(
                        str_views(e0.path@),
                        str_views(spath@).take(k as int),
                    ),
                    existing == (Payload { path: existing.path, ..e0 }),
                decreases spath@.len() - k,
            {
                let ghost before = str_views(existing.path@);
                if !contains_str(&existing.path, spath[k].as_str()) {
                    existing.path.push(spath[k].clone());
                    proof {
                        assert(str_views(existing.path@) =~= before.push(spath@[k as int]@));
                    }
                }
                proof {
                    let tk1 = str_views(spath@).take(k + 1);
                    assert(tk1.drop_last() =~= str_views(spath@).take(k as int));
                    assert(tk1.last() == spath@[k as int]@);
                }
                k += 1;
            }
            proof {
                assert(str_views(spath@).take(spath@.len() as int) =~= str_views(spath@));
            }
            let mut sdeps_m = sdeps;
            existing.dependencies.append(&mut sdeps_m);
            self.childs.insert(idx, existing);
            proof {
                lemma_child_views(old_self.childs@);
                lemma_child_views(self.childs@);
                assert(self.childs@.len() == old_self.childs@.len());
                assert forall|j: int| 0 <= j < self.childs@.len() implies self.childs@[j] == (
                if j == idx as int {
                    existing
                } else {
                    old_self.childs@[j]
                }) by {
                    if j < idx as int {
                    } else if j > idx as int {
                        assert(self.childs@[j] == old_self.childs@.remove(idx as int).insert(
                            idx as int,
                            existing,
                        )[j]);
                    }
                }
                assert(payload_view(existing) == merge_pv(payload_view(e0), sv)) by {
                    assert(str_views(existing.path@) == union_strs(
                        str_views(e0.path@),
                        str_views(spath@),
                    ));
                    assert(dep_views(existing.dependencies@) =~= dep_views(e0.dependencies@)
                        + dep_views(sdeps@));
                }
                assert(child_views(self.childs@) =~= spec_add_child(old_views, sv));
                if pv_wf(old_self@) {
                    assert(old_self@.childs[idx as int] == payload_view(e0));
                    assert(pv_wf(payload_view(e0)));
                    crate::strutil::lemma_union_strs_distinct(
                        str_views(e0.path@),
                        str_views(spath@),
                    );
                    crate::strutil::lemma_union_strs_grows(
                        str_views(e0.path@),
                        str_views(spath@),
                    );
                    assert(payload_view(existing).childs == payload_view(e0).childs);
                    assert(pv_wf(payload_view(existing)));
                    assert forall|j: int| 0 <= j < child_views(self.childs@).len() implies pv_wf(
                        #[trigger] child_views(self.childs@)[j],
                    ) by {
                        if j != idx as int {
                            assert(child_views(self.childs@)[j] == child_views(
                                old_self.childs@,
                            )[j]);
                        }
                    }
                    assert(payload_view(*self).languages == old_self@.languages);
                    assert forall|a: int, b: int|
                        0 <= a < b < payload_view(*self).languages.len() implies (
                    #[trigger] payload_view(*self).languages[a]).0 != (
                    #[trigger] payload_view(*self).languages[b]).0 by {
                        assert((old_self@.languages[a]).0 != (old_self@.languages[b]).0);
                    }
                    assert(pv_wf(payload_view(*self)));
                }
            }
            idx
        } else {
            let idx = self.childs.len();
            let ghost old_self = *self;
            proof {
                lemma_find_same(old_views, sv);
            }
            self.childs.push(service);
            proof {
                lemma_child_views(old_self.childs@);
                lemma_child_views(self.childs@);
                assert forall|j: int| 0 <= j < self.childs@.len() implies child_views(
                    self.childs@,
                )[j] == spec_add_child(old_views, sv)[j] by {
                    if j < old_self.childs@.len() {
                        assert(self.childs@[j] == old_self.childs@[j]);
                    } else {
                        assert(self.childs@[j] == service);
                    }
                }
                assert(child_views(self.childs@) =~= spec_add_child(old_views, sv));
                if pv_wf(old_self@) {
                    assert forall|j: int| 0 <= j < child_views(self.childs@).len() implies pv_wf(
                        #[trigger] child_views(self.childs@)[j],
                    ) by {
                        if j < old_self.childs@.len() {
                            assert(child_views(self.childs@)[j] == child_views(
                                old_self.childs@,
                            )[j]);
                        } else {
                            assert(child_views(self.childs@)[j] == sv);
                        }
                    }
                    assert(payload_view(*self).languages == old_self@.languages);
                    assert forall|a: int, b: int|
                        0 <= a < b < payload_view(*self).languages.len() implies (
                    #[trigger] payload_view(*self).languages[a]).0 != (
                    #[trigger] payload_view(*self).languages[b]).0 by {
                        assert((old_self@.languages[a]).0 != (old_self@.languages[b]).0);
                    }
                    assert(pv_wf(payload_view(*self)));
                }
            }
            idx
        }
    }

    /// Union the dependency lists of this payload and `other`, keyed by
    /// the triple's joined identity; the first occurrence of a key wins,
    /// so re-merging the same payload changes nothing.
    pub fn combine_dependencies(&mut self, other: &Payload)
        ensures
            final(self)@.dependencies == crate::strutil::spec_dedup_by_key(
                old(self)@.dependencies + other@.dependencies,
            ),
            final(self)@.id == old(self)@.id,
            final(self)@.name == old(self)@.name,
            final(self)@.path == old(self)@.path,
            final(self)@.tech == old(self)@.tech,
            final(self)@.languages == old(self)@.languages,
            final(self)@.childs == old(self)@.childs,
            final(self)@.techs == old(self)@.techs,
            final(self)@.edges == old(self)@.edges,
            final(self)@.reason == old(self)@.reason,
            final(self).parent == old(self).parent,
    {
        let ghost all = old(self)@.dependencies + other@.dependencies;
        let mut merged: Vec<Vec<String>> = Vec::new();
        let ghost old_self = *self;
        let na = self.dependencies.len();
        let nb = other.dependencies.len();
        proof {
            assert(all.take(0) =~= Seq::<Seq<Seq<char>>>::empty());
        }
        let mut i: usize = 0;
        while i < na
            invariant
                *self == old_self,
                na == self.dependencies@.len(),
                nb == other.dependencies@.len(),
                all == old_self@.dependencies + other@.dependencies,
                0 <= i <= na,
                dep_views(merged@) == crate::strutil::spec_dedup_by_key(all.take(i as int)),
            decreases na - i,
        {
            proof {
                assert(all[i as int] == str_views(self.dependencies@[i as int]@));
                let t1 = all.take(i + 1);
                assert(t1.drop_last() =~= all.take(i as int));
                assert(t1.last() == all[i as int]);
            }
            dedup_push(&mut merged, &self.dependencies[i]);
            i += 1;
        }
        let mut j: usize = 0;
        while j < nb
            invariant
                *self == old_self,
                na == self.dependencies@.len(),
                nb == other.dependencies@.len(),
                all == old_self@.dependencies + other@.dependencies,
                0 <= j <= nb,
                dep_views(merged@) == crate::strutil::spec_dedup_by_key(all.take(na + j)),
            decreases nb - j,
        {
            proof {
                assert(all[na + j] == str_views(other.dependencies@[j as int]@));
                let t1 = all.take(na + j + 1);
                assert(t1.drop_last() =~= all.take(na + j));
                assert(t1.last() == all[na + j]);
            }
            dedup_push(&mut merged, &other.dependencies[j]);
            j += 1;
        }
        proof {
            assert(all.take(na + nb) =~= all);
        }
        self.dependencies = merged;
    }
}

/// A hit at the first matching position is what `find_lang` returns.
proof fn lemma_find_lang_hit(ls: Seq<(Seq<char>, int)>, name: Seq<char>, i: int)
    requires
        0 <= i < ls.len(),
        ls[i].0 == name,
        forall|k: int| 0 <= k < i ==> (#[trigger] ls[k]).0 != name,
    ensures
        find_lang(ls, name) == Some(i),
    decreases i,
{
    if i > 0 {
        assert(ls.skip(1)[i - 1] == ls[i]);
        assert forall|k: int| 0 <= k < i - 1 implies (#[trigger] ls.skip(1)[k]).0 != name by {
            assert(ls.skip(1)[k] == ls[k + 1]);
        }
        lemma_find_lang_hit(ls.skip(1), name, i - 1);
    }
}

/// Without a matching key the search returns nothing.
proof fn lemma_find_lang_miss(ls: Seq<(Seq<char>, int)>, name: Seq<char>)
    requires
        forall|k: int| 0 <= k < ls.len() ==> (#[trigger] ls[k]).0 != name,
    ensures
        find_lang(ls, name) is None,
    decreases ls.len(),
{
    if ls.len() > 0 {
        assert forall|k: int| 0 <= k < ls.skip(1).len() implies (#[trigger] ls.skip(1)[k]).0
            != name by {
            assert(ls.skip(1)[k] == ls[k + 1]);
        }
        lemma_find_lang_miss(ls.skip(1), name);
    }
}

/// The search hit points at the key, and misses mean it is absent.
proof fn lemma_find_lang(ls: Seq<(Seq<char>, int)>, name: Seq<char>)
    ensures
        find_lang(ls, name) matches Some(i) ==> 0 <= i < ls.len() && ls[i].0 == name,
        find_lang(ls, name) is None ==> forall|k: int|
            0 <= k < ls.len() ==> (#[trigger] ls[k]).0 != name,
    decreases ls.len(),
{
    if ls.len() > 0 && ls[0].0 != name {
        lemma_find_lang(ls.skip(1), name);
        if find_lang(ls.skip(1), name) is None {
            assert forall|k: int| 0 <= k < ls.len() implies (#[trigger] ls[k]).0 != name by {
                if k > 0 {
                    assert(ls.skip(1)[k - 1] == ls[k]);
                }
            }
        } else {
            let i = find_lang(ls.skip(1), name)->0;
            assert(ls.skip(1)[i] == ls[i + 1]);
        }
    }
}

/// Bumping a counter keeps the language keys pairwise distinct.
proof fn lemma_lang_upsert_wf(ls: Seq<(Seq<char>, int)>, name: Seq<char>, c: int)
    requires
        forall|i: int, j: int| 0 <= i < j < ls.len() ==> (#[trigger] ls[i]).0 != (#[trigger] ls[j]).0,
    ensures
        forall|i: int, j: int|
            0 <= i < j < lang_upsert(ls, name, c).len() ==> (#[trigger] lang_upsert(ls, name, c)[i]).0
                != (#[trigger] lang_upsert(ls, name, c)[j]).0,
{
    lemma_find_lang(ls, name);
    let u = lang_upsert(ls, name, c);
    if find_lang(ls, name) is Some {
        let h = find_lang(ls, name)->0;
        assert forall|i: int, j: int| 0 <= i < j < u.len() implies (#[trigger] u[i]).0 != (
        #[trigger] u[j]).0 by {
            assert(u[i].0 == ls[i].0);
            assert(u[j].0 == ls[j].0);
        }
    } else {
        assert forall|i: int, j: int| 0 <= i < j < u.len() implies (#[trigger] u[i]).0 != (
        #[trigger] u[j]).0 by {
            if j == ls.len() {
                assert(u[i].0 == ls[i].0);
                assert(u[j].0 == name);
            } else {
                assert(u[i].0 == ls[i].0);
                assert(u[j].0 == ls[j].0);
            }
        }
    }
}

/// Apply one level's evidence to the active context and walk on:
/// attach the matched technologies, count each file's language, and
/// recurse into every subdirectory that is not ignored.
fn apply_level<P: crate::provider::BaseProvider>(
    node: &mut Payload,
    registry: &crate::register::Registry,
    compiled: &crate::loader::Compiled,
    provider: &P,
    files: &Vec<crate::provider::ProviderFile>,
    matched: &Vec<(String, Vec<String>)>,
    depth: u32,
)
    requires
        pv_wf(old(node)@),
        registry.wf(),
        compiled.wf(),
    ensures
        exists|mid: PayloadView|
            {
                &&& #[trigger] add_techs_rel(
                    old(node)@,
                    registry.registered_rules@,
                    map_entry_views(matched@),
                    mid,
                )
                &&& level_files_ok(
                    registry.registered_rules@,
                    crate::provider::pf_views(files@),
                    depth as int,
                    mid,
                    final(node)@,
                )
            },
        final(node)@.id == old(node)@.id,
        final(node)@.name == old(node)@.name,
        final(node)@.path == old(node)@.path,
        final(node)@.tech == old(node)@.tech,
        old(node)@.techs.is_prefix_of(final(node)@.techs),
        final(node).parent == old(node).parent,
        pv_wf(final(node)@),
    decreases depth, 0int,
{
    node.add_techs(registry, matched);
    let ghost mid = payload_view(*node);
    proof {
        assert(add_techs_rel(
            old(node)@,
            registry.registered_rules@,
            map_entry_views(matched@),
            mid,
        )) by {
            assert(crate::matching::assoc_keys(map_entry_views(matched@)) =~= map_keys(
                matched@,
            ));
            assert(crate::matching::assoc_reasons(map_entry_views(matched@)) =~= map_reasons(
                matched@,
            ));
        }
    }
    let ghost fvs = crate::provider::pf_views(files@);
    let nf = files.len();
    let mut fi: usize = 0;
    proof {
        assert(level_steps_ok(
            registry.registered_rules@,
            fvs.take(0),
            depth as int,
            mid,
            mid,
            seq![mid],
        ));
    }
    while fi < nf
        invariant
            registry.wf(),
            compiled.wf(),
            fvs == crate::provider::pf_views(files@),
            fvs.len() == files@.len(),
            nf == files@.len(),
            0 <= fi <= nf,
            level_files_ok(
                registry.registered_rules@,
                fvs.take(fi as int),
                depth as int,
                mid,
                payload_view(*node),
            ),
            pv_wf(payload_view(*node)),
            payload_view(*node).id == old(node)@.id,
            payload_view(*node).name == old(node)@.name,
            payload_view(*node).path == old(node)@.path,
            payload_view(*node).tech == old(node)@.tech,
            old(node)@.techs.is_prefix_of(payload_view(*node).techs),
            node.parent == old(node).parent,
        decreases nf - fi,
    {
        let ghost before = payload_view(*node);
        let ghost before_techs = payload_view(*node).techs;
        let ghost e = fvs[fi as int];
        proof {
            assert(e.0 == files@[fi as int].name@);
            assert(e.1 == files@[fi as int].file_type);
        }
        let is_file = files[fi].file_type == crate::provider::FileType::File;
        if is_file {
            node.detect_lang(registry, files[fi].name.as_str());
            proof {
                assert(level_entry_ok(
                    registry.registered_rules@,
                    e,
                    depth as int,
                    before,
                    payload_view(*node),
                ));
                assert(before_techs.is_prefix_of(payload_view(*node).techs)) by {
                    if payload_view(*node).techs == before_techs {
                        crate::strutil::lemma_prefix_refl(before_techs);
                    } else {
                        crate::strutil::lemma_prefix_refl(before_techs);
                        assert(before_techs.is_prefix_of(payload_view(*node).techs)) by {
                            assert(payload_view(*node).techs.subrange(
                                0,
                                before_techs.len() as int,
                            ) =~= before_techs);
                        }
                    }
                }
                crate::strutil::lemma_prefix_trans(
                    old(node)@.techs,
                    before_techs,
                    payload_view(*node).techs,
                );
            }
        } else {
            if !crate::provider::is_ignored_dive_path(files[fi].name.as_str()) && depth > 0 {
                node.recurse(registry, compiled, provider, files[fi].fp.as_str(), depth - 1);
                proof {
                    assert(level_entry_ok(
                        registry.registered_rules@,
                        e,
                        depth as int,
                        before,
                        payload_view(*node),
                    ));
                    crate::strutil::lemma_prefix_trans(
                        old(node)@.techs,
                        before_techs,
                        payload_view(*node).techs,
                    );
                }
            } else {
                proof {
                    assert(level_entry_ok(
                        registry.registered_rules@,
                        e,
                        depth as int,
                        before,
                        payload_view(*node),
                    ));
                }
            }
        }
        proof {
            let t1 = fvs.take(fi + 1);
            assert(t1.drop_last() =~= fvs.take(fi as int));
            assert(t1.last() == fvs[fi as int]);
            lemma_level_step(
                registry.registered_rules@,
                t1,
                depth as int,
                mid,
                before,
                payload_view(*node),
            );
        }
        fi += 1;
    }
    proof {
        assert(fvs.take(nf as int) =~= fvs);
    }
}

/// Copies of the language counters, entry for entry./// Copies of the language counters, entry for entry.
fn copy_langs(v: &Vec<(String, i32)>) -> (r: Vec<(String, i32)>)
    ensures
        r@.len() == v@.len(),
        forall|i: int| 0 <= i < v@.len() ==> #[trigger] r@[i] == v@[i],
{
    let mut out: Vec<(String, i32)> = Vec::new();
    let mut i: usize = 0;
    while i < v.len()
        invariant
            0 <= i <= v@.len(),
            out@.len() == i,
            forall|k: int| 0 <= k < i ==> #[trigger] out@[k] == v@[k],
        decreases v@.len() - i,
    {
        out.push((v[i].0.clone(), v[i].1));
        i += 1;
    }
    out
}

/// Copies of the dependency triples, part for part.
fn copy_deps(v: &Vec<Vec<String>>) -> (r: Vec<Vec<String>>)
    ensures
        r@.len() == v@.len(),
        forall|i: int| 0 <= i < v@.len() ==> (#[trigger] r@[i])@ == (#[trigger] v@[i])@,
{
    let mut out: Vec<Vec<String>> = Vec::new();
    let mut i: usize = 0;
    while i < v.len()
        invariant
            0 <= i <= v@.len(),
            out@.len() == i,
            forall|k: int| 0 <= k < i ==> (#[trigger] out@[k])@ == (#[trigger] v@[k])@,
        decreases v@.len() - i,
    {
        let d = copy_strings(&v[i]);
        proof {
            assert(d@ =~= v@[i as int]@);
        }
        out.push(d);
        i += 1;
    }
    out
}

/// View-preserving copies of a payload list.
pub(crate) fn copy_payloads(cs: &Vec<Payload>) -> (r: Vec<Payload>)
    ensures
        r@.len() == cs@.len(),
        forall|i: int|
            0 <= i < cs@.len() ==> payload_view(#[trigger] r@[i]) == payload_view(
                #[trigger] cs@[i],
            ),
    decreases *cs,
{
    let mut out: Vec<Payload> = Vec::new();
    let n = cs.len();
    let mut i: usize = 0;
    while i < n
        invariant
            n == cs@.len(),
            0 <= i <= n,
            out@.len() == i,
            forall|k: int|
                0 <= k < i ==> payload_view(#[trigger] out@[k]) == payload_view(cs@[k]),
        decreases n - i,
    {
        proof {
            broadcast use vstd::std_specs::vec::group_vec_axioms;

        }
        out.push(cs[i].duplicate());
        i += 1;
    }
    out
}

/// View-preserving copies of an edge list.
fn copy_edges(es: &Vec<Edge>) -> (r: Vec<Edge>)
    ensures
        r@.len() == es@.len(),
        forall|i: int|
            0 <= i < es@.len() ==> payload_view(*(#[trigger] r@[i]).target) == payload_view(
                *(#[trigger] es@[i]).target,
            ) && r@[i].read == es@[i].read && r@[i].write == es@[i].write,
    decreases *es,
{
    let mut out: Vec<Edge> = Vec::new();
    let n = es.len();
    let mut i: usize = 0;
    while i < n
        invariant
            n == es@.len(),
            0 <= i <= n,
            out@.len() == i,
            forall|k: int|
                0 <= k < i ==> payload_view(*(#[trigger] out@[k]).target) == payload_view(
                    *es@[k].target,
                ) && out@[k].read == es@[k].read && out@[k].write == es@[k].write,
        decreases n - i,
    {
        proof {
            broadcast use vstd::std_specs::vec::group_vec_axioms;

        }
        let e = &es[i];
        out.push(Edge { target: Box::new(e.target.duplicate()), read: e.read, write: e.write });
        i += 1;
    }
    out
}

/// Append `dep` to `merged` unless a triple with the same joined
/// identity is already there.
fn dedup_push(merged: &mut Vec<Vec<String>>, dep: &Vec<String>)
    ensures
        dep_views(final(merged)@) == (if crate::strutil::spec_has_key(
            dep_views(old(merged)@),
            crate::strutil::spec_join_key(str_views(dep@)),
        ) {
            dep_views(old(merged)@)
        } else {
            dep_views(old(merged)@).push(str_views(dep@))
        }),
{
    let key = crate::strutil::join_key(dep);
    let mut present = false;
    let mut j: usize = 0;
    while j < merged.len()
        invariant
            key@ == crate::strutil::spec_join_key(str_views(dep@)),
            0 <= j <= merged@.len(),
            present == exists|t: int|
                0 <= t < j && crate::strutil::spec_join_key(#[trigger] dep_views(merged@)[t])
                    == key@,
        decreases merged@.len() - j,
    {
        let other_key = crate::strutil::join_key(&merged[j]);
        if crate::strutil::str_eq(key.as_str(), other_key.as_str()) {
            present = true;
            proof {
                assert(dep_views(merged@)[j as int] == str_views(merged@[j as int]@));
            }
        }
        j += 1;
    }
    let ghost before = dep_views(merged@);
    proof {
        assert(crate::strutil::spec_has_key(before, key@) == present);
    }
    if !present {
        merged.push(copy_strings(dep));
        proof {
            assert(str_views(merged@.last()@) =~= str_views(dep@));
            assert(dep_views(merged@) =~= before.push(str_views(dep@)));
        }
    }
}

} // verus!