//! Derived-component heuristics and the flatten transform: implicit
//! components deduced from technology evidence, hosting lookups, and
//! the single-level summary view with its edge inference.

use vstd::prelude::*;

use crate::payload::{
    child_views,
    implicit_children_ok, spec_add_child, payload_view, pv_wf, Payload, PayloadView,
};
use crate::register::{lookup_rule, Registry};
use crate::strutil::{str_views, union_strs};
use crate::types::Rule;

verus! {

/// Rule types that describe how code is written, not a component of
/// its own: no implicit component is derived from them.
pub open spec fn structural_type(t: Seq<char>) -> bool {
    ||| t == "ci"@
    ||| t == "language"@
    ||| t == "tool"@
    ||| t == "framework"@
}

/// The rule behind an implicit component for `tech`, if deriving one
/// is warranted.
pub open spec fn spec_implicit_rule(rules: Seq<Rule>, tech: Seq<char>) -> Option<Rule> {
    match lookup_rule(rules, tech) {
        None => None,
        Some(rule) => if structural_type(rule.rule_type@) {
            None
        } else {
            Some(rule)
        },
    }
}

/// Whether `t` names one of the structural rule types.
fn is_structural_type(t: &str) -> (r: bool)
    ensures
        r == structural_type(t@),
{
    crate::strutil::str_eq(t, "ci") || crate::strutil::str_eq(t, "language")
        || crate::strutil::str_eq(t, "tool") || crate::strutil::str_eq(t, "framework")
}

/// When a technology is attributed to a component, derive the missing
/// component it implies: a dependency on a database client, say,
/// implies the database itself, though its files were never seen.
/// False positives are possible; the evidence is recorded as reason.
pub fn find_implicit_component(pl: &mut Payload, registry: &Registry, tech: &str, reason: &Vec<String>)
    requires
        old(pl)@.path.len() > 0,
        registry.wf(),
    ensures
        implicit_children_ok(
            old(pl)@.childs,
            old(pl)@.path[0],
            registry.registered_rules@,
            tech@,
            str_views(reason@),
            final(pl)@.childs,
        ),
        final(pl)@.id == old(pl)@.id,
        final(pl)@.name == old(pl)@.name,
        final(pl)@.path == old(pl)@.path,
        final(pl)@.tech == old(pl)@.tech,
        final(pl)@.languages == old(pl)@.languages,
        final(pl)@.techs == old(pl)@.techs,
        final(pl)@.dependencies == old(pl)@.dependencies,
        final(pl)@.edges == old(pl)@.edges,
        final(pl)@.reason == old(pl)@.reason,
        final(pl).parent == old(pl).parent,
        pv_wf(old(pl)@) ==> pv_wf(final(pl)@),
{
    let ref_rule = match registry.find_rule(tech) {
        Some(rule) => rule,
        None => {
            return ;
        },
    };
    if is_structural_type(ref_rule.rule_type.as_str()) {
        return ;
    }
    let mut comp = Payload::new(ref_rule.name.as_str(), pl.path[0].as_str());
    comp.tech = Some(String::from_str(tech));
    let mut dedup: Vec<String> = Vec::new();
    crate::strutil::extend_unique(&mut dedup, reason);
    proof {
        assert(str_views(Seq::<String>::empty()) =~= Seq::<Seq<char>>::empty());
    }
    comp.reason = dedup;
    proof {
        assert(comp@.reason == union_strs(Seq::<Seq<char>>::empty(), str_views(reason@)));
        assert(pv_wf(comp@)) by {
            crate::strutil::lemma_union_strs_distinct(
                Seq::<Seq<char>>::empty(),
                str_views(reason@),
            );
        }
        assert(comp@.path == seq![old(pl)@.path[0]]);
    }
    let ghost cv = comp@;
    pl.add_child(comp);
    proof {
        assert(implicit_children_ok(
            old(pl)@.childs,
            old(pl)@.path[0],
            registry.registered_rules@,
            tech@,
            str_views(reason@),
            pl@.childs,
        )) by {
            assert(pl@.childs == spec_add_child(old(pl)@.childs, cv));
        }
    }
}

/// Whether a hosting or cloud rule for `tech` has a matching child:
/// the index of the child that hosts this payload, if one is there.
pub open spec fn spec_find_hosting(v: PayloadView, rules: Seq<Rule>, tech: Seq<char>) -> Option<int> {
    match lookup_rule(rules, tech) {
        None => None,
        Some(rule) => if rule.rule_type@ == "hosting"@ || rule.rule_type@ == "cloud"@ {
            find_first_with_tech(v.childs, rule.tech@)
        } else {
            None
        },
    }
}

/// The first child whose own technology key is `tech`.
pub open spec fn find_first_with_tech(childs: Seq<PayloadView>, tech: Seq<char>) -> Option<int>
    decreases childs.len(),
{
    if childs.len() == 0 {
        None
    } else if childs[0].tech == Some(tech) {
        Some(0int)
    } else {
        match find_first_with_tech(childs.skip(1), tech) {
            None => None,
            Some(i) => Some(i + 1),
        }
    }
}

/// When a hosting or cloud technology is attributed to a component,
/// look for the child component that stands for the host: a folder
/// named for a deployment platform, say, implies the platform hosts
/// this component.
pub fn find_hosting(pl: &Payload, registry: &Registry, tech: &str) -> (r: Option<usize>)
    requires
        registry.wf(),
    ensures
        match r {
            Some(i) => spec_find_hosting(pl@, registry.registered_rules@, tech@) == Some(i as int),
            None => spec_find_hosting(pl@, registry.registered_rules@, tech@) is None,
        },
{
    let ref_rule = match registry.find_rule(tech) {
        Some(rule) => rule,
        None => {
            return None;
        },
    };
    if !crate::strutil::str_eq(ref_rule.rule_type.as_str(), "hosting") && !crate::strutil::str_eq(
        ref_rule.rule_type.as_str(),
        "cloud",
    ) {
        return None;
    }
    proof {
        crate::payload::lemma_child_views(pl.childs@);
    }
    let ghost views = crate::payload::child_views(pl.childs@);
    let mut i: usize = 0;
    while i < pl.childs.len()
        invariant
            lookup_rule(registry.registered_rules@, tech@) == Some(*ref_rule),
            ref_rule.rule_type@ == "hosting"@ || ref_rule.rule_type@ == "cloud"@,
            views == crate::payload::child_views(pl.childs@),
            views.len() == pl.childs@.len(),
            forall|k: int| 0 <= k < views.len() ==> views[k] == payload_view(pl.childs@[k]),
            0 <= i <= pl.childs@.len(),
            forall|k: int| 0 <= k < i ==> (#[trigger] views[k]).tech != Some(ref_rule.tech@),
        decreases pl.childs@.len() - i,
    {
        let hit = match &pl.childs[i].tech {
            Some(t) => crate::strutil::str_eq(t.as_str(), ref_rule.tech.as_str()),
            None => false,
        };
        if hit {
            proof {
                lemma_find_first_with_tech_hit(views, ref_rule.tech@, i as int);
                assert(pl@.childs == views);
                assert(spec_find_hosting(pl@, registry.registered_rules@, tech@) == Some(
                    i as int,
                ));
            }
            return Some(i);
        }
        proof {
            assert((#[trigger] views[i as int]).tech != Some(ref_rule.tech@));
        }
        i += 1;
    }
    proof {
        lemma_find_first_with_tech_miss(views, ref_rule.tech@);
    }
    None
}

/// A node as the flat view shows it: its own children cleared.
pub open spec fn strip_childs(c: PayloadView) -> PayloadView {
    PayloadView { childs: Seq::<PayloadView>::empty(), ..c }
}

/// Every descendant of the nodes of `cs`, depth first: for each node,
/// its descendants come before the node itself, children in order.
pub open spec fn flat_list(cs: Seq<PayloadView>) -> Seq<PayloadView>
    decreases cs,
{
    if cs.len() == 0 {
        Seq::empty()
    } else {
        flat_list(cs.drop_last()) + flat_list(cs.last().childs) + seq![strip_childs(cs.last())]
    }
}

/// The narrow duplicate rule of the flat pass: both entries carry a
/// technology, and share a name or a technology key. Name equality
/// alone, without any technology, does not count here.
pub open spec fn dup_pair(a: PayloadView, b: PayloadView) -> bool {
    a.tech is Some && b.tech is Some && (a.name == b.name || a.tech == b.tech)
}

/// Whether a survivor of `u` makes `c` a duplicate.
pub open spec fn dup_in(u: Seq<PayloadView>, c: PayloadView) -> bool {
    exists|k: int| 0 <= k < u.len() && dup_pair(#[trigger] u[k], c)
}

/// The flat list with later duplicates removed: each entry survives
/// exactly when no earlier survivor already covers it.
pub open spec fn flat_dedup(cs: Seq<PayloadView>) -> Seq<PayloadView>
    decreases cs.len(),
{
    if cs.len() == 0 {
        Seq::empty()
    } else {
        let u = flat_dedup(cs.drop_last());
        if dup_in(u, cs.last()) {
            u
        } else {
            u.push(cs.last())
        }
    }
}

/// A hit at the first matching position is what the search returns.
proof fn lemma_find_first_with_tech_hit(childs: Seq<PayloadView>, tech: Seq<char>, i: int)
    requires
        0 <= i < childs.len(),
        childs[i].tech == Some(tech),
        forall|k: int| 0 <= k < i ==> (#[trigger] childs[k]).tech != Some(tech),
    ensures
        find_first_with_tech(childs, tech) == Some(i),
    decreases i,
{
    if i > 0 {
        assert(childs.skip(1)[i - 1] == childs[i]);
        assert forall|k: int| 0 <= k < i - 1 implies (#[trigger] childs.skip(1)[k]).tech != Some(
            tech,
        ) by {
            assert(childs.skip(1)[k] == childs[k + 1]);
        }
        lemma_find_first_with_tech_hit(childs.skip(1), tech, i - 1);
    }
}

/// Copy every descendant of `src` into `dest`'s child list, depth
/// first, clearing each copy's own children: children become siblings
/// in the flat output, not nested.
pub fn push_childs(src: &Payload, dest: &mut Payload)
    ensures
        final(dest)@.childs == old(dest)@.childs + flat_list(src@.childs),
        final(dest)@.id == old(dest)@.id,
        final(dest)@.name == old(dest)@.name,
        final(dest)@.path == old(dest)@.path,
        final(dest)@.tech == old(dest)@.tech,
        final(dest)@.languages == old(dest)@.languages,
        final(dest)@.techs == old(dest)@.techs,
        final(dest)@.dependencies == old(dest)@.dependencies,
        final(dest)@.edges == old(dest)@.edges,
        final(dest)@.reason == old(dest)@.reason,
        final(dest).parent == old(dest).parent,
    decreases *src,
{
    proof {
        crate::payload::lemma_child_views(src.childs@);
        assert(flat_list(child_views(src.childs@).take(0)) =~= Seq::<PayloadView>::empty());
        assert(old(dest)@.childs + Seq::<PayloadView>::empty() =~= old(dest)@.childs);
    }
    let ghost v = child_views(src.childs@);
    let n = src.childs.len();
    let mut i: usize = 0;
    while i < n
        invariant
            v == child_views(src.childs@),
            v.len() == src.childs@.len(),
            forall|k: int| 0 <= k < v.len() ==> v[k] == payload_view(src.childs@[k]),
            n == src.childs@.len(),
            0 <= i <= n,
            payload_view(*dest).childs == old(dest)@.childs + flat_list(v.take(i as int)),
            payload_view(*dest).id == old(dest)@.id,
            payload_view(*dest).name == old(dest)@.name,
            payload_view(*dest).path == old(dest)@.path,
            payload_view(*dest).tech == old(dest)@.tech,
            payload_view(*dest).languages == old(dest)@.languages,
            payload_view(*dest).techs == old(dest)@.techs,
            payload_view(*dest).dependencies == old(dest)@.dependencies,
            payload_view(*dest).edges == old(dest)@.edges,
            payload_view(*dest).reason == old(dest)@.reason,
            dest.parent == old(dest).parent,
        decreases n - i,
    {
        let ghost before = payload_view(*dest).childs;
        let child = &src.childs[i];
        proof {
            broadcast use vstd::std_specs::vec::group_vec_axioms;

            assert(decreases_to!(src.childs => src.childs@));
            assert(decreases_to!(src.childs@ => src.childs@[i as int]));
        }
        push_childs(child, dest);
        let mut cp = child.duplicate();
        cp.childs.clear();
        proof {
            assert(payload_view(cp).childs =~= Seq::<PayloadView>::empty());
            assert(payload_view(cp) == strip_childs(v[i as int]));
        }
        let ghost dc0 = dest.childs@;
        let ghost mid = child_views(dc0);
        dest.childs.push(cp);
        proof {
            crate::payload::lemma_child_views(dc0);
            crate::payload::lemma_child_views(dest.childs@);
            assert(payload_view(*dest).childs =~= mid + seq![strip_childs(v[i as int])]) by {
                assert forall|t: int| 0 <= t < dest.childs@.len() implies child_views(
                    dest.childs@,
                )[t] == (mid + seq![strip_childs(v[i as int])])[t] by {
                    assert(child_views(dest.childs@)[t] == payload_view(dest.childs@[t]));
                    if t < dc0.len() {
                        assert(dest.childs@[t] == dc0[t]);
                        assert(child_views(dc0)[t] == payload_view(dc0[t]));
                    } else {
                        assert(dest.childs@[t] == cp);
                    }
                }
            }
            let t1 = v.take(i + 1);
            assert(t1.drop_last() =~= v.take(i as int));
            assert(t1.last() == v[i as int]);
            assert(payload_view(*dest).childs =~= old(dest)@.childs + flat_list(v.take(i + 1)));
        }
        i += 1;
    }
    proof {
        assert(v.take(n as int) =~= v);
        assert(v =~= src@.childs);
    }
}

/// Whether a survivor already covers `c` under the flat duplicate rule.
fn has_dup(kept: &Vec<Payload>, c: &Payload) -> (r: bool)
    ensures
        r == dup_in(child_views(kept@), c@),
{
    proof {
        crate::payload::lemma_child_views(kept@);
    }
    let ghost views = child_views(kept@);
    if c.tech.is_none() {
        proof {
            if dup_in(views, c@) {
                let k = choose|k: int| 0 <= k < views.len() && dup_pair(views[k], c@);
            }
        }
        return false;
    }
    let mut k: usize = 0;
    while k < kept.len()
        invariant
            views == child_views(kept@),
            views.len() == kept@.len(),
            forall|t: int| 0 <= t < views.len() ==> views[t] == payload_view(kept@[t]),
            c@.tech is Some,
            0 <= k <= kept@.len(),
            forall|t: int| 0 <= t < k ==> !dup_pair(#[trigger] views[t], c@),
        decreases kept@.len() - k,
    {
        let kc = &kept[k];
        if kc.tech.is_some() {
            let name_eq = crate::strutil::str_eq(kc.name.as_str(), c.name.as_str());
            let tech_eq = match (&kc.tech, &c.tech) {
                (Some(a), Some(b)) => crate::strutil::str_eq(a.as_str(), b.as_str()),
                _ => false,
            };
            if name_eq || tech_eq {
                proof {
                    assert(dup_pair(views[k as int], c@));
                }
                return true;
            }
        }
        proof {
            assert(!dup_pair(views[k as int], c@));
        }
        k += 1;
    }
    proof {
        if dup_in(views, c@) {
            let t = choose|t: int| 0 <= t < views.len() && dup_pair(views[t], c@);
            assert(false);
        }
    }
    false
}

/// Remove later duplicates from a flat child list, in one pass.
fn dedup_flat(childs: Vec<Payload>) -> (r: Vec<Payload>)
    ensures
        child_views(r@) == flat_dedup(child_views(childs@)),
{
    proof {
        crate::payload::lemma_child_views(childs@);
    }
    let ghost v = child_views(childs@);
    let ghost n = v.len();
    let mut rem = childs;
    let mut kept: Vec<Payload> = Vec::new();
    proof {
        assert(child_views(kept@) =~= flat_dedup(v.take(0)));
        assert(child_views(rem@) =~= v.skip(0));
    }
    while rem.len() > 0
        invariant
            n == v.len(),
            rem@.len() <= n,
            child_views(rem@) == v.skip(n - rem@.len()),
            child_views(kept@) == flat_dedup(v.take(n - rem@.len())),
        decreases rem@.len(),
    {
        let ghost i = n - rem@.len();
        let ghost rem0 = rem@;
        let c = rem.remove(0);
        proof {
            assert(rem@ =~= rem0.skip(1));
            crate::payload::lemma_child_views(rem0);
            crate::payload::lemma_child_views(rem@);
            assert(payload_view(c) == v[i]) by {
                assert(child_views(rem0)[0] == payload_view(rem0[0]));
                assert(v.skip(i)[0] == v[i]);
            }
            assert(child_views(rem@) =~= v.skip(i + 1)) by {
                assert forall|t: int| 0 <= t < rem@.len() implies child_views(rem@)[t] == v.skip(
                    i + 1,
                )[t] by {
                    assert(child_views(rem@)[t] == payload_view(rem@[t]));
                    assert(rem@[t] == rem0[t + 1]);
                    assert(child_views(rem0)[t + 1] == payload_view(rem0[t + 1]));
                    assert(v.skip(i)[t + 1] == v[i + 1 + t]);
                    assert(v.skip(i + 1)[t] == v[i + 1 + t]);
                }
            }
        }
        let ghost kept0 = kept@;
        let ghost before = child_views(kept0);
        if !has_dup(&kept, &c) {
            kept.push(c);
            proof {
                crate::payload::lemma_child_views(kept0);
                crate::payload::lemma_child_views(kept@);
                assert(child_views(kept@) =~= before.push(v[i])) by {
                    assert forall|t: int| 0 <= t < kept@.len() implies child_views(kept@)[t] == (
                    before.push(v[i]))[t] by {
                        assert(child_views(kept@)[t] == payload_view(kept@[t]));
                        if t < kept0.len() {
                            assert(kept@[t] == kept0[t]);
                            assert(child_views(kept0)[t] == payload_view(kept0[t]));
                        } else {
                            assert(kept@[t] == c);
                        }
                    }
                }
            }
        }
        proof {
            let t1 = v.take(i + 1);
            assert(t1.drop_last() =~= v.take(i));
            assert(t1.last() == v[i]);
        }
    }
    proof {
        assert(v.take(n as int) =~= v);
    }
    kept
}

/// The first component of the scope named `nm`.
pub open spec fn first_named(scope: Seq<PayloadView>, nm: Seq<char>) -> Option<int>
    decreases scope.len(),
{
    if scope.len() == 0 {
        None
    } else if scope[0].name == nm {
        Some(0int)
    } else {
        match first_named(scope.skip(1), nm) {
            None => None,
            Some(i) => Some(i + 1),
        }
    }
}

/// The edge one dependency triple of `owner` gives rise to: none for
/// a malformed triple, a self-reference by name or technology, or a
/// name no component of the scope carries; else a read-write edge to
/// the first component named like the dependency.
pub open spec fn edge_for(
    scope: Seq<PayloadView>,
    owner: PayloadView,
    d: Seq<Seq<char>>,
) -> Seq<crate::payload::EdgeView> {
    if d.len() >= 2 && d[1] != owner.name && owner.tech != Some(d[1]) && first_named(
        scope,
        d[1],
    ) is Some {
        seq![
            crate::payload::EdgeView {
                target: Box::new(scope[first_named(scope, d[1])->0]),
                read: true,
                write: true,
            },
        ]
    } else {
        Seq::empty()
    }
}

/// Every edge `owner`'s dependency list gives rise to, in list order.
pub open spec fn edges_added(
    scope: Seq<PayloadView>,
    owner: PayloadView,
    deps: Seq<Seq<Seq<char>>>,
) -> Seq<crate::payload::EdgeView>
    decreases deps.len(),
{
    if deps.len() == 0 {
        Seq::empty()
    } else {
        edges_added(scope, owner, deps.drop_last()) + edge_for(scope, owner, deps.last())
    }
}

/// What edge inference does to one child: exactly its inferred edges
/// appended, everything else untouched.
pub open spec fn with_inferred_edges(scope: Seq<PayloadView>, c: PayloadView) -> PayloadView {
    PayloadView { edges: c.edges + edges_added(scope, c, c.dependencies), ..c }
}

/// The children of `now` are those of `base` with their inferred
/// edges appended, each of the inferred shape.
pub open spec fn edges_inferred_ok(base: Seq<PayloadView>, now: Seq<PayloadView>) -> bool {
    &&& now.len() == base.len()
    &&& forall|i: int| 0 <= i < base.len() ==> #[trigger] now[i] == with_inferred_edges(base, base[i])
}

/// A hit at the first matching name is what `first_named` returns.
proof fn lemma_first_named_hit(scope: Seq<PayloadView>, nm: Seq<char>, i: int)
    requires
        0 <= i < scope.len(),
        scope[i].name == nm,
        forall|k: int| 0 <= k < i ==> (#[trigger] scope[k]).name != nm,
    ensures
        first_named(scope, nm) == Some(i),
    decreases i,
{
    if i > 0 {
        assert(scope.skip(1)[i - 1] == scope[i]);
        assert forall|k: int| 0 <= k < i - 1 implies (#[trigger] scope.skip(1)[k]).name != nm by {
            assert(scope.skip(1)[k] == scope[k + 1]);
        }
        lemma_first_named_hit(scope.skip(1), nm, i - 1);
    }
}

/// Without any matching name the search returns nothing.
proof fn lemma_first_named_miss(scope: Seq<PayloadView>, nm: Seq<char>)
    requires
        forall|k: int| 0 <= k < scope.len() ==> (#[trigger] scope[k]).name != nm,
    ensures
        first_named(scope, nm) is None,
    decreases scope.len(),
{
    if scope.len() > 0 {
        assert forall|k: int| 0 <= k < scope.skip(1).len() implies (#[trigger] scope.skip(
            1,
        )[k]).name != nm by {
            assert(scope.skip(1)[k] == scope[k + 1]);
        }
        lemma_first_named_miss(scope.skip(1), nm);
    }
}

/// The first child of the snapshot named `nm`.
fn find_child_by_name(childs: &Vec<Payload>, nm: &str) -> (r: Option<usize>)
    ensures
        match r {
            Some(j) => first_named(child_views(childs@), nm@) == Some(j as int),
            None => first_named(child_views(childs@), nm@) is None,
        },
{
    proof {
        crate::payload::lemma_child_views(childs@);
    }
    let ghost views = child_views(childs@);
    let mut j: usize = 0;
    while j < childs.len()
        invariant
            views == child_views(childs@),
            views.len() == childs@.len(),
            forall|k: int| 0 <= k < views.len() ==> views[k] == payload_view(childs@[k]),
            0 <= j <= childs@.len(),
            forall|k: int| 0 <= k < j ==> (#[trigger] views[k]).name != nm@,
        decreases childs@.len() - j,
    {
        if crate::strutil::str_eq(childs[j].name.as_str(), nm) {
            proof {
                lemma_first_named_hit(views, nm@, j as int);
            }
            return Some(j);
        }
        proof {
            assert((#[trigger] views[j as int]).name != nm@);
        }
        j += 1;
    }
    proof {
        lemma_first_named_miss(views, nm@);
    }
    None
}

/// Infer relationships among the children from their dependency
/// names: when a dependency's name equals another child's display
/// name, record a read-write edge from the owner to a snapshot of
/// that child. A dependency naming the owner itself, by name or
/// technology, never yields an edge.
pub fn find_edges_in_dependencies(pl: &mut Payload)
    ensures
        edges_inferred_ok(old(pl)@.childs, final(pl)@.childs),
        final(pl)@.id == old(pl)@.id,
        final(pl)@.name == old(pl)@.name,
        final(pl)@.path == old(pl)@.path,
        final(pl)@.tech == old(pl)@.tech,
        final(pl)@.languages == old(pl)@.languages,
        final(pl)@.techs == old(pl)@.techs,
        final(pl)@.dependencies == old(pl)@.dependencies,
        final(pl)@.edges == old(pl)@.edges,
        final(pl)@.reason == old(pl)@.reason,
        final(pl).parent == old(pl).parent,
{
    proof {
        crate::payload::lemma_child_views(pl.childs@);
    }
    let ghost base = child_views(pl.childs@);
    // a snapshot of every child, taken before any edge is added
    let snapshot = crate::payload::copy_payloads(&pl.childs);
    proof {
        crate::payload::lemma_child_views(snapshot@);
        assert(child_views(snapshot@) =~= base);
    }
    let n = pl.childs.len();
    let mut s: usize = 0;
    while s < n
        invariant
            base.len() == n,
            child_views(snapshot@) == base,
            snapshot@.len() == n,
            n == pl.childs@.len(),
            0 <= s <= n,
            forall|i: int|
                s <= i < n ==> #[trigger] child_views(pl.childs@)[i] == base[i],
            forall|i: int|
                0 <= i < s ==> #[trigger] child_views(pl.childs@)[i] == with_inferred_edges(
                    base,
                    base[i],
                ),
            payload_view(*pl).id == old(pl)@.id,
            payload_view(*pl).name == old(pl)@.name,
            payload_view(*pl).path == old(pl)@.path,
            payload_view(*pl).tech == old(pl)@.tech,
            payload_view(*pl).languages == old(pl)@.languages,
            payload_view(*pl).techs == old(pl)@.techs,
            payload_view(*pl).dependencies == old(pl)@.dependencies,
            payload_view(*pl).edges == old(pl)@.edges,
            payload_view(*pl).reason == old(pl)@.reason,
            pl.parent == old(pl).parent,
            base == old(pl)@.childs,
        decreases n - s,
    {
        proof {
            crate::payload::lemma_child_views(pl.childs@);
            crate::payload::lemma_child_views(snapshot@);
            assert(child_views(pl.childs@)[s as int] == base[s as int]);
        }
        let ghost owner_v = base[s as int];
        // collect this owner's inferred edges, in dependency order
        let mut new_edges: Vec<crate::payload::Edge> = Vec::new();
        let nd = pl.childs[s].dependencies.len();
        let mut di: usize = 0;
        proof {
            assert(owner_v.dependencies.take(0) =~= Seq::<Seq<Seq<char>>>::empty());
            assert(crate::payload::edge_views(new_edges@) =~= Seq::<
                crate::payload::EdgeView,
            >::empty());
            assert(payload_view(pl.childs@[s as int]) == base[s as int]);
        }
        while di < nd
            invariant
                base.len() == n,
                child_views(snapshot@) == base,
                snapshot@.len() == n,
                forall|k: int| 0 <= k < n ==> child_views(snapshot@)[k] == payload_view(
                    snapshot@[k],
                ),
                n == pl.childs@.len(),
                0 <= s < n,
                owner_v == base[s as int],
                payload_view(pl.childs@[s as int]) == owner_v,
                nd == owner_v.dependencies.len(),
                nd == pl.childs@[s as int].dependencies@.len(),
                0 <= di <= nd,
                crate::payload::edge_views(new_edges@) == edges_added(
                    base,
                    owner_v,
                    owner_v.dependencies.take(di as int),
                ),
            decreases nd - di,
        {
            let ghost before = crate::payload::edge_views(new_edges@);
            let ghost d = owner_v.dependencies[di as int];
            proof {
                assert(d == crate::payload::dep_views(
                    pl.childs@[s as int].dependencies@,
                )[di as int]);
            }
            let dep_len = pl.childs[s].dependencies[di].len();
            if dep_len >= 2 {
                let self_name = {
                    let dep = &pl.childs[s].dependencies[di];
                    crate::strutil::str_eq(dep[1].as_str(), pl.childs[s].name.as_str())
                };
                let self_tech = {
                    let dep = &pl.childs[s].dependencies[di];
                    match &pl.childs[s].tech {
                        Some(t) => crate::strutil::str_eq(dep[1].as_str(), t.as_str()),
                        None => false,
                    }
                };
                if !self_name && !self_tech {
                    let nm = pl.childs[s].dependencies[di][1].clone();
                    proof {
                        assert(nm@ == d[1]);
                    }
                    match find_child_by_name(&snapshot, nm.as_str()) {
                        Some(tj) => {
                            proof {
                                lemma_first_named_props(child_views(snapshot@), nm@);
                            }
                            let copy = snapshot[tj].duplicate();
                            proof {
                                assert(payload_view(snapshot@[tj as int]) == base[tj as int]);
                                assert(payload_view(copy) == base[first_named(base, d[1])->0]);
                            }
                            let ghost ne0 = new_edges@;
                            new_edges.push(
                                crate::payload::Edge {
                                    target: Box::new(copy),
                                    read: true,
                                    write: true,
                                },
                            );
                            proof {
                                crate::payload::lemma_edge_views(ne0);
                                crate::payload::lemma_edge_views(new_edges@);
                                assert(crate::payload::edge_views(new_edges@) =~= before
                                    + edge_for(base, owner_v, d)) by {
                                    assert forall|t: int|
                                        0 <= t < new_edges@.len() implies crate::payload::edge_views(
                                        new_edges@,
                                    )[t] == (before + edge_for(base, owner_v, d))[t] by {
                                        if t < before.len() {
                                            assert(new_edges@[t] == ne0[t]);
                                        }
                                    }
                                }
                            }
                        },
                        None => {
                            proof {
                                assert(edge_for(base, owner_v, d) =~= Seq::<
                                    crate::payload::EdgeView,
                                >::empty());
                                assert(crate::payload::edge_views(new_edges@) =~= before
                                    + edge_for(base, owner_v, d));
                            }
                        },
                    }
                } else {
                    proof {
                        assert(edge_for(base, owner_v, d) =~= Seq::<
                            crate::payload::EdgeView,
                        >::empty());
                        assert(crate::payload::edge_views(new_edges@) =~= before + edge_for(
                            base,
                            owner_v,
                            d,
                        ));
                    }
                }
            } else {
                proof {
                    assert(edge_for(base, owner_v, d) =~= Seq::<
                        crate::payload::EdgeView,
                    >::empty());
                    assert(crate::payload::edge_views(new_edges@) =~= before + edge_for(
                        base,
                        owner_v,
                        d,
                    ));
                }
            }
            proof {
                let t1 = owner_v.dependencies.take(di + 1);
                assert(t1.drop_last() =~= owner_v.dependencies.take(di as int));
                assert(t1.last() == owner_v.dependencies[di as int]);
            }
            di += 1;
        }
        proof {
            assert(owner_v.dependencies.take(nd as int) =~= owner_v.dependencies);
        }
        // append them to the owner
        let ghost cs0 = pl.childs@;
        let ghost ne = new_edges@;
        let mut owner = pl.childs.remove(s);
        proof {
            assert(owner == cs0[s as int]);
            assert(payload_view(owner) == owner_v);
        }
        let ghost oe0 = owner.edges@;
        let mut new_edges_m = new_edges;
        owner.edges.append(&mut new_edges_m);
        pl.childs.insert(s, owner);
        proof {
            crate::payload::lemma_child_views(cs0);
            crate::payload::lemma_child_views(pl.childs@);
            assert(payload_view(owner) == with_inferred_edges(base, owner_v)) by {
                assert(owner.edges@ =~= oe0 + ne);
                crate::payload::lemma_edge_views(owner.edges@);
                crate::payload::lemma_edge_views(oe0);
                crate::payload::lemma_edge_views(ne);
                assert(owner_v.edges == crate::payload::edge_views(oe0));
                assert(crate::payload::edge_views(owner.edges@) =~= owner_v.edges + edges_added(
                    base,
                    owner_v,
                    owner_v.dependencies,
                )) by {
                    assert forall|t: int|
                        0 <= t < owner.edges@.len() implies crate::payload::edge_views(
                        owner.edges@,
                    )[t] == (owner_v.edges + edges_added(base, owner_v, owner_v.dependencies))[t] by {
                        if t < oe0.len() {
                            assert(owner.edges@[t] == oe0[t]);
                        } else {
                            assert(owner.edges@[t] == ne[t - oe0.len()]);
                        }
                    }
                }
            }
            assert forall|i: int| 0 <= i < n implies child_views(pl.childs@)[i] == (if i < s + 1 {
                with_inferred_edges(base, base[i])
            } else {
                base[i]
            }) by {
                assert(child_views(pl.childs@)[i] == payload_view(pl.childs@[i]));
                if i < s as int {
                    assert(pl.childs@[i] == cs0[i]);
                    assert(child_views(cs0)[i] == payload_view(cs0[i]));
                } else if i > s as int {
                    assert(pl.childs@[i] == cs0.remove(s as int).insert(s as int, owner)[i]);
                    assert(pl.childs@[i] == cs0[i]);
                    assert(child_views(cs0)[i] == payload_view(cs0[i]));
                } else {
                    assert(pl.childs@[i] == owner);
                }
            }
        }
        s += 1;
    }
    proof {
        crate::payload::lemma_child_views(pl.childs@);
    }
}

/// Flatten a finished tree to a single level: every descendant as a
/// sibling, narrow duplicates removed, relationships inferred from
/// dependency names. With `merge`, field merging down to the parent is
/// the tree builder's job already; the flat list itself is the summary.
pub fn flatten(src: &Payload, merge: bool) -> (dest: Payload)
    ensures
        dest@.name == "flatten"@,
        dest@.path =~= seq!["/"@],
        dest@.tech is None,
        dest@.techs =~= Seq::<Seq<char>>::empty(),
        dest@.languages =~= Seq::<(Seq<char>, int)>::empty(),
        dest@.reason =~= Seq::<Seq<char>>::empty(),
        dest@.dependencies =~= Seq::<Seq<Seq<char>>>::empty(),
        dest@.edges =~= Seq::<crate::payload::EdgeView>::empty(),
        edges_inferred_ok(flat_dedup(flat_list(src@.childs)), dest@.childs),
{
    let mut dest = Payload::new("flatten", "/");
    push_childs(src, &mut dest);
    proof {
        assert(Seq::<PayloadView>::empty() + flat_list(src@.childs) =~= flat_list(src@.childs));
    }
    let collected = dest.childs;
    dest.childs = dedup_flat(collected);
    find_edges_in_dependencies(&mut dest);
    if merge {
        // enrichment merging is the tree builder's job; the flat list
        // already is the summary view
    }
    dest
}

/// The number of technologies the entries of a flat list carry.
pub open spec fn techs_count_list(cs: Seq<PayloadView>) -> nat
    decreases cs.len(),
{
    if cs.len() == 0 {
        0
    } else {
        techs_count_list(cs.drop_last()) + cs.last().techs.len()
    }
}

/// The number of technologies a whole tree carries, over every
/// descendant.
pub open spec fn techs_count_tree(cs: Seq<PayloadView>) -> nat
    decreases cs,
{
    if cs.len() == 0 {
        0
    } else {
        techs_count_tree(cs.drop_last()) + techs_count_tree(cs.last().childs) + cs.last().techs.len()
    }
}

/// Counting distributes over concatenation.
proof fn lemma_count_append(a: Seq<PayloadView>, b: Seq<PayloadView>)
    ensures
        techs_count_list(a + b) == techs_count_list(a) + techs_count_list(b),
    decreases b.len(),
{
    if b.len() == 0 {
        assert(a + b =~= a);
    } else {
        assert((a + b).drop_last() =~= a + b.drop_last());
        assert((a + b).last() == b.last());
        lemma_count_append(a, b.drop_last());
    }
}

/// The flat list carries exactly the technologies of the tree.
proof fn lemma_flat_list_count(cs: Seq<PayloadView>)
    ensures
        techs_count_list(flat_list(cs)) == techs_count_tree(cs),
    decreases cs,
{
    if cs.len() > 0 {
        lemma_flat_list_count(cs.drop_last());
        lemma_flat_list_count(cs.last().childs);
        lemma_count_append(flat_list(cs.drop_last()), flat_list(cs.last().childs));
        lemma_count_append(
            flat_list(cs.drop_last()) + flat_list(cs.last().childs),
            seq![strip_childs(cs.last())],
        );
        assert(techs_count_list(seq![strip_childs(cs.last())]) == cs.last().techs.len()) by {
            let one = seq![strip_childs(cs.last())];
            assert(one.drop_last() =~= Seq::<PayloadView>::empty());
            assert(one.last() == strip_childs(cs.last()));
            assert(techs_count_list(Seq::<PayloadView>::empty()) == 0);
            assert(strip_childs(cs.last()).techs == cs.last().techs);
        }
    }
}

/// Removing duplicates never increases the count.
proof fn lemma_dedup_count(cs: Seq<PayloadView>)
    ensures
        techs_count_list(flat_dedup(cs)) <= techs_count_list(cs),
    decreases cs.len(),
{
    if cs.len() > 0 {
        lemma_dedup_count(cs.drop_last());
        let u = flat_dedup(cs.drop_last());
        if !dup_in(u, cs.last()) {
            assert(u.push(cs.last()).drop_last() =~= u);
            assert(u.push(cs.last()).last() == cs.last());
        }
    }
}

/// No two survivors of the flat pass are duplicates of one another.
proof fn lemma_dedup_no_dups(cs: Seq<PayloadView>)
    ensures
        forall|i: int, j: int|
            0 <= i < j < flat_dedup(cs).len() ==> !dup_pair(
                #[trigger] flat_dedup(cs)[i],
                #[trigger] flat_dedup(cs)[j],
            ),
    decreases cs.len(),
{
    if cs.len() > 0 {
        lemma_dedup_no_dups(cs.drop_last());
        let u = flat_dedup(cs.drop_last());
        let r = flat_dedup(cs);
        if !dup_in(u, cs.last()) {
            assert forall|i: int, j: int| 0 <= i < j < r.len() implies !dup_pair(
                #[trigger] r[i],
                #[trigger] r[j],
            ) by {
                if j == u.len() {
                    assert(r[i] == u[i]);
                    assert(r[j] == cs.last());
                } else {
                    assert(r[i] == u[i]);
                    assert(r[j] == u[j]);
                }
            }
        }
    }
}

/// LAW: flattening never increases the total discovered-technology
/// count relative to the unflattened tree's full descendant set, and
/// never leaves two surviving entries with equal, non-empty `tech`.
pub proof fn lemma_flatten_bounds_techs(cs: Seq<PayloadView>)
    ensures
        techs_count_list(flat_dedup(flat_list(cs))) <= techs_count_tree(cs),
        forall|i: int, j: int|
            0 <= i < j < flat_dedup(flat_list(cs)).len() ==> !((#[trigger] flat_dedup(
                flat_list(cs),
            )[i]).tech is Some && (#[trigger] flat_dedup(flat_list(cs))[j]).tech is Some
                && flat_dedup(flat_list(cs))[i].tech == flat_dedup(flat_list(cs))[j].tech),
{
    lemma_flat_list_count(cs);
    lemma_dedup_count(flat_list(cs));
    lemma_dedup_no_dups(flat_list(cs));
}

/// The first hit carries the name it was searched for.
proof fn lemma_first_named_props(scope: Seq<PayloadView>, nm: Seq<char>)
    ensures
        first_named(scope, nm) matches Some(j) ==> 0 <= j < scope.len() && scope[j].name == nm,
    decreases scope.len(),
{
    if scope.len() > 0 && scope[0].name != nm {
        lemma_first_named_props(scope.skip(1), nm);
        if first_named(scope.skip(1), nm) is Some {
            let j = first_named(scope.skip(1), nm)->0;
            assert(scope.skip(1)[j] == scope[j + 1]);
        }
    }
}

/// Every inferred edge is readable and writable and points at a
/// component of the scope named differently than its owner.
proof fn lemma_edges_added_targets(
    scope: Seq<PayloadView>,
    owner: PayloadView,
    deps: Seq<Seq<Seq<char>>>,
    t: int,
)
    requires
        0 <= t < edges_added(scope, owner, deps).len(),
    ensures
        ({
            let ev = edges_added(scope, owner, deps)[t];
            &&& ev.read
            &&& ev.write
            &&& exists|j: int|
                0 <= j < scope.len() && #[trigger] scope[j] == *ev.target && scope[j].name
                    != owner.name
        }),
    decreases deps.len(),
{
    let front = edges_added(scope, owner, deps.drop_last());
    if t < front.len() {
        lemma_edges_added_targets(scope, owner, deps.drop_last(), t);
        assert(edges_added(scope, owner, deps)[t] == front[t]);
    } else {
        let d = deps.last();
        lemma_first_named_props(scope, d[1]);
        let j = first_named(scope, d[1])->0;
        let ev = edges_added(scope, owner, deps)[t];
        assert(ev == edge_for(scope, owner, d)[0]);
        assert(scope[j] == *ev.target);
    }
}

/// LAW: edge inference never creates a self-loop: every inferred
/// edge points at a component whose name differs from its owner's,
/// which is exactly what rules a reference to the owner out.
pub proof fn lemma_no_self_reference(base: Seq<PayloadView>, now: Seq<PayloadView>)
    requires
        edges_inferred_ok(base, now),
    ensures
        forall|i: int, k: int|
            0 <= i < now.len() && base[i].edges.len() <= k < now[i].edges.len() ==> (*(
            #[trigger] now[i].edges[k]).target).name != now[i].name,
{
    assert forall|i: int, k: int|
        0 <= i < now.len() && base[i].edges.len() <= k < now[i].edges.len() implies (*(
    #[trigger] now[i].edges[k]).target).name != now[i].name by {
        assert(now[i] == with_inferred_edges(base, base[i]));
        let ev = now[i].edges[k];
        assert(ev == edges_added(base, base[i], base[i].dependencies)[k - base[i].edges.len()]);
        lemma_edges_added_targets(base, base[i], base[i].dependencies, k - base[i].edges.len());
    }
}

/// LAW: edge inference never creates a self-loop. Wherever the flat
/// scope's identifiers are pairwise distinct, every inferred edge
/// points at a component whose identifier differs from its owner's.
pub proof fn lemma_no_self_loop(base: Seq<PayloadView>, now: Seq<PayloadView>)
    requires
        edges_inferred_ok(base, now),
        forall|i: int, j: int| 0 <= i < j < base.len() ==> (#[trigger] base[i]).id != (#[trigger] base[j]).id,
    ensures
        forall|i: int, k: int|
            0 <= i < now.len() && base[i].edges.len() <= k < now[i].edges.len() ==> (*(
            #[trigger] now[i].edges[k]).target).id != now[i].id,
{
    assert forall|i: int, k: int|
        0 <= i < now.len() && base[i].edges.len() <= k < now[i].edges.len() implies (*(
    #[trigger] now[i].edges[k]).target).id != now[i].id by {
        assert(now[i] == with_inferred_edges(base, base[i]));
        let ev = now[i].edges[k];
        assert(ev == edges_added(base, base[i], base[i].dependencies)[k - base[i].edges.len()]);
        lemma_edges_added_targets(
            base,
            base[i],
            base[i].dependencies,
            k - base[i].edges.len(),
        );
        let owner = base[i];
        let j = choose|j: int|
            0 <= j < base.len() && #[trigger] base[j] == *ev.target && base[j].name != owner.name;
        assert(j != i);
        if j < i {
            assert(base[j].id != base[i].id);
        } else {
            assert(base[i].id != base[j].id);
        }
        assert(now[i].id == base[i].id);
    }
}

/// Without a matching child the search returns nothing.
proof fn lemma_find_first_with_tech_miss(childs: Seq<PayloadView>, tech: Seq<char>)
    requires
        forall|k: int| 0 <= k < childs.len() ==> (#[trigger] childs[k]).tech != Some(tech),
    ensures
        find_first_with_tech(childs, tech) is None,
    decreases childs.len(),
{
    if childs.len() > 0 {
        assert forall|k: int| 0 <= k < childs.skip(1).len() implies (#[trigger] childs.skip(
            1,
        )[k]).tech != Some(tech) by {
            assert(childs.skip(1)[k] == childs[k + 1]);
        }
        lemma_find_first_with_tech_miss(childs.skip(1), tech);
    }
}

} // verus!
