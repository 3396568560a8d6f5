//! Small verified helpers for strings and vectors of strings.

use vstd::prelude::*;

verus! {

/// True when some entry of `v` views to `s`.
pub open spec fn seq_has_str(v: Seq<String>, s: Seq<char>) -> bool {
    exists|i: int| 0 <= i < v.len() && #[trigger] v[i]@ == s
}

/// True when the entries of `v` view to pairwise distinct strings.
pub open spec fn distinct_strs(v: Seq<String>) -> bool {
    forall|i: int, j: int| 0 <= i < j < v.len() ==> #[trigger] v[i]@ != #[trigger] v[j]@
}

/// The views of a vector of strings.
pub open spec fn str_views(v: Seq<String>) -> Seq<Seq<char>> {
    v.map_values(|s: String| s@)
}

/// Pairwise distinct character sequences.
pub open spec fn distinct_seqs(v: Seq<Seq<char>>) -> bool {
    forall|i: int, j: int| 0 <= i < j < v.len() ==> #[trigger] v[i] != #[trigger] v[j]
}

/// Set union in insertion order: `a`, then each member of `b` not yet
/// present.
pub open spec fn union_strs(a: Seq<Seq<char>>, b: Seq<Seq<char>>) -> Seq<Seq<char>>
    decreases b.len(),
{
    if b.len() == 0 {
        a
    } else {
        let u = union_strs(a, b.drop_last());
        if u.contains(b.last()) {
            u
        } else {
            u.push(b.last())
        }
    }
}

/// The union holds exactly the members of both sides.
pub proof fn lemma_union_strs_membership(a: Seq<Seq<char>>, b: Seq<Seq<char>>)
    ensures
        forall|x: Seq<char>|
            #[trigger] union_strs(a, b).contains(x) <==> a.contains(x) || b.contains(x),
    decreases b.len(),
{
    if b.len() > 0 {
        let front = b.drop_last();
        lemma_union_strs_membership(a, front);
        let u = union_strs(a, front);
        let w = union_strs(a, b);
        assert forall|x: Seq<char>| #[trigger] w.contains(x) implies a.contains(x) || b.contains(
            x,
        ) by {
            let i = choose|i: int| 0 <= i < w.len() && w[i] == x;
            if i < u.len() {
                assert(u[i] == x);
                assert(u.contains(x));
                if front.contains(x) {
                    let k = choose|k: int| 0 <= k < front.len() && front[k] == x;
                    assert(b[k] == x);
                    assert(b.contains(x));
                }
            } else {
                assert(x == b.last());
                assert(b[b.len() - 1] == x);
                assert(b.contains(x));
            }
        }
        assert forall|x: Seq<char>| a.contains(x) || b.contains(x) implies #[trigger] w.contains(
            x,
        ) by {
            if a.contains(x) || front.contains(x) {
                assert(u.contains(x));
                let i = choose|i: int| 0 <= i < u.len() && u[i] == x;
                assert(w[i] == x);
            } else {
                let i = choose|i: int| 0 <= i < b.len() && b[i] == x;
                if i < b.len() - 1 {
                    assert(front[i] == x);
                    assert(front.contains(x));
                    assert(false);
                } else {
                    assert(x == b.last());
                    if u.contains(x) {
                        let k = choose|k: int| 0 <= k < u.len() && u[k] == x;
                        assert(w[k] == x);
                    } else {
                        assert(w[u.len() as int] == x);
                    }
                }
            }
        }
    }
}

/// The union of a duplicate-free set stays duplicate-free.
pub proof fn lemma_union_strs_distinct(a: Seq<Seq<char>>, b: Seq<Seq<char>>)
    requires
        distinct_seqs(a),
    ensures
        distinct_seqs(union_strs(a, b)),
    decreases b.len(),
{
    if b.len() > 0 {
        lemma_union_strs_distinct(a, b.drop_last());
        let u = union_strs(a, b.drop_last());
        if !u.contains(b.last()) {
            assert forall|i: int, j: int|
                0 <= i < j < u.push(b.last()).len() implies #[trigger] u.push(b.last())[i] != (
            #[trigger] u.push(b.last())[j]) by {
                if j == u.len() {
                    assert(u.push(b.last())[i] == u[i]);
                    assert(u.contains(u[i])) by {
                        assert(0 <= i < u.len());
                    }
                }
            }
        }
    }
}

/// The left side of a union survives as its prefix.
pub proof fn lemma_union_strs_grows(a: Seq<Seq<char>>, b: Seq<Seq<char>>)
    ensures
        union_strs(a, b).len() >= a.len(),
        forall|i: int| 0 <= i < a.len() ==> #[trigger] union_strs(a, b)[i] == a[i],
    decreases b.len(),
{
    if b.len() > 0 {
        lemma_union_strs_grows(a, b.drop_last());
    }
}

/// Append to `dst` the members of `src` that it does not yet hold.
pub fn extend_unique(dst: &mut Vec<String>, src: &Vec<String>)
    ensures
        str_views(final(dst)@) == union_strs(str_views(old(dst)@), str_views(src@)),
        distinct_seqs(str_views(old(dst)@)) ==> distinct_seqs(str_views(final(dst)@)),
{
    let ghost d0 = dst@;
    let mut k: usize = 0;
    proof {
        assert(str_views(src@).take(0) =~= Seq::<Seq<char>>::empty());
    }
    while k < src.len()
        invariant
            0 <= k <= src@.len(),
            str_views(dst@) == union_strs(str_views(d0), str_views(src@).take(k as int)),
        decreases src@.len() - k,
    {
        let ghost before = str_views(dst@);
        if !contains_str(dst, src[k].as_str()) {
            dst.push(src[k].clone());
            proof {
                assert(str_views(dst@) =~= before.push(src@[k as int]@));
            }
        }
        proof {
            let tk1 = str_views(src@).take(k + 1);
            assert(tk1.drop_last() =~= str_views(src@).take(k as int));
            assert(tk1.last() == src@[k as int]@);
        }
        k += 1;
    }
    proof {
        assert(str_views(src@).take(src@.len() as int) =~= str_views(src@));
        if distinct_seqs(str_views(d0)) {
            lemma_union_strs_distinct(str_views(d0), str_views(src@));
        }
    }
}

/// A dependency triple's identity: its parts joined by underscores.
pub open spec fn spec_join_key(parts: Seq<Seq<char>>) -> Seq<char>
    decreases parts.len(),
{
    if parts.len() == 0 {
        Seq::empty()
    } else if parts.len() == 1 {
        parts[0]
    } else {
        spec_join_key(parts.drop_last()) + seq!['_'] + parts.last()
    }
}

/// Whether some triple of `deps` carries the identity `key`.
pub open spec fn spec_has_key(deps: Seq<Seq<Seq<char>>>, key: Seq<char>) -> bool {
    exists|i: int| 0 <= i < deps.len() && spec_join_key(#[trigger] deps[i]) == key
}

/// Triples deduplicated by their joined identity; the first occurrence
/// of a key is the one kept.
pub open spec fn spec_dedup_by_key(deps: Seq<Seq<Seq<char>>>) -> Seq<Seq<Seq<char>>>
    decreases deps.len(),
{
    if deps.len() == 0 {
        Seq::empty()
    } else {
        let u = spec_dedup_by_key(deps.drop_last());
        if spec_has_key(u, spec_join_key(deps.last())) {
            u
        } else {
            u.push(deps.last())
        }
    }
}

/// No two kept triples share an identity.
proof fn lemma_dedup_distinct_keys(deps: Seq<Seq<Seq<char>>>)
    ensures
        forall|i: int, j: int|
            0 <= i < j < spec_dedup_by_key(deps).len() ==> spec_join_key(
                #[trigger] spec_dedup_by_key(deps)[i],
            ) != spec_join_key(#[trigger] spec_dedup_by_key(deps)[j]),
    decreases deps.len(),
{
    if deps.len() > 0 {
        lemma_dedup_distinct_keys(deps.drop_last());
        let u = spec_dedup_by_key(deps.drop_last());
        let r = spec_dedup_by_key(deps);
        if !spec_has_key(u, spec_join_key(deps.last())) {
            assert forall|i: int, j: int| 0 <= i < j < r.len() implies spec_join_key(
                #[trigger] r[i],
            ) != spec_join_key(#[trigger] r[j]) by {
                if j == u.len() {
                    assert(r[i] == u[i]);
                    assert(r[j] == deps.last());
                } else {
                    assert(r[i] == u[i]);
                    assert(r[j] == u[j]);
                }
            }
        }
    }
}

/// Deduplication keeps exactly the identities of its input.
proof fn lemma_dedup_same_keys(deps: Seq<Seq<Seq<char>>>)
    ensures
        forall|k: Seq<char>|
            #[trigger] spec_has_key(spec_dedup_by_key(deps), k) <==> spec_has_key(deps, k),
    decreases deps.len(),
{
    if deps.len() > 0 {
        lemma_dedup_same_keys(deps.drop_last());
        let front = deps.drop_last();
        let u = spec_dedup_by_key(front);
        let r = spec_dedup_by_key(deps);
        assert forall|k: Seq<char>| #[trigger]
            spec_has_key(r, k) <==> spec_has_key(deps, k) by {
            if spec_has_key(r, k) {
                let i = choose|i: int| 0 <= i < r.len() && spec_join_key(#[trigger] r[i]) == k;
                if i < u.len() {
                    assert(spec_has_key(u, k));
                    assert(spec_has_key(front, k));
                    let t = choose|t: int|
                        0 <= t < front.len() && spec_join_key(#[trigger] front[t]) == k;
                    assert(deps[t] == front[t]);
                    assert(spec_has_key(deps, k));
                } else {
                    assert(r[i] == deps.last());
                    assert(deps[deps.len() - 1] == deps.last());
                    assert(spec_has_key(deps, k));
                }
            }
            if spec_has_key(deps, k) {
                let i = choose|i: int|
                    0 <= i < deps.len() && spec_join_key(#[trigger] deps[i]) == k;
                if i < deps.len() - 1 {
                    assert(front[i] == deps[i]);
                    assert(spec_has_key(front, k));
                    assert(spec_has_key(u, k));
                    let t = choose|t: int| 0 <= t < u.len() && spec_join_key(#[trigger] u[t]) == k;
                    if spec_has_key(u, spec_join_key(deps.last())) {
                        assert(r[t] == u[t]);
                    } else {
                        assert(r[t] == u[t]);
                    }
                    assert(spec_has_key(r, k));
                } else {
                    let kk = spec_join_key(deps.last());
                    if spec_has_key(u, kk) {
                        let t = choose|t: int|
                            0 <= t < u.len() && spec_join_key(#[trigger] u[t]) == kk;
                        assert(r[t] == u[t]);
                        assert(spec_has_key(r, k));
                    } else {
                        assert(r[u.len() as int] == deps.last());
                        assert(spec_has_key(r, k));
                    }
                }
            }
        }
    }
}

/// A list whose identities are pairwise distinct is already
/// deduplicated.
proof fn lemma_dedup_of_distinct(deps: Seq<Seq<Seq<char>>>)
    requires
        forall|i: int, j: int|
            0 <= i < j < deps.len() ==> spec_join_key(#[trigger] deps[i]) != spec_join_key(
                #[trigger] deps[j],
            ),
    ensures
        spec_dedup_by_key(deps) == deps,
    decreases deps.len(),
{
    if deps.len() > 0 {
        let front = deps.drop_last();
        assert forall|i: int, j: int| 0 <= i < j < front.len() implies spec_join_key(
            #[trigger] front[i],
        ) != spec_join_key(#[trigger] front[j]) by {
            assert(front[i] == deps[i]);
            assert(front[j] == deps[j]);
        }
        lemma_dedup_of_distinct(front);
        assert(!spec_has_key(front, spec_join_key(deps.last()))) by {
            if spec_has_key(front, spec_join_key(deps.last())) {
                let t = choose|t: int|
                    0 <= t < front.len() && spec_join_key(#[trigger] front[t]) == spec_join_key(
                        deps.last(),
                    );
                assert(deps[t] == front[t]);
                assert(deps[deps.len() - 1] == deps.last());
            }
        }
        assert(spec_dedup_by_key(deps) =~= deps);
    }
}

/// Appending triples whose identities are all covered already changes
/// nothing under deduplication.
proof fn lemma_dedup_append_covered(x: Seq<Seq<Seq<char>>>, y: Seq<Seq<Seq<char>>>)
    requires
        spec_dedup_by_key(x) == x,
        forall|i: int| 0 <= i < y.len() ==> spec_has_key(x, spec_join_key(#[trigger] y[i])),
    ensures
        spec_dedup_by_key(x + y) == x,
    decreases y.len(),
{
    if y.len() == 0 {
        assert(x + y =~= x);
    } else {
        let front = y.drop_last();
        assert forall|i: int| 0 <= i < front.len() implies spec_has_key(
            x,
            spec_join_key(#[trigger] front[i]),
        ) by {
            assert(front[i] == y[i]);
        }
        lemma_dedup_append_covered(x, front);
        assert((x + y).drop_last() =~= x + front);
        assert((x + y).last() == y.last());
        assert(y[y.len() - 1] == y.last());
        assert(spec_has_key(x, spec_join_key(y.last())));
    }
}

/// LAW: the dependency union is idempotent. Once `b` has been merged
/// into `a` under the joined-identity rule, merging `b` in again
/// leaves the result exactly as it was.
pub proof fn lemma_combine_idempotent(a: Seq<Seq<Seq<char>>>, b: Seq<Seq<Seq<char>>>)
    ensures
        spec_dedup_by_key(spec_dedup_by_key(a + b) + b) == spec_dedup_by_key(a + b),
{
    let d = spec_dedup_by_key(a + b);
    lemma_dedup_distinct_keys(a + b);
    lemma_dedup_of_distinct(d);
    lemma_dedup_same_keys(a + b);
    assert forall|i: int| 0 <= i < b.len() implies spec_has_key(
        d,
        spec_join_key(#[trigger] b[i]),
    ) by {
        assert((a + b)[a.len() + i] == b[i]);
        assert(spec_has_key(a + b, spec_join_key(b[i])));
    }
    lemma_dedup_append_covered(d, b);
}

/// The parts of `dep` joined by underscores.
pub fn join_key(dep: &Vec<String>) -> (r: String)
    ensures
        r@ == spec_join_key(str_views(dep@)),
{
    if dep.len() == 0 {
        return String::new();
    }
    let mut out = dep[0].clone();
    let mut i: usize = 1;
    proof {
        assert(str_views(dep@).take(1) =~= seq![dep@[0]@]);
    }
    while i < dep.len()
        invariant
            1 <= i <= dep@.len(),
            out@ == spec_join_key(str_views(dep@).take(i as int)),
        decreases dep@.len() - i,
    {
        proof {
            reveal_strlit("_");
        }
        out.append("_");
        out.append(dep[i].as_str());
        proof {
            let t1 = str_views(dep@).take(i + 1);
            assert(t1.drop_last() =~= str_views(dep@).take(i as int));
            assert(t1.last() == dep@[i as int]@);
            assert("_"@ =~= seq!['_']);
            assert(out@ =~= spec_join_key(str_views(dep@).take(i as int)) + seq!['_'] + dep@[i as int]@);
        }
        i += 1;
    }
    proof {
        assert(str_views(dep@).take(dep@.len() as int) =~= str_views(dep@));
    }
    out
}

/// Character-by-character string equality.
pub fn str_eq(a: &str, b: &str) -> (r: bool)
    ensures
        r == (a@ == b@),
{
    let alen = a.unicode_len();
    let blen = b.unicode_len();
    if alen != blen {
        assert(a@ != b@) by {
            assert(a@.len() != b@.len());
        }
        return false;
    }
    let mut i: usize = 0;
    while i < alen
        invariant
            alen == a@.len(),
            alen == b@.len(),
            0 <= i <= alen,
            forall|k: int| 0 <= k < i ==> a@[k] == b@[k],
        decreases alen - i,
    {
        if a.get_char(i) != b.get_char(i) {
            assert(a@ != b@) by {
                assert(a@[i as int] != b@[i as int]);
            }
            return false;
        }
        i += 1;
    }
    assert(a@ =~= b@);
    true
}

/// Whether some entry of `v` equals `s`.
pub fn contains_str(v: &Vec<String>, s: &str) -> (r: bool)
    ensures
        r == seq_has_str(v@, s@),
        r == str_views(v@).contains(s@),
{
    let mut i: usize = 0;
    while i < v.len()
        invariant
            0 <= i <= v@.len(),
            forall|k: int| 0 <= k < i ==> #[trigger] v@[k]@ != s@,
        decreases v@.len() - i,
    {
        if str_eq(v[i].as_str(), s) {
            assert(seq_has_str(v@, s@));
            assert(str_views(v@)[i as int] == s@);
            return true;
        }
        i += 1;
    }
    proof {
        if str_views(v@).contains(s@) {
            let j = choose|j: int| 0 <= j < str_views(v@).len() && str_views(v@)[j] == s@;
            assert(v@[j]@ == s@);
        }
    }
    false
}

/// Copy of a vector of strings, element for element.
pub fn copy_strings(v: &Vec<String>) -> (r: Vec<String>)
    ensures
        r@.len() == v@.len(),
        forall|i: int| 0 <= i < v@.len() ==> #[trigger] r@[i] == v@[i],
{
    let mut out: Vec<String> = Vec::new();
    let mut i: usize = 0;
    while i < v.len()
        invariant
            0 <= i <= v@.len(),
            out@.len() == i,
            forall|k: int| 0 <= k < i ==> #[trigger] out@[k] == v@[k],
        decreases v@.len() - i,
    {
        out.push(v[i].clone());
        i += 1;
    }
    out
}

/// A prefix of a prefix is a prefix.
pub proof fn lemma_prefix_trans<T>(a: Seq<T>, b: Seq<T>, c: Seq<T>)
    requires
        a.is_prefix_of(b),
        b.is_prefix_of(c),
    ensures
        a.is_prefix_of(c),
{
    assert(c.subrange(0, b.len() as int).subrange(0, a.len() as int) =~= c.subrange(
        0,
        a.len() as int,
    ));
}

/// Every sequence is a prefix of itself.
pub proof fn lemma_prefix_refl<T>(a: Seq<T>)
    ensures
        a.is_prefix_of(a),
{
    assert(a.subrange(0, a.len() as int) =~= a);
}

/// Index of the first occurrence of `c` in `s`, if any.
pub open spec fn spec_find(s: Seq<char>, c: char) -> Option<int>
    decreases s.len(),
{
    if s.len() == 0 {
        None
    } else if s[0] == c {
        Some(0int)
    } else {
        match spec_find(s.skip(1), c) {
            None => None,
            Some(i) => Some(i + 1),
        }
    }
}

/// The first occurrence points at `c` and nothing before it is `c`.
pub proof fn lemma_spec_find(s: Seq<char>, c: char)
    ensures
        spec_find(s, c) matches Some(i) ==> 0 <= i < s.len() && s[i] == c && forall|k: int|
            0 <= k < i ==> s[k] != c,
        spec_find(s, c) is None ==> forall|k: int| 0 <= k < s.len() ==> s[k] != c,
    decreases s.len(),
{
    if s.len() == 0 {
    } else if s[0] == c {
    } else {
        let t = s.skip(1);
        lemma_spec_find(t, c);
        if spec_find(t, c) is Some {
            let i = spec_find(t, c)->0;
            assert(t[i] == s[i + 1]);
            assert forall|k: int| 0 <= k < i + 1 implies s[k] != c by {
                if k > 0 {
                    assert(t[k - 1] == s[k]);
                }
            }
        } else {
            assert forall|k: int| 0 <= k < s.len() implies s[k] != c by {
                if k > 0 {
                    assert(t[k - 1] == s[k]);
                }
            }
        }
    }
}

/// First index of `c` in `s`.
pub fn find_char(s: &str, c: char) -> (r: Option<usize>)
    ensures
        match r {
            Some(i) => spec_find(s@, c) == Some(i as int),
            None => spec_find(s@, c) is None,
        },
{
    let n = s.unicode_len();
    let mut i: usize = 0;
    while i < n
        invariant
            n == s@.len(),
            0 <= i <= n,
            forall|k: int| 0 <= k < i ==> s@[k] != c,
        decreases n - i,
    {
        if s.get_char(i) == c {
            proof {
                lemma_find_from_witness(s@, c, i as int);
            }
            return Some(i);
        }
        i += 1;
    }
    proof {
        lemma_spec_find(s@, c);
        if spec_find(s@, c) is Some {
            let j = spec_find(s@, c)->0;
            assert(s@[j] == c);
            assert(false);
        }
    }
    None
}

/// If `s[i] == c` and nothing before `i` is `c`, the first occurrence is `i`.
proof fn lemma_find_from_witness(s: Seq<char>, c: char, i: int)
    requires
        0 <= i < s.len(),
        s[i] == c,
        forall|k: int| 0 <= k < i ==> s[k] != c,
    ensures
        spec_find(s, c) == Some(i),
    decreases i,
{
    if i == 0 {
    } else {
        assert forall|k: int| 0 <= k < i - 1 implies s.skip(1)[k] != c by {
            assert(s.skip(1)[k] == s[k + 1]);
        }
        assert(s.skip(1)[i - 1] == s[i]);
        lemma_find_from_witness(s.skip(1), c, i - 1);
    }
}

/// `s` with every occurrence of `from` (left to right, non-overlapping)
/// replaced by `to`; `from` must not be empty.
pub open spec fn spec_replace(s: Seq<char>, from: Seq<char>, to: Seq<char>) -> Seq<char>
    decreases s.len(),
{
    if from.len() == 0 || s.len() < from.len() {
        s
    } else if s.take(from.len() as int) == from {
        to + spec_replace(s.skip(from.len() as int), from, to)
    } else {
        seq![s[0]] + spec_replace(s.skip(1), from, to)
    }
}

/// Whether `s` continues with `pat` at position `i`.
fn matches_at(s: &str, n: usize, i: usize, pat: &str, m: usize) -> (r: bool)
    requires
        n == s@.len(),
        m == pat@.len(),
        i <= n,
    ensures
        r == (i + m <= n && s@.subrange(i as int, i + m) == pat@),
{
    if m > n - i {
        return false;
    }
    let mut k: usize = 0;
    while k < m
        invariant
            n == s@.len(),
            m == pat@.len(),
            0 <= i <= n,
            i + m <= n,
            0 <= k <= m,
            forall|t: int| 0 <= t < k ==> s@[i + t] == pat@[t],
        decreases m - k,
    {
        if s.get_char(i + k) != pat.get_char(k) {
            assert(s@.subrange(i as int, i + m) != pat@) by {
                assert(s@.subrange(i as int, i + m)[k as int] == s@[i + k]);
            }
            return false;
        }
        k += 1;
    }
    assert(s@.subrange(i as int, i + m) =~= pat@);
    true
}

/// Replace every occurrence of `from` in `s` by `to`, left to right;
/// an empty `from` leaves `s` as it is.
pub fn replace_str(s: &str, from: &str, to: &str) -> (r: String)
    ensures
        r@ == spec_replace(s@, from@, to@),
{
    let n = s.unicode_len();
    let m = from.unicode_len();
    if m == 0 {
        return String::from_str(s);
    }
    let mut out = String::new();
    let mut i: usize = 0;
    proof {
        assert(s@.skip(0) =~= s@);
        assert(out@ + spec_replace(s@, from@, to@) =~= spec_replace(s@, from@, to@));
    }
    while i < n
        invariant
            n == s@.len(),
            m == from@.len(),
            m > 0,
            0 <= i <= n,
            spec_replace(s@, from@, to@) == out@ + spec_replace(s@.skip(i as int), from@, to@),
        decreases n - i,
    {
        let ghost rest = s@.skip(i as int);
        if matches_at(s, n, i, from, m) {
            proof {
                assert(rest.take(m as int) =~= s@.subrange(i as int, i + m));
                assert(rest.skip(m as int) =~= s@.skip(i + m));
            }
            out.append(to);
            i += m;
        } else {
            proof {
                if rest.len() >= m {
                    assert(rest.take(m as int) =~= s@.subrange(i as int, i + m));
                }
                assert(rest.skip(1) =~= s@.skip(i + 1));
                assert(rest[0] == s@[i as int]);
            }
            let piece = s.substring_char(i, i + 1);
            proof {
                assert(piece@ =~= seq![s@[i as int]]);
            }
            out.append(piece);
            i += 1;
        }
        assert(spec_replace(s@, from@, to@) == out@ + spec_replace(s@.skip(i as int), from@, to@));
    }
    proof {
        assert(s@.skip(n as int) =~= Seq::<char>::empty());
        assert(spec_replace(Seq::<char>::empty(), from@, to@) =~= Seq::<char>::empty());
        assert(out@ + Seq::<char>::empty() =~= out@);
    }
    out
}

/// The extension of a file name: what follows the last dot, unless the
/// dot is the first character or there is none.
pub open spec fn spec_extension(s: Seq<char>) -> Option<Seq<char>>
    decreases s.len(),
{
    if s.len() == 0 {
        None
    } else if s.last() == '.' {
        if s.len() == 1 {
            None
        } else {
            Some(Seq::<char>::empty())
        }
    } else {
        match spec_extension(s.drop_last()) {
            None => None,
            Some(e) => Some(e.push(s.last())),
        }
    }
}

/// Extension of `name`, as `Path::extension` reads a plain file name.
pub fn extension_of(name: &str) -> (r: Option<String>)
    ensures
        match r {
            Some(e) => spec_extension(name@) == Some(e@),
            None => spec_extension(name@) is None,
        },
{
    let n = name.unicode_len();
    if n == 0 {
        return None;
    }
    // walk back to the last dot
    let mut i: usize = n;
    while i > 0
        invariant
            n == name@.len(),
            0 <= i <= n,
            forall|k: int| i <= k < n ==> name@[k] != '.',
        decreases i,
    {
        if name.get_char(i - 1) == '.' {
            // dot at position i - 1
            if i == 1 {
                proof {
                    lemma_extension_leading_dot(name@);
                }
                return None;
            }
            let ext = name.substring_char(i, n);
            proof {
                lemma_extension_after_dot(name@, i as int - 1);
            }
            return Some(String::from_str(ext));
        }
        i -= 1;
    }
    proof {
        lemma_extension_no_dot(name@);
    }
    None
}

/// A name without any dot has no extension.
proof fn lemma_extension_no_dot(s: Seq<char>)
    requires
        forall|k: int| 0 <= k < s.len() ==> s[k] != '.',
    ensures
        spec_extension(s) is None,
    decreases s.len(),
{
    if s.len() > 0 {
        lemma_extension_no_dot(s.drop_last());
    }
}

/// A name whose only dot is its first character has no extension.
proof fn lemma_extension_leading_dot(s: Seq<char>)
    requires
        s.len() > 0,
        s[0] == '.',
        forall|k: int| 1 <= k < s.len() ==> s[k] != '.',
    ensures
        spec_extension(s) is None,
    decreases s.len(),
{
    if s.len() == 1 {
    } else {
        lemma_extension_leading_dot(s.drop_last());
    }
}

/// With the last dot at `d` (not first), the extension is what follows it.
proof fn lemma_extension_after_dot(s: Seq<char>, d: int)
    requires
        0 < d < s.len(),
        s[d] == '.',
        forall|k: int| d < k < s.len() ==> s[k] != '.',
    ensures
        spec_extension(s) == Some(s.skip(d + 1)),
    decreases s.len(),
{
    if d == s.len() - 1 {
        assert(s.skip(d + 1) =~= Seq::<char>::empty());
    } else {
        lemma_extension_after_dot(s.drop_last(), d);
        assert(s.drop_last().skip(d + 1) =~= s.skip(d + 1).drop_last());
        assert(s.skip(d + 1).drop_last().push(s.last()) =~= s.skip(d + 1));
    }
}

} // verus!
