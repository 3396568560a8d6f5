//! The capability through which the engine sees a file tree: list a
//! directory, read a file, know the base path. A fake, map-backed
//! provider serves the tests.

use std::collections::HashMap;
use vstd::multiset::Multiset;
use vstd::prelude::*;

use crate::strutil::str_eq;

verus! {

/// Kind of a directory entry.
#[derive(Debug, Clone, Copy, PartialEq, Eq, Structural)]
pub enum FileType {
    Dir,
    File,
}

/// One directory entry: its name, kind, and full path.
#[derive(Debug, Clone)]
pub struct ProviderFile {
    pub name: String,
    pub file_type: FileType,
    pub fp: String,
}

/// Lexicographic order on character sequences, by code point.
pub open spec fn spec_str_le(a: Seq<char>, b: Seq<char>) -> bool
    decreases a.len(),
{
    if a.len() == 0 {
        true
    } else if b.len() == 0 {
        false
    } else if (a[0] as u32) < (b[0] as u32) {
        true
    } else if (a[0] as u32) > (b[0] as u32) {
        false
    } else {
        spec_str_le(a.skip(1), b.skip(1))
    }
}

/// Entries are ordered by name.
pub open spec fn sorted_by_name(s: Seq<ProviderFile>) -> bool {
    forall|i: int, j: int|
        0 <= i < j < s.len() ==> spec_str_le(#[trigger] s[i].name@, #[trigger] s[j].name@)
}

/// The view of one directory entry: its name, kind and full path.
pub open spec fn pf_view(f: ProviderFile) -> (Seq<char>, FileType, Seq<char>) {
    (f.name@, f.file_type, f.fp@)
}

/// The views of a listing.
pub open spec fn pf_views(s: Seq<ProviderFile>) -> Seq<(Seq<char>, FileType, Seq<char>)> {
    s.map_values(|f: ProviderFile| pf_view(f))
}

/// One entry inserted into an ordered listing, behind its equals.
pub open spec fn insert_by_name(
    s: Seq<(Seq<char>, FileType, Seq<char>)>,
    x: (Seq<char>, FileType, Seq<char>),
) -> Seq<(Seq<char>, FileType, Seq<char>)>
    decreases s.len(),
{
    if s.len() == 0 {
        seq![x]
    } else if spec_str_le(s[0].0, x.0) {
        seq![s[0]] + insert_by_name(s.skip(1), x)
    } else {
        seq![x] + s
    }
}

/// The listing ordered by name, stably: entries inserted one after
/// the other, each behind its equals.
pub open spec fn sort_by_name_spec(s: Seq<(Seq<char>, FileType, Seq<char>)>) -> Seq<
    (Seq<char>, FileType, Seq<char>),
>
    decreases s.len(),
{
    if s.len() == 0 {
        Seq::empty()
    } else {
        insert_by_name(sort_by_name_spec(s.drop_last()), s.last())
    }
}

/// The capability interface to the scanned tree. Listing an unknown
/// path yields an empty, ordered listing; reading an absent file
/// yields nothing: a provider never fails, and what it hands back is
/// a function of its own state.
pub trait BaseProvider {
    /// The root path, as the provider's state determines it.
    spec fn base_path_spec(&self) -> Seq<char>;

    /// The content behind `path`, as the provider's state determines
    /// it.
    spec fn open_spec(&self, path: Seq<char>) -> Option<Seq<char>>;

    /// The listing under `path`, as the provider's state determines
    /// it: entry views ordered by name.
    spec fn list_dir_spec(&self, path: Seq<char>) -> Seq<(Seq<char>, FileType, Seq<char>)>;

    /// Entries directly under `path`, ordered by name.
    fn list_dir(&self, path: &str) -> (r: Vec<ProviderFile>)
        ensures
            sorted_by_name(r@),
            pf_views(r@) == self.list_dir_spec(path@),
    ;

    /// The root the traversal starts from.
    fn base_path(&self) -> (r: String)
        ensures
            r@ == self.base_path_spec(),
    ;

    /// Full content of the file at `path`, when present.
    fn open(&self, path: &str) -> (r: Option<String>)
        ensures
            match r {
                Some(content) => self.open_spec(path@) == Some(content@),
                None => self.open_spec(path@) is None,
            },
    ;
}

/// Directories never recursed into: build output, dependency caches.
pub fn is_ignored_dive_path(name: &str) -> (r: bool)
    ensures
        r == (name@ == "node_modules"@ || name@ == "dist"@ || name@ == "build"@),
{
    str_eq(name, "node_modules") || str_eq(name, "dist") || str_eq(name, "build")
}

/// `base` and `name` joined with a single separator.
pub open spec fn spec_join(base: Seq<char>, name: Seq<char>) -> Seq<char> {
    if base.len() == 0 {
        name
    } else if base.last() == '/' {
        base + name
    } else {
        base + seq!['/'] + name
    }
}

/// Join a directory path and an entry name.
pub fn join_path(base: &str, name: &str) -> (r: String)
    ensures
        r@ == spec_join(base@, name@),
{
    let n = base.unicode_len();
    if n == 0 {
        return String::from_str(name);
    }
    let mut out = String::from_str(base);
    if base.get_char(n - 1) != '/' {
        proof {
            reveal_strlit("/");
        }
        out.append("/");
    }
    out.append(name);
    out
}

/// Exactly one of `spec_str_le(a, b)` and `spec_str_le(b, a)` can fail.
proof fn lemma_str_le_total(a: Seq<char>, b: Seq<char>)
    ensures
        spec_str_le(a, b) || spec_str_le(b, a),
    decreases a.len(),
{
    if a.len() > 0 && b.len() > 0 && a[0] as u32 == b[0] as u32 {
        lemma_str_le_total(a.skip(1), b.skip(1));
    }
}

/// The order is transitive.
proof fn lemma_str_le_trans(a: Seq<char>, b: Seq<char>, c: Seq<char>)
    requires
        spec_str_le(a, b),
        spec_str_le(b, c),
    ensures
        spec_str_le(a, c),
    decreases a.len(),
{
    if a.len() > 0 && b.len() > 0 && c.len() > 0 && a[0] as u32 == b[0] as u32 && b[0] as u32
        == c[0] as u32 {
        lemma_str_le_trans(a.skip(1), b.skip(1), c.skip(1));
    }
}

/// When the first `i` characters agree, the order is decided afterwards.
proof fn lemma_str_le_skip(a: Seq<char>, b: Seq<char>, i: int)
    requires
        0 <= i <= a.len(),
        i <= b.len(),
        forall|k: int| 0 <= k < i ==> a[k] == b[k],
    ensures
        spec_str_le(a, b) == spec_str_le(a.skip(i), b.skip(i)),
    decreases i,
{
    if i > 0 {
        assert(a[0] == b[0]);
        assert(a.len() > 0 && b.len() > 0);
        let a1 = a.skip(1);
        let b1 = b.skip(1);
        assert forall|k: int| 0 <= k < i - 1 implies a1[k] == b1[k] by {
            assert(a1[k] == a[k + 1]);
            assert(b1[k] == b[k + 1]);
        }
        lemma_str_le_skip(a1, b1, i - 1);
        assert(a1.skip(i - 1) =~= a.skip(i));
        assert(b1.skip(i - 1) =~= b.skip(i));
    } else {
        assert(a.skip(0) =~= a);
        assert(b.skip(0) =~= b);
    }
}

/// Whether `a` comes no later than `b` in lexicographic order.
pub fn str_le(a: &str, b: &str) -> (r: bool)
    ensures
        r == spec_str_le(a@, b@),
{
    let an = a.unicode_len();
    let bn = b.unicode_len();
    let mut i: usize = 0;
    loop
        invariant
            an == a@.len(),
            bn == b@.len(),
            0 <= i <= an,
            i <= bn,
            forall|k: int| 0 <= k < i ==> a@[k] == b@[k],
        decreases an - i,
    {
        proof {
            lemma_str_le_skip(a@, b@, i as int);
        }
        if i >= an {
            return true;
        }
        if i >= bn {
            return false;
        }
        let ca = a.get_char(i);
        let cb = b.get_char(i);
        proof {
            assert(a@.skip(i as int)[0] == a@[i as int]);
            assert(b@.skip(i as int)[0] == b@[i as int]);
        }
        if (ca as u32) < (cb as u32) {
            return true;
        }
        if (ca as u32) > (cb as u32) {
            return false;
        }
        proof {
            assert(ca == cb) by {
                assert(ca as u32 == cb as u32);
                assert(ca as u32 <= 0x10FFFF);
            }
        }
        i += 1;
    }
}

/// Where an entry joins an ordered listing: behind every name that
/// does not come after it.
proof fn lemma_insert_at(
    s: Seq<(Seq<char>, FileType, Seq<char>)>,
    x: (Seq<char>, FileType, Seq<char>),
    j: int,
)
    requires
        0 <= j <= s.len(),
        forall|k: int| 0 <= k < j ==> spec_str_le((#[trigger] s[k]).0, x.0),
        j < s.len() ==> !spec_str_le(s[j].0, x.0),
    ensures
        insert_by_name(s, x) == s.take(j) + seq![x] + s.skip(j),
    decreases j,
{
    if s.len() == 0 {
        assert(insert_by_name(s, x) =~= s.take(j) + seq![x] + s.skip(j));
    } else if j == 0 {
        assert(insert_by_name(s, x) =~= s.take(0) + seq![x] + s.skip(0));
    } else {
        assert(spec_str_le(s[0].0, x.0));
        let t = s.skip(1);
        assert forall|k: int| 0 <= k < j - 1 implies spec_str_le((#[trigger] t[k]).0, x.0) by {
            assert(t[k] == s[k + 1]);
        }
        if j - 1 < t.len() {
            assert(t[j - 1] == s[j]);
        }
        lemma_insert_at(t, x, j - 1);
        assert(insert_by_name(s, x) =~= s.take(j) + seq![x] + s.skip(j)) by {
            assert(t.take(j - 1) =~= s.skip(1).take(j - 1));
            assert forall|k: int|
                0 <= k < insert_by_name(s, x).len() implies insert_by_name(s, x)[k] == (s.take(j)
                + seq![x] + s.skip(j))[k] by {
                if k > 0 {
                    assert(insert_by_name(s, x)[k] == insert_by_name(t, x)[k - 1]);
                    assert(insert_by_name(t, x) == t.take(j - 1) + seq![x] + t.skip(j - 1));
                }
            }
        }
    }
}

/// Where `x` joins the ordered listing: behind every entry whose
/// name does not come after its own.
fn insert_pos(out: &Vec<ProviderFile>, x: &ProviderFile) -> (j: usize)
    ensures
        j <= out@.len(),
        forall|k: int| 0 <= k < j ==> spec_str_le((#[trigger] out@[k]).name@, x.name@),
        j < out@.len() ==> !spec_str_le(out@[j as int].name@, x.name@),
{
    let m = out.len();
    let mut j: usize = 0;
    while j < m
        invariant
            m == out@.len(),
            0 <= j <= m,
            forall|k: int| 0 <= k < j ==> spec_str_le((#[trigger] out@[k]).name@, x.name@),
        decreases m - j,
    {
        if !str_le(out[j].name.as_str(), x.name.as_str()) {
            return j;
        }
        j += 1;
    }
    j
}

/// Sort a listing by entry name, stably: exactly the ordered
/// arrangement of the given entries.
fn sort_files(v: Vec<ProviderFile>) -> (r: Vec<ProviderFile>)
    ensures
        sorted_by_name(r@),
        pf_views(r@) == sort_by_name_spec(pf_views(v@)),
{
    let n = v.len();
    let mut rem = v;
    let mut out: Vec<ProviderFile> = Vec::new();
    let mut i: usize = 0;
    proof {
        assert(sort_by_name_spec(pf_views(rem@).take(0)) =~= Seq::<
            (Seq<char>, FileType, Seq<char>),
        >::empty());
        assert(pf_views(out@) =~= Seq::<(Seq<char>, FileType, Seq<char>)>::empty());
    }
    while i < n
        invariant
            n == rem@.len(),
            0 <= i <= n,
            sorted_by_name(out@),
            pf_views(out@) == sort_by_name_spec(pf_views(rem@).take(i as int)),
        decreases n - i,
    {
        let x = ProviderFile {
            name: rem[i].name.clone(),
            file_type: rem[i].file_type,
            fp: rem[i].fp.clone(),
        };
        proof {
            assert(pf_view(x) == pf_views(rem@)[i as int]);
        }
        let j = insert_pos(&out, &x);
        let ghost out0 = out@;
        out.insert(j, x);
        proof {
            assert forall|k: int| 0 <= k < j implies spec_str_le(
                (#[trigger] pf_views(out0)[k]).0,
                pf_view(x).0,
            ) by {
                assert(pf_views(out0)[k].0 == out0[k].name@);
            }
            if (j as int) < out0.len() {
                assert(pf_views(out0)[j as int].0 == out0[j as int].name@);
            }
            lemma_insert_at(pf_views(out0), pf_view(x), j as int);
            assert(pf_views(out@) =~= pf_views(out0).take(j as int) + seq![pf_view(x)]
                + pf_views(out0).skip(j as int)) by {
                assert forall|k: int| 0 <= k < out@.len() implies pf_views(out@)[k] == (pf_views(
                    out0,
                ).take(j as int) + seq![pf_view(x)] + pf_views(out0).skip(j as int))[k] by {
                    assert(out@ == out0.insert(j as int, x));
                    if k < j as int {
                        assert(out@[k] == out0[k]);
                    } else if k > j as int {
                        assert(out@[k] == out0[k - 1]);
                    } else {
                        assert(out@[k] == x);
                    }
                }
            }
            let t1 = pf_views(rem@).take(i + 1);
            assert(t1.drop_last() =~= pf_views(rem@).take(i as int));
            assert(t1.last() == pf_views(rem@)[i as int]);
            assert(sorted_by_name(out@)) by {
                let ji = j as int;
                let pv = pf_views(out@);
                let pv0 = pf_views(out0);
                if ji < out0.len() {
                    lemma_str_le_total(out0[ji].name@, x.name@);
                    assert(pv0[ji].0 == out0[ji].name@);
                    assert(spec_str_le(x.name@, out0[ji].name@));
                }
                assert forall|k: int|
                    0 <= k < pv.len() implies (#[trigger] pv[k]).0 == (if k < ji {
                    out0[k].name@
                } else if k == ji {
                    x.name@
                } else {
                    out0[k - 1].name@
                }) by {
                    assert(pv[k] == (pv0.take(ji) + seq![pf_view(x)] + pv0.skip(ji))[k]);
                    if k < ji {
                        assert(pv0[k].0 == out0[k].name@);
                    } else if k > ji {
                        assert(pv0[k - 1].0 == out0[k - 1].name@);
                    }
                }
                assert forall|a: int, b: int| 0 <= a < b < out@.len() implies spec_str_le(
                    #[trigger] out@[a].name@,
                    #[trigger] out@[b].name@,
                ) by {
                    assert(out@[a].name@ == pv[a].0);
                    assert(out@[b].name@ == pv[b].0);
                    if a == ji && b > ji && b - 1 > ji {
                        lemma_str_le_trans(x.name@, out0[ji].name@, out0[b - 1].name@);
                    }
                }
            }
        }
        i += 1;
    }
    proof {
        assert(pf_views(rem@).take(n as int) =~= pf_views(rem@));
    }
    out
}

/// Relies on std's HashMap::into_iter/// Relies on std's HashMap::into_iter: every entry of the map appears
/// exactly once, with pairwise distinct keys, in no promised order.
#[verifier::external_body]
fn map_entries<V>(m: HashMap<String, V>) -> (r: Vec<(String, V)>)
    ensures
        forall|i: int, j: int|
            0 <= i < j < r@.len() ==> (#[trigger] r@[i]).0@ != (#[trigger] r@[j]).0@,
        forall|i: int|
            0 <= i < r@.len() ==> m@.contains_key((#[trigger] r@[i]).0) && m@[r@[i].0]
                == r@[i].1,
        forall|k: String|
            #[trigger] m@.contains_key(k) ==> exists|i: int|
                0 <= i < r@.len() && (#[trigger] r@[i]).0 == k,
{
    m.into_iter().collect()
}

/// The value behind the first entry keyed `key`.
pub open spec fn assoc_find<V>(es: Seq<(String, V)>, key: Seq<char>) -> Option<V>
    decreases es.len(),
{
    if es.len() == 0 {
        None
    } else if es[0].0@ == key {
        Some(es[0].1)
    } else {
        assoc_find(es.skip(1), key)
    }
}

/// A hit at the first matching key is what `assoc_find` returns.
proof fn lemma_assoc_find_hit<V>(es: Seq<(String, V)>, key: Seq<char>, i: int)
    requires
        0 <= i < es.len(),
        es[i].0@ == key,
        forall|k: int| 0 <= k < i ==> (#[trigger] es[k]).0@ != key,
    ensures
        assoc_find(es, key) == Some(es[i].1),
    decreases i,
{
    if i > 0 {
        assert(es.skip(1)[i - 1] == es[i]);
        assert forall|k: int| 0 <= k < i - 1 implies (#[trigger] es.skip(1)[k]).0@ != key by {
            assert(es.skip(1)[k] == es[k + 1]);
        }
        lemma_assoc_find_hit(es.skip(1), key, i - 1);
    }
}

/// Without any matching key `assoc_find` returns nothing.
proof fn lemma_assoc_find_miss<V>(es: Seq<(String, V)>, key: Seq<char>)
    requires
        forall|k: int| 0 <= k < es.len() ==> (#[trigger] es[k]).0@ != key,
    ensures
        assoc_find(es, key) is None,
    decreases es.len(),
{
    if es.len() > 0 {
        assert forall|k: int| 0 <= k < es.skip(1).len() implies (#[trigger] es.skip(1)[k]).0@
            != key by {
            assert(es.skip(1)[k] == es[k + 1]);
        }
        lemma_assoc_find_miss(es.skip(1), key);
    }
}

/// A deterministic, in-memory provider: directory listings and file
/// contents are given up front as maps and held as association lists
/// with pairwise distinct keys.
#[derive(Debug)]
pub struct FakeProvider {
    paths: Vec<(String, Vec<String>)>,
    files: Vec<(String, String)>,
}

impl FakeProvider {
    /// The provider holds entries of these maps and nothing else it
    /// would answer from.
    pub closed spec fn models_maps(
        &self,
        paths: Map<String, Vec<String>>,
        files: Map<String, String>,
    ) -> bool {
        &&& forall|i: int|
            0 <= i < self.files@.len() ==> files.contains_key((#[trigger] self.files@[i]).0)
                && files[self.files@[i].0] == self.files@[i].1
        &&& forall|i: int|
            0 <= i < self.paths@.len() ==> paths.contains_key((#[trigger] self.paths@[i]).0)
                && paths[self.paths@[i].0] == self.paths@[i].1
        &&& forall|k: String|
            #[trigger] files.contains_key(k) ==> exists|i: int|
                0 <= i < self.files@.len() && (#[trigger] self.files@[i]).0 == k
        &&& forall|k: String|
            #[trigger] paths.contains_key(k) ==> exists|i: int|
                0 <= i < self.paths@.len() && (#[trigger] self.paths@[i]).0 == k
    }

    /// A provider over the given listings and file contents, rooted at
    /// `/`: it holds exactly the maps' entries.
    pub fn new(paths: HashMap<String, Vec<String>>, files: HashMap<String, String>) -> (r:
        FakeProvider)
        ensures
            r.models_maps(paths@, files@),
    {
        let pe = map_entries(paths);
        let fe = map_entries(files);
        let r = FakeProvider { paths: pe, files: fe };
        proof {
            assert forall|k: String| #[trigger] files@.contains_key(k) implies exists|i: int|
                0 <= i < r.files@.len() && (#[trigger] r.files@[i]).0 == k by {
                let i = choose|i: int| 0 <= i < fe@.len() && (#[trigger] fe@[i]).0 == k;
                assert(r.files@[i].0 == k);
            }
            assert forall|k: String| #[trigger] paths@.contains_key(k) implies exists|i: int|
                0 <= i < r.paths@.len() && (#[trigger] r.paths@[i]).0 == k by {
                let i = choose|i: int| 0 <= i < pe@.len() && (#[trigger] pe@[i]).0 == k;
                assert(r.paths@[i].0 == k);
            }
        }
        r
    }
}

/// The entry view one raw listing string yields: a trailing slash
/// marks a directory and is stripped from the name; the full path is
/// the joined raw string.
pub open spec fn raw_entry_spec(path: Seq<char>, f: Seq<char>) -> (Seq<char>, FileType, Seq<char>) {
    if f.len() > 0 && f.last() == '/' {
        (f.drop_last(), FileType::Dir, spec_join(path, f))
    } else {
        (f, FileType::File, spec_join(path, f))
    }
}

/// The entry views of a raw listing, in the stored order.
pub open spec fn raw_entries_spec(fs: Seq<Seq<char>>, path: Seq<char>) -> Seq<
    (Seq<char>, FileType, Seq<char>),
> {
    fs.map_values(|f: Seq<char>| raw_entry_spec(path, f))
}

impl BaseProvider for FakeProvider {
    open spec fn base_path_spec(&self) -> Seq<char> {
        "/"@
    }

    closed spec fn list_dir_spec(&self, path: Seq<char>) -> Seq<(Seq<char>, FileType, Seq<char>)> {
        match assoc_find(self.paths@, path) {
            Some(files) => sort_by_name_spec(
                raw_entries_spec(crate::strutil::str_views(files@), path),
            ),
            None => Seq::empty(),
        }
    }

    closed spec fn open_spec(&self, path: Seq<char>) -> Option<Seq<char>> {
        match assoc_find(self.files@, path) {
            Some(content) => Some(content@),
            None => None,
        }
    }

    fn base_path(&self) -> (r: String) {
        String::from_str("/")
    }

    fn list_dir(&self, path_relative: &str) -> (r: Vec<ProviderFile>) {
        let np = self.paths.len();
        let mut pi: usize = 0;
        while pi < np
            invariant
                np == self.paths@.len(),
                0 <= pi <= np,
                forall|k: int| 0 <= k < pi ==> (#[trigger] self.paths@[k]).0@ != path_relative@,
            decreases np - pi,
        {
            if str_eq(self.paths[pi].0.as_str(), path_relative) {
                proof {
                    lemma_assoc_find_hit(self.paths@, path_relative@, pi as int);
                }
                let files = &self.paths[pi].1;
                let ghost fv = crate::strutil::str_views(files@);
                let mut result: Vec<ProviderFile> = Vec::new();
                let nf = files.len();
                let mut i: usize = 0;
                proof {
                    assert(pf_views(result@) =~= raw_entries_spec(fv.take(0), path_relative@));
                }
                while i < nf
                    invariant
                        nf == files@.len(),
                        fv == crate::strutil::str_views(files@),
                        0 <= i <= nf,
                        pf_views(result@) == raw_entries_spec(fv.take(i as int), path_relative@),
                    decreases nf - i,
                {
                    let f = &files[i];
                    let n = f.as_str().unicode_len();
                    let is_dir = n > 0 && f.as_str().get_char(n - 1) == '/';
                    let name = if is_dir {
                        String::from_str(f.as_str().substring_char(0, n - 1))
                    } else {
                        f.clone()
                    };
                    proof {
                        if is_dir {
                            assert(name@ =~= f@.drop_last());
                        }
                    }
                    let fp = join_path(path_relative, f.as_str());
                    let ghost before = pf_views(result@);
                    result.push(
                        ProviderFile {
                            name,
                            file_type: if is_dir {
                                FileType::Dir
                            } else {
                                FileType::File
                            },
                            fp,
                        },
                    );
                    proof {
                        assert(pf_views(result@) =~= before.push(
                            raw_entry_spec(path_relative@, fv[i as int]),
                        ));
                        assert(raw_entries_spec(fv.take(i + 1), path_relative@) =~= before.push(
                            raw_entry_spec(path_relative@, fv[i as int]),
                        ));
                    }
                    i += 1;
                }
                proof {
                    assert(fv.take(nf as int) =~= fv);
                }
                return sort_files(result);
            }
            pi += 1;
        }
        proof {
            lemma_assoc_find_miss(self.paths@, path_relative@);
            assert(pf_views(Seq::<ProviderFile>::empty()) =~= Seq::<
                (Seq<char>, FileType, Seq<char>),
            >::empty());
        }
        Vec::new()
    }

    fn open(&self, path_relative: &str) -> (r: Option<String>) {
        let n = self.files.len();
        let mut i: usize = 0;
        while i < n
            invariant
                n == self.files@.len(),
                0 <= i <= n,
                forall|k: int| 0 <= k < i ==> (#[trigger] self.files@[k]).0@ != path_relative@,
            decreases n - i,
        {
            if str_eq(self.files[i].0.as_str(), path_relative) {
                proof {
                    lemma_assoc_find_hit(self.files@, path_relative@, i as int);
                }
                return Some(self.files[i].1.clone());
            }
            i += 1;
        }
        proof {
            lemma_assoc_find_miss(self.files@, path_relative@);
        }
        None
    }
}

} // verus!
