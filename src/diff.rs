//! Path-keyed comparison of two snapshots.
use vstd::prelude::*;

use crate::plumbah::{Meta, PlumbahObject, Status, PLUMBAH_LEVEL, PLUMBAH_VERSION};
use crate::snapshot::{
    chars_eq, current_time, elapsed_ms, entries_view, lemma_path_le_antisym,
    lemma_path_le_from_refl, lemma_path_le_from_trans, lemma_path_lt_trans, path_le, path_le_exec,
    path_lt, text_view, EntryView, Snapshot, SnapshotEntry,
};
use crate::scan::TOOL_VERSION;
use crate::sort::{keyed_le, keyed_sorted, kview, lemma_keyed_path_le, merge_sort, Keyed};
use crate::text::{chars_of, text_eq};

verus! {

/// How many paths fell in each class.
#[derive(Debug, Clone, Copy, PartialEq, Eq, Structural)]
pub struct DiffSummary {
    pub added: usize,
    pub removed: usize,
    pub modified: usize,
    pub unchanged: usize,
}

/// The kind of a path-level change.
#[derive(Debug, Clone, Copy, PartialEq, Eq, Structural)]
pub enum ChangeType {
    Added,
    Removed,
    Modified,
    PermissionDenied,
}

/// An attribute that differs between the two sides of a path.
#[derive(Debug, Clone, Copy, PartialEq, Eq, Structural)]
pub enum AttributeChange {
    Content,
    Mode,
    Mtime,
    Type,
    Size,
    Target,
}

/// One path-level change.
#[derive(Debug, Clone)]
pub struct Difference {
    pub path: String,
    pub change_type: ChangeType,
    pub changes: Vec<AttributeChange>,
    pub source: Option<SnapshotEntry>,
    pub target: Option<SnapshotEntry>,
    pub error: Option<String>,
}

/// The mathematical value of a difference.
pub struct DifferenceView {
    pub path: Seq<char>,
    pub change_type: ChangeType,
    pub changes: Seq<AttributeChange>,
    pub source: Option<EntryView>,
    pub target: Option<EntryView>,
    pub error: Option<Seq<char>>,
}

pub open spec fn entry_opt_view(o: Option<SnapshotEntry>) -> Option<EntryView> {
    match o {
        Some(e) => Some(e@),
        None => None,
    }
}

impl View for Difference {
    type V = DifferenceView;

    open spec fn view(&self) -> DifferenceView {
        DifferenceView {
            path: self.path@,
            change_type: self.change_type,
            changes: self.changes@,
            source: entry_opt_view(self.source),
            target: entry_opt_view(self.target),
            error: text_view(self.error),
        }
    }
}

/// The outcome of a comparison.
#[derive(Debug)]
pub struct DiffResult {
    pub plumbah: PlumbahObject,
    pub identical: bool,
    pub summary: DiffSummary,
    pub differences: Vec<Difference>,
}

/// Which attributes to leave out of the comparison.
#[derive(Debug, Clone, Copy)]
pub struct DiffOptions {
    pub ignore_time: bool,
    pub ignore_mode: bool,
    /// Compare paths and types only.
    pub structure_only: bool,
}

/// A configured comparison.
#[derive(Debug, Clone, Copy)]
pub struct DiffEngine {
    pub ignore_time: bool,
    pub ignore_mode: bool,
    pub structure_only: bool,
}

/// Name under which comparisons declare their producer.
pub const DIFF_TOOL: &'static str = "galdi_diff";

pub open spec fn paths_of(s: Seq<EntryView>) -> Seq<Seq<char>> {
    s.map_values(|e: EntryView| e.path)
}

/// Every path present on either side.
pub open spec fn path_union(s: Seq<EntryView>, t: Seq<EntryView>) -> Set<Seq<char>> {
    paths_of(s).to_set() + paths_of(t).to_set()
}

/// The entry listed for a path; the last one where a path is listed twice.
pub open spec fn lookup(s: Seq<EntryView>, p: Seq<char>) -> Option<EntryView>
    decreases s.len(),
{
    if s.len() == 0 {
        None
    } else if s.last().path == p {
        Some(s.last())
    } else {
        lookup(s.drop_last(), p)
    }
}

pub open spec fn attr_if(c: bool, a: AttributeChange) -> Seq<AttributeChange> {
    if c { seq![a] } else { Seq::empty() }
}

/// The attributes that differ under the engine's options, in the order
/// type, content, mode, mtime, size, target.
pub open spec fn changes_spec(e: DiffEngine, a: EntryView, b: EntryView) -> Seq<AttributeChange> {
    let full = !e.structure_only;
    attr_if(a.entry_type != b.entry_type, AttributeChange::Type) + attr_if(
        full && a.checksum != b.checksum,
        AttributeChange::Content,
    ) + attr_if(full && !e.ignore_mode && a.mode != b.mode, AttributeChange::Mode) + attr_if(
        full && !e.ignore_time && a.mtime != b.mtime,
        AttributeChange::Mtime,
    ) + attr_if(full && a.size != b.size, AttributeChange::Size) + attr_if(
        full && a.target != b.target,
        AttributeChange::Target,
    )
}

pub open spec fn is_added(s: Seq<EntryView>, t: Seq<EntryView>, p: Seq<char>) -> bool {
    lookup(s, p) is None && lookup(t, p) is Some
}

pub open spec fn is_removed(s: Seq<EntryView>, t: Seq<EntryView>, p: Seq<char>) -> bool {
    lookup(s, p) is Some && lookup(t, p) is None
}

pub open spec fn is_modified(e: DiffEngine, s: Seq<EntryView>, t: Seq<EntryView>, p: Seq<char>) -> bool {
    lookup(s, p) is Some && lookup(t, p) is Some && changes_spec(
        e,
        lookup(s, p)->Some_0,
        lookup(t, p)->Some_0,
    ).len() > 0
}

pub open spec fn is_unchanged(e: DiffEngine, s: Seq<EntryView>, t: Seq<EntryView>, p: Seq<char>) -> bool {
    lookup(s, p) is Some && lookup(t, p) is Some && changes_spec(
        e,
        lookup(s, p)->Some_0,
        lookup(t, p)->Some_0,
    ).len() == 0
}

/// The difference reported at a path, if any.
pub open spec fn diff_at(e: DiffEngine, s: Seq<EntryView>, t: Seq<EntryView>, p: Seq<char>) -> Option<
    DifferenceView,
> {
    match (lookup(s, p), lookup(t, p)) {
        (Some(a), Some(b)) => if changes_spec(e, a, b).len() > 0 {
            Some(
                DifferenceView {
                    path: p,
                    change_type: ChangeType::Modified,
                    changes: changes_spec(e, a, b),
                    source: Some(a),
                    target: Some(b),
                    error: None,
                },
            )
        } else {
            None
        },
        (Some(a), None) => Some(
            DifferenceView {
                path: p,
                change_type: ChangeType::Removed,
                changes: Seq::empty(),
                source: Some(a),
                target: None,
                error: None,
            },
        ),
        (None, Some(b)) => Some(
            DifferenceView {
                path: p,
                change_type: ChangeType::Added,
                changes: Seq::empty(),
                source: None,
                target: Some(b),
                error: None,
            },
        ),
        (None, None) => None,
    }
}

pub open spec fn added_in(ps: Set<Seq<char>>, s: Seq<EntryView>, t: Seq<EntryView>) -> Set<Seq<char>> {
    ps.filter(|p: Seq<char>| is_added(s, t, p))
}

pub open spec fn removed_in(ps: Set<Seq<char>>, s: Seq<EntryView>, t: Seq<EntryView>) -> Set<Seq<char>> {
    ps.filter(|p: Seq<char>| is_removed(s, t, p))
}

pub open spec fn modified_in(
    ps: Set<Seq<char>>,
    e: DiffEngine,
    s: Seq<EntryView>,
    t: Seq<EntryView>,
) -> Set<Seq<char>> {
    ps.filter(|p: Seq<char>| is_modified(e, s, t, p))
}

pub open spec fn unchanged_in(
    ps: Set<Seq<char>>,
    e: DiffEngine,
    s: Seq<EntryView>,
    t: Seq<EntryView>,
) -> Set<Seq<char>> {
    ps.filter(|p: Seq<char>| is_unchanged(e, s, t, p))
}

/// Number of paths present in the target only.
pub open spec fn added_count(s: Seq<EntryView>, t: Seq<EntryView>) -> nat {
    added_in(path_union(s, t), s, t).len()
}

/// Number of paths present in the source only.
pub open spec fn removed_count(s: Seq<EntryView>, t: Seq<EntryView>) -> nat {
    removed_in(path_union(s, t), s, t).len()
}

/// Number of paths present on both sides with some compared attribute
/// differing.
pub open spec fn modified_count(e: DiffEngine, s: Seq<EntryView>, t: Seq<EntryView>) -> nat {
    modified_in(path_union(s, t), e, s, t).len()
}

/// Number of paths present on both sides with no compared attribute
/// differing.
pub open spec fn unchanged_count(e: DiffEngine, s: Seq<EntryView>, t: Seq<EntryView>) -> nat {
    unchanged_in(path_union(s, t), e, s, t).len()
}

/// No path of either side is reported.
pub open spec fn identical_spec(e: DiffEngine, s: Seq<EntryView>, t: Seq<EntryView>) -> bool {
    forall|p: Seq<char>| #[trigger] path_union(s, t).contains(p) ==> diff_at(e, s, t, p) is None
}

/// The differences are exactly those reported at the paths of either side,
/// listed in strictly increasing path order.
pub open spec fn differences_spec(
    e: DiffEngine,
    s: Seq<EntryView>,
    t: Seq<EntryView>,
    d: Seq<DifferenceView>,
) -> bool {
    &&& forall|i: int, j: int| 0 <= i < j < d.len() ==> path_lt(#[trigger] d[i].path, #[trigger] d[j].path)
    &&& forall|i: int|
        0 <= i < d.len() ==> path_union(s, t).contains(#[trigger] d[i].path) && diff_at(e, s, t, d[i].path)
            == Some(d[i])
    &&& forall|p: Seq<char>|
        #[trigger] path_union(s, t).contains(p) && diff_at(e, s, t, p) is Some ==> exists|i: int|
            0 <= i < d.len() && d[i].path == p
}

pub open spec fn differences_view(d: Seq<Difference>) -> Seq<DifferenceView> {
    d.map_values(|x: Difference| x@)
}

pub proof fn lemma_lookup_path(s: Seq<EntryView>, p: Seq<char>)
    ensures
        lookup(s, p) is Some ==> lookup(s, p)->Some_0.path == p,
        lookup(s, p) is Some <==> paths_of(s).contains(p),
    decreases s.len(),
{
    if s.len() > 0 {
        lemma_lookup_path(s.drop_last(), p);
        let ps = paths_of(s);
        let pd = paths_of(s.drop_last());
        assert(pd =~= ps.drop_last());
        if s.last().path == p {
            assert(ps[ps.len() - 1] == p);
        } else {
            if ps.contains(p) {
                let k = choose|k: int| 0 <= k < ps.len() && ps[k] == p;
                assert(k < ps.len() - 1);
                assert(pd[k] == p);
            }
            if pd.contains(p) {
                let k = choose|k: int| 0 <= k < pd.len() && pd[k] == p;
                assert(ps[k] == p);
            }
        }
    }
}

proof fn lemma_lookup_at(s: Seq<EntryView>, p: Seq<char>, k: int)
    requires
        0 <= k < s.len(),
        s[k].path == p,
        forall|m: int| k < m < s.len() ==> (#[trigger] s[m]).path != p,
    ensures
        lookup(s, p) == Some(s[k]),
    decreases s.len(),
{
    if k < s.len() - 1 {
        let d = s.drop_last();
        assert forall|m: int| k < m < d.len() implies (#[trigger] d[m]).path != p by {
            assert(d[m] == s[m]);
        }
        lemma_lookup_at(d, p, k);
    }
}

proof fn lemma_lookup_none(s: Seq<EntryView>, p: Seq<char>)
    requires
        forall|m: int| 0 <= m < s.len() ==> (#[trigger] s[m]).path != p,
    ensures
        lookup(s, p) is None,
    decreases s.len(),
{
    if s.len() > 0 {
        let d = s.drop_last();
        assert forall|m: int| 0 <= m < d.len() implies (#[trigger] d[m]).path != p by {
            assert(d[m] == s[m]);
        }
        lemma_lookup_none(d, p);
    }
}

/// The sequence lists distinct paths in increasing order.
pub open spec fn strictly_sorted(u: Seq<Seq<char>>) -> bool {
    forall|a: int, b: int| 0 <= a < b < u.len() ==> path_lt(#[trigger] u[a], #[trigger] u[b])
}

pub open spec fn key_view(u: Seq<Vec<char>>) -> Seq<Seq<char>> {
    u.map_values(|v: Vec<char>| v@)
}

/// The paths of the entries as character vectors.
fn entry_keys(entries: &Vec<SnapshotEntry>) -> (r: Vec<Vec<char>>)
    ensures
        key_view(r@) == paths_of(entries_view(entries@)),
{
    let mut out: Vec<Vec<char>> = Vec::new();
    let mut i: usize = 0;
    while i < entries.len()
        invariant
            0 <= i <= entries@.len(),
            out@.len() == i,
            forall|k: int| 0 <= k < i ==> #[trigger] out@[k]@ == entries@[k].path@,
        decreases entries@.len() - i,
    {
        out.push(chars_of(entries[i].path.as_str()));
        i = i + 1;
    }
    assert(key_view(out@) =~= paths_of(entries_view(entries@)));
    out
}

/// The paths tagged with their positions.
pub open spec fn tagged(keys: Seq<Seq<char>>) -> Seq<(Seq<char>, usize)> {
    Seq::new(keys.len(), |k: int| (keys[k], k as usize))
}

/// Each path tagged with its position.
fn tag_keys(keys: &Vec<Vec<char>>) -> (r: Vec<Keyed>)
    ensures
        kview(r@) == tagged(key_view(keys@)),
{
    let mut out: Vec<Keyed> = Vec::new();
    let mut i: usize = 0;
    while i < keys.len()
        invariant
            0 <= i <= keys@.len(),
            out@.len() == i,
            forall|k: int| 0 <= k < i ==> (#[trigger] out@[k]).key@ == keys@[k]@ && out@[k].idx == k,
        decreases keys@.len() - i,
    {
        out.push(Keyed { key: keys[i].clone(), idx: i });
        i = i + 1;
    }
    assert(kview(out@) =~= tagged(key_view(keys@)));
    out
}

proof fn lemma_same_elements(a: Seq<(Seq<char>, usize)>, b: Seq<(Seq<char>, usize)>)
    requires
        a.to_multiset() == b.to_multiset(),
    ensures
        forall|x: (Seq<char>, usize)| a.contains(x) <==> b.contains(x),
{
    assert forall|x: (Seq<char>, usize)| a.contains(x) <==> b.contains(x) by {
        vstd::seq_lib::to_multiset_contains(a, x);
        vstd::seq_lib::to_multiset_contains(b, x);
    }
}

/// The distinct paths of a sorted list, in increasing order.
fn distinct_keys(v: &Vec<Keyed>) -> (u: Vec<Vec<char>>)
    requires
        keyed_sorted(kview(v@)),
    ensures
        strictly_sorted(key_view(u@)),
        forall|q: Seq<char>|
            key_view(u@).contains(q) <==> exists|m: int| 0 <= m < v@.len() && (#[trigger] v@[m]).key@ == q,
{
    let mut u: Vec<Vec<char>> = Vec::new();
    let mut j: usize = 0;
    while j < v.len()
        invariant
            0 <= j <= v@.len(),
            keyed_sorted(kview(v@)),
            strictly_sorted(key_view(u@)),
            forall|q: Seq<char>|
                key_view(u@).contains(q) <==> exists|m: int| 0 <= m < j && (#[trigger] v@[m]).key@ == q,
            j > 0 ==> u@.len() > 0 && u@[u@.len() - 1]@ == v@[j - 1].key@,
            j == 0 ==> u@.len() == 0,
        decreases v@.len() - j,
    {
        let fresh = u.len() == 0 || !chars_eq(&u[u.len() - 1], &v[j].key);
        let ghost old_u = key_view(u@);
        let ghost kj = v@[j as int].key@;
        if fresh {
            u.push(v[j].key.clone());
            proof {
                let nu = key_view(u@);
                assert(nu =~= old_u.push(kj));
                if old_u.len() > 0 {
                    let last = old_u[old_u.len() - 1];
                    assert(last == v@[j - 1].key@);
                    let kv = kview(v@);
                    assert(kv[j - 1] == (v@[j - 1].key@, v@[j - 1].idx));
                    assert(kv[j as int] == (kj, v@[j as int].idx));
                    lemma_keyed_path_le(kv[j - 1], kv[j as int]);
                    assert(path_lt(last, kj));
                    assert forall|a: int, b: int| 0 <= a < b < nu.len() implies path_lt(
                        #[trigger] nu[a],
                        #[trigger] nu[b],
                    ) by {
                        if b < nu.len() - 1 {
                            assert(nu[a] == old_u[a] && nu[b] == old_u[b]);
                        } else if a < nu.len() - 2 {
                            assert(nu[a] == old_u[a]);
                            lemma_path_lt_trans(old_u[a], last, kj);
                        }
                    }
                }
            }
        }
        proof {
            let nu = key_view(u@);
            assert forall|q: Seq<char>|
                nu.contains(q) <==> exists|m: int| 0 <= m < j + 1 && (#[trigger] v@[m]).key@ == q by {
                if nu.contains(q) {
                    let k = choose|k: int| 0 <= k < nu.len() && nu[k] == q;
                    if k < old_u.len() {
                        assert(old_u[k] == q);
                        assert(old_u.contains(q));
                    } else {
                        assert(v@[j as int].key@ == q);
                    }
                }
                if exists|m: int| 0 <= m < j + 1 && (#[trigger] v@[m]).key@ == q {
                    let m = choose|m: int| 0 <= m < j + 1 && (#[trigger] v@[m]).key@ == q;
                    if m < j {
                        assert(old_u.contains(q));
                        let k = choose|k: int| 0 <= k < old_u.len() && old_u[k] == q;
                        assert(nu[k] == q);
                    } else if fresh {
                        assert(nu[nu.len() - 1] == q);
                    } else {
                        assert(old_u[old_u.len() - 1] == q);
                        assert(nu[nu.len() - 1] == q);
                    }
                }
            }
        }
        j = j + 1;
    }
    u
}

/// The position of the last of `keys` equal to `p`, found in `ss`, the
/// tagged keys sorted.
fn find_in_sorted(ss: &Vec<Keyed>, p: &Vec<char>, Ghost(keys): Ghost<Seq<Seq<char>>>) -> (r: Option<
    usize,
>)
    requires
        keyed_sorted(kview(ss@)),
        kview(ss@).to_multiset() == tagged(keys).to_multiset(),
        keys.len() <= usize::MAX,
    ensures
        match r {
            Some(k) => k < keys.len() && keys[k as int] == p@ && forall|m: int|
                k < m < keys.len() ==> #[trigger] keys[m] != p@,
            None => forall|m: int| 0 <= m < keys.len() ==> #[trigger] keys[m] != p@,
        },
{
    let ghost sv = kview(ss@);
    let ghost tv = tagged(keys);
    proof {
        lemma_same_elements(sv, tv);
        lemma_path_le_from_refl(p@, 0);
    }
    let mut lo: usize = 0;
    let mut hi: usize = ss.len();
    while lo < hi
        invariant
            0 <= lo <= hi <= ss@.len(),
            sv == kview(ss@),
            keyed_sorted(sv),
            forall|m: int| 0 <= m < lo ==> path_le(#[trigger] ss@[m].key@, p@),
            forall|m: int| hi <= m < ss@.len() ==> !path_le(#[trigger] ss@[m].key@, p@),
        decreases hi - lo,
    {
        let mid = lo + (hi - lo) / 2;
        if path_le_exec(&ss[mid].key, p) {
            proof {
                assert forall|m: int| 0 <= m < mid + 1 implies path_le(#[trigger] ss@[m].key@, p@) by {
                    if m < mid {
                        assert(sv[m] == (ss@[m].key@, ss@[m].idx));
                        assert(sv[mid as int] == (ss@[mid as int].key@, ss@[mid as int].idx));
                        lemma_keyed_path_le(sv[m], sv[mid as int]);
                        lemma_path_le_from_trans(ss@[m].key@, ss@[mid as int].key@, p@, 0);
                    }
                }
            }
            lo = mid + 1;
        } else {
            proof {
                assert forall|m: int| mid <= m < ss@.len() implies !path_le(#[trigger] ss@[m].key@, p@) by {
                    if mid < m && path_le(ss@[m].key@, p@) {
                        assert(sv[m] == (ss@[m].key@, ss@[m].idx));
                        assert(sv[mid as int] == (ss@[mid as int].key@, ss@[mid as int].idx));
                        lemma_keyed_path_le(sv[mid as int], sv[m]);
                        lemma_path_le_from_trans(ss@[mid as int].key@, ss@[m].key@, p@, 0);
                    }
                }
            }
            hi = mid;
        }
    }
    if lo > 0 && chars_eq(&ss[lo - 1].key, p) {
        let found = ss[lo - 1].idx;
        proof {
            let last = sv[lo - 1];
            assert(last == (ss@[lo - 1].key@, found));
            assert(sv.contains(last));
            let k = choose|k: int| 0 <= k < tv.len() && tv[k] == last;
            assert(tv[k] == (keys[k], k as usize));
            assert(k == found);
            assert forall|m: int| found < m < keys.len() implies #[trigger] keys[m] != p@ by {
                if keys[m] == p@ {
                    assert(tv[m] == (p@, m as usize));
                    assert(m as usize == m);
                    assert(tv.contains(tv[m]));
                    let r = choose|r: int| 0 <= r < sv.len() && sv[r] == tv[m];
                    assert(sv[r] == (ss@[r].key@, ss@[r].idx));
                    if r < lo - 1 {
                        assert(keyed_le(sv[r], sv[lo - 1]));
                    } else if r >= lo {
                        assert(!path_le(ss@[r].key@, p@));
                    }
                }
            }
        }
        Some(found)
    } else {
        proof {
            assert forall|m: int| 0 <= m < keys.len() implies #[trigger] keys[m] != p@ by {
                if keys[m] == p@ {
                    assert(tv[m] == (p@, m as usize));
                    assert(tv.contains(tv[m]));
                    let r = choose|r: int| 0 <= r < sv.len() && sv[r] == tv[m];
                    assert(sv[r] == (ss@[r].key@, ss@[r].idx));
                    if r >= lo {
                        assert(!path_le(ss@[r].key@, p@));
                    } else {
                        let k2 = ss@[lo - 1].key@;
                        assert(sv[lo - 1] == (k2, ss@[lo - 1].idx));
                        assert(k2 != p@);
                        if r < lo - 1 {
                            assert(keyed_le(sv[r], sv[lo - 1]));
                            assert(path_le(p@, k2));
                            assert(path_le(k2, p@));
                            assert(p@.subrange(0, 0) =~= k2.subrange(0, 0));
                            lemma_path_le_antisym(p@, k2, 0);
                        }
                    }
                }
            }
        }
        None
    }
}

/// Whether two optional strings are equal.
fn same_text(a: &Option<String>, b: &Option<String>) -> (r: bool)
    ensures
        r == (text_view(*a) == text_view(*b)),
{
    match (a, b) {
        (Some(x), Some(y)) => text_eq(x.as_str(), y.as_str()),
        (None, None) => true,
        _ => false,
    }
}

/// Whether two optional sizes are equal.
fn same_size(a: Option<u64>, b: Option<u64>) -> (r: bool)
    ensures
        r == (a == b),
{
    match (a, b) {
        (Some(x), Some(y)) => x == y,
        (None, None) => true,
        _ => false,
    }
}

fn push_if(v: &mut Vec<AttributeChange>, c: bool, a: AttributeChange)
    ensures
        final(v)@ == old(v)@ + attr_if(c, a),
{
    if c {
        v.push(a);
        assert(final(v)@ =~= old(v)@ + attr_if(c, a));
    } else {
        assert(old(v)@ + attr_if(c, a) =~= old(v)@);
    }
}

proof fn lemma_union_contains(s: Seq<EntryView>, t: Seq<EntryView>, p: Seq<char>)
    ensures
        path_union(s, t).contains(p) <==> (lookup(s, p) is Some || lookup(t, p) is Some),
{
    lemma_lookup_path(s, p);
    lemma_lookup_path(t, p);
}

proof fn lemma_no_changes_with_itself(e: DiffEngine, a: EntryView)
    ensures
        changes_spec(e, a, a).len() == 0,
{
    assert(changes_spec(e, a, a) =~= Seq::<AttributeChange>::empty());
}

/// Comparing a snapshot with itself reports no difference: nothing is
/// added, removed or modified, every path is unchanged, and where no path is
/// listed twice the unchanged count is the number of entries.
pub proof fn lemma_diff_reflexive(e: DiffEngine, s: Seq<EntryView>)
    ensures
        identical_spec(e, s, s),
        added_count(s, s) == 0,
        removed_count(s, s) == 0,
        modified_count(e, s, s) == 0,
        unchanged_count(e, s, s) == path_union(s, s).len(),
        paths_of(s).no_duplicates() ==> unchanged_count(e, s, s) == s.len(),
{
    let u = path_union(s, s);
    assert forall|p: Seq<char>| lookup(s, p) is Some implies changes_spec(
        e,
        lookup(s, p)->Some_0,
        lookup(s, p)->Some_0,
    ).len() == 0 by {
        lemma_no_changes_with_itself(e, lookup(s, p)->Some_0);
    }
    assert forall|p: Seq<char>| #[trigger] u.contains(p) implies diff_at(e, s, s, p) is None by {
        lemma_union_contains(s, s, p);
    }
    assert(added_in(u, s, s) =~= Set::empty());
    assert(removed_in(u, s, s) =~= Set::empty());
    assert(modified_in(u, e, s, s) =~= Set::empty());
    assert forall|p: Seq<char>| u.contains(p) implies #[trigger] unchanged_in(u, e, s, s).contains(p) by {
        lemma_union_contains(s, s, p);
    }
    assert(unchanged_in(u, e, s, s) =~= u);
    assert(u =~= paths_of(s).to_set());
    if paths_of(s).no_duplicates() {
        paths_of(s).unique_seq_to_set();
    }
}

/// Swapping source and target swaps the added and removed counts and keeps
/// the modified and unchanged counts.
pub proof fn lemma_diff_symmetric(e: DiffEngine, a: Seq<EntryView>, b: Seq<EntryView>)
    ensures
        added_count(a, b) == removed_count(b, a),
        removed_count(a, b) == added_count(b, a),
        modified_count(e, a, b) == modified_count(e, b, a),
        unchanged_count(e, a, b) == unchanged_count(e, b, a),
        path_union(a, b) == path_union(b, a),
{
    assert(path_union(a, b) =~= path_union(b, a));
    let u = path_union(a, b);
    assert forall|x: EntryView, y: EntryView| #[trigger] changes_spec(e, x, y) == changes_spec(e, y, x) by {
        assert(changes_spec(e, x, y) =~= changes_spec(e, y, x));
    }
    assert(added_in(u, a, b) =~= removed_in(u, b, a));
    assert(removed_in(u, a, b) =~= added_in(u, b, a));
    assert(modified_in(u, e, a, b) =~= modified_in(u, e, b, a));
    assert(unchanged_in(u, e, a, b) =~= unchanged_in(u, e, b, a));
}

/// Comparing an empty snapshot with one of `k` entries with distinct paths
/// reports `k` added paths and nothing else.
pub proof fn lemma_diff_from_empty(e: DiffEngine, t: Seq<EntryView>)
    ensures
        added_count(Seq::empty(), t) == paths_of(t).to_set().len(),
        removed_count(Seq::empty(), t) == 0,
        modified_count(e, Seq::empty(), t) == 0,
        unchanged_count(e, Seq::empty(), t) == 0,
        paths_of(t).no_duplicates() ==> added_count(Seq::empty(), t) == t.len(),
{
    let s = Seq::<EntryView>::empty();
    let u = path_union(s, t);
    assert(paths_of(s) =~= Seq::<Seq<char>>::empty());
    assert(u =~= paths_of(t).to_set());
    assert forall|p: Seq<char>| u.contains(p) implies #[trigger] added_in(u, s, t).contains(p) by {
        lemma_union_contains(s, t, p);
    }
    assert(added_in(u, s, t) =~= u);
    assert(removed_in(u, s, t) =~= Set::empty());
    assert(modified_in(u, e, s, t) =~= Set::empty());
    assert(unchanged_in(u, e, s, t) =~= Set::empty());
    if paths_of(t).no_duplicates() {
        paths_of(t).unique_seq_to_set();
    }
}

impl DiffEngine {
    /// An engine with the given options.
    pub fn new(options: DiffOptions) -> (r: DiffEngine)
        ensures
            r.ignore_time == options.ignore_time,
            r.ignore_mode == options.ignore_mode,
            r.structure_only == options.structure_only,
    {
        DiffEngine {
            ignore_time: options.ignore_time,
            ignore_mode: options.ignore_mode,
            structure_only: options.structure_only,
        }
    }

    /// The modification of `src` into `tgt`, if any configured attribute
    /// differs.
    pub fn compare_entries(&self, src: &SnapshotEntry, tgt: &SnapshotEntry) -> (r: Option<
        Difference,
    >)
        ensures
            changes_spec(*self, src@, tgt@).len() == 0 ==> r is None,
            changes_spec(*self, src@, tgt@).len() > 0 ==> r is Some && r->Some_0@ == (DifferenceView {
                path: src@.path,
                change_type: ChangeType::Modified,
                changes: changes_spec(*self, src@, tgt@),
                source: Some(src@),
                target: Some(tgt@),
                error: None,
            }),
    {
        let mut changes: Vec<AttributeChange> = Vec::new();
        let full = !self.structure_only;
        push_if(&mut changes, src.entry_type != tgt.entry_type, AttributeChange::Type);
        push_if(
            &mut changes,
            full && !same_text(&src.checksum, &tgt.checksum),
            AttributeChange::Content,
        );
        push_if(
            &mut changes,
            full && !self.ignore_mode && !same_text(&src.mode, &tgt.mode),
            AttributeChange::Mode,
        );
        push_if(
            &mut changes,
            full && !self.ignore_time && src.mtime != tgt.mtime,
            AttributeChange::Mtime,
        );
        push_if(&mut changes, full && !same_size(src.size, tgt.size), AttributeChange::Size);
        push_if(
            &mut changes,
            full && !same_text(&src.target, &tgt.target),
            AttributeChange::Target,
        );
        assert(changes@ =~= changes_spec(*self, src@, tgt@));
        if changes.len() == 0 {
            None
        } else {
            Some(
                Difference {
                    path: src.path.clone(),
                    change_type: ChangeType::Modified,
                    changes,
                    source: Some(src.duplicate()),
                    target: Some(tgt.duplicate()),
                    error: None,
                },
            )
        }
    }

    /// Compares two snapshots taken from serialized form, so that the
    /// result depends on its inputs alone.
    pub fn diff(&self, source: &Snapshot, target: &Snapshot) -> (r: DiffResult)
        ensures
            differences_spec(
                *self,
                entries_view(source.entries@),
                entries_view(target.entries@),
                differences_view(r.differences@),
            ),
            r.identical == identical_spec(*self, entries_view(source.entries@), entries_view(target.entries@)),
            r.identical == (r.differences@.len() == 0),
            r.summary.added == added_count(entries_view(source.entries@), entries_view(target.entries@)),
            r.summary.removed == removed_count(entries_view(source.entries@), entries_view(target.entries@)),
            r.summary.modified == modified_count(*self, entries_view(source.entries@), entries_view(target.entries@)),
            r.summary.unchanged == unchanged_count(*self, entries_view(source.entries@), entries_view(target.entries@)),
            r.summary.added + r.summary.removed + r.summary.modified + r.summary.unchanged
                == path_union(entries_view(source.entries@), entries_view(target.entries@)).len(),
            r.plumbah.status == Status::Success,
            r.plumbah.meta is Some,
            r.plumbah.meta->Some_0.deterministic,
    {
        self.diff_with(source, target, true)
    }

    /// Compares two snapshots; `deterministic` declares whether both came
    /// from serialized form rather than a live scan.
    pub fn diff_with(&self, source: &Snapshot, target: &Snapshot, deterministic: bool) -> (r: DiffResult)
        ensures
            differences_spec(
                *self,
                entries_view(source.entries@),
                entries_view(target.entries@),
                differences_view(r.differences@),
            ),
            r.identical == identical_spec(*self, entries_view(source.entries@), entries_view(target.entries@)),
            r.identical == (r.differences@.len() == 0),
            r.summary.added == added_count(entries_view(source.entries@), entries_view(target.entries@)),
            r.summary.removed == removed_count(entries_view(source.entries@), entries_view(target.entries@)),
            r.summary.modified == modified_count(*self, entries_view(source.entries@), entries_view(target.entries@)),
            r.summary.unchanged == unchanged_count(*self, entries_view(source.entries@), entries_view(target.entries@)),
            r.summary.added + r.summary.removed + r.summary.modified + r.summary.unchanged
                == path_union(entries_view(source.entries@), entries_view(target.entries@)).len(),
            r.plumbah.version@ == PLUMBAH_VERSION@,
            r.plumbah.status == Status::Success,
            r.plumbah.errors is None,
            r.plumbah.meta is Some,
            r.plumbah.meta->Some_0.tool@ == DIFF_TOOL@,
            r.plumbah.meta->Some_0.tool_version@ == TOOL_VERSION@,
            r.plumbah.meta->Some_0.idempotent,
            !r.plumbah.meta->Some_0.mutates,
            r.plumbah.meta->Some_0.safe,
            r.plumbah.meta->Some_0.deterministic == deterministic,
            r.plumbah.meta->Some_0.plumbah_level == PLUMBAH_LEVEL,
    {
        let start = current_time();
        let ghost s = entries_view(source.entries@);
        let ghost t = entries_view(target.entries@);
        let skeys = entry_keys(&source.entries);
        let tkeys = entry_keys(&target.entries);
        let source_len = source.entries.len();
        let target_len = target.entries.len();
        let ss = merge_sort(tag_keys(&skeys));
        let tt = merge_sort(tag_keys(&tkeys));
        let mut both = tag_keys(&skeys);
        let mut more = tag_keys(&tkeys);
        let ghost bs = kview(both@);
        let ghost bt = kview(more@);
        let ghost both_before = both@;
        let ghost more_before = more@;
        both.append(&mut more);
        let ghost ball = kview(both@);
        let all = merge_sort(both);
        let u = distinct_keys(&all);
        let ghost uv = key_view(u@);
        proof {
            assert(ball =~= bs + bt);
            lemma_same_elements(kview(all@), ball);
            let ps = paths_of(s);
            let pt = paths_of(t);
            assert forall|q: Seq<char>| uv.contains(q) <==> #[trigger] path_union(s, t).contains(q) by {
                assert(ps.to_set().contains(q) == ps.contains(q));
                assert(pt.to_set().contains(q) == pt.contains(q));
                let av = kview(all@);
                if uv.contains(q) {
                    let m = choose|m: int| 0 <= m < all@.len() && (#[trigger] all@[m]).key@ == q;
                    assert(av[m] == (all@[m].key@, all@[m].idx));
                    assert(av.contains(av[m]));
                    let k = choose|k: int| 0 <= k < ball.len() && ball[k] == av[m];
                    if k < bs.len() {
                        assert(bs[k] == ball[k]);
                        assert(ps[k] == q);
                    } else {
                        assert(bt[k - bs.len()] == ball[k]);
                        assert(pt[k - bs.len()] == q);
                    }
                }
                if ps.contains(q) {
                    let k = choose|k: int| 0 <= k < ps.len() && ps[k] == q;
                    assert(ball[k] == bs[k]);
                    assert(ball.contains(ball[k]));
                    let r = choose|r: int| 0 <= r < av.len() && av[r] == ball[k];
                    assert(av[r] == (all@[r].key@, all@[r].idx));
                    assert(all@[r].key@ == q);
                }
                if pt.contains(q) {
                    let k = choose|k: int| 0 <= k < pt.len() && pt[k] == q;
                    assert(ball[bs.len() + k] == bt[k]);
                    assert(ball.contains(ball[bs.len() + k]));
                    let r = choose|r: int| 0 <= r < av.len() && av[r] == ball[bs.len() + k];
                    assert(av[r] == (all@[r].key@, all@[r].idx));
                    assert(all@[r].key@ == q);
                }
            }
        }
        let mut differences: Vec<Difference> = Vec::new();
        let mut added: usize = 0;
        let mut removed: usize = 0;
        let mut modified: usize = 0;
        let mut unchanged: usize = 0;
        let ghost mut seen: Set<Seq<char>> = Set::empty();
        proof {
            assert(uv.subrange(0, 0).to_set() =~= seen);
            assert(added_in(seen, s, t) =~= Set::empty());
            assert(removed_in(seen, s, t) =~= Set::empty());
            assert(modified_in(seen, *self, s, t) =~= Set::empty());
            assert(unchanged_in(seen, *self, s, t) =~= Set::empty());
            assert(paths_of(s).len() == source_len);
            assert(paths_of(t).len() == target_len);
            assert(paths_of(s).len() == s.len());
            assert(paths_of(t).len() == t.len());
        }
        let mut i: usize = 0;
        while i < u.len()
            invariant
                0 <= i <= u@.len(),
                uv == key_view(u@),
                strictly_sorted(uv),
                forall|q: Seq<char>| uv.contains(q) <==> #[trigger] path_union(s, t).contains(q),
                s == entries_view(source.entries@),
                t == entries_view(target.entries@),
                keyed_sorted(kview(ss@)),
                keyed_sorted(kview(tt@)),
                kview(ss@).to_multiset() == tagged(paths_of(s)).to_multiset(),
                kview(tt@).to_multiset() == tagged(paths_of(t)).to_multiset(),
                paths_of(s).len() <= usize::MAX,
                paths_of(t).len() <= usize::MAX,
                seen == uv.subrange(0, i as int).to_set(),
                seen.finite(),
                seen.len() == i,
                added == added_in(seen, s, t).len(),
                removed == removed_in(seen, s, t).len(),
                modified == modified_in(seen, *self, s, t).len(),
                unchanged == unchanged_in(seen, *self, s, t).len(),
                added + removed + modified + unchanged == i,
                forall|a: int, b: int|
                    0 <= a < b < differences@.len() ==> path_lt(
                        #[trigger] differences@[a]@.path,
                        #[trigger] differences@[b]@.path,
                    ),
                forall|m: int|
                    0 <= m < differences@.len() ==> exists|k: int|
                        0 <= k < i && uv[k] == (#[trigger] differences@[m])@.path,
                forall|m: int|
                    0 <= m < differences@.len() ==> diff_at(*self, s, t, (#[trigger] differences@[m])@.path)
                        == Some(differences@[m]@),
                forall|p: Seq<char>|
                    #[trigger] seen.contains(p) && diff_at(*self, s, t, p) is Some ==> exists|m: int|
                        0 <= m < differences@.len() && differences@[m]@.path == p,
                differences@.len() == 0 <==> forall|p: Seq<char>|
                    #[trigger] seen.contains(p) ==> diff_at(*self, s, t, p) is None,
            decreases u@.len() - i,
        {
            let ghost p = uv[i as int];
            proof {
                assert(u@[i as int]@ == p);
                assert(path_union(s, t).contains(p));
                lemma_union_contains(s, t, p);
            }
            let si = find_in_sorted(&ss, &u[i], Ghost(paths_of(s)));
            let ti = find_in_sorted(&tt, &u[i], Ghost(paths_of(t)));
            proof {
                match si {
                    Some(k) => {
                        assert forall|m: int| k < m < s.len() implies (#[trigger] s[m]).path != p by {
                            assert(paths_of(s)[m] == s[m].path);
                        }
                        assert(paths_of(s)[k as int] == s[k as int].path);
                        lemma_lookup_at(s, p, k as int);
                    },
                    None => {
                        assert forall|m: int| 0 <= m < s.len() implies (#[trigger] s[m]).path != p by {
                            assert(paths_of(s)[m] == s[m].path);
                        }
                        lemma_lookup_none(s, p);
                    },
                }
                match ti {
                    Some(k) => {
                        assert forall|m: int| k < m < t.len() implies (#[trigger] t[m]).path != p by {
                            assert(paths_of(t)[m] == t[m].path);
                        }
                        assert(paths_of(t)[k as int] == t[k as int].path);
                        lemma_lookup_at(t, p, k as int);
                    },
                    None => {
                        assert forall|m: int| 0 <= m < t.len() implies (#[trigger] t[m]).path != p by {
                            assert(paths_of(t)[m] == t[m].path);
                        }
                        lemma_lookup_none(t, p);
                    },
                }
                lemma_lookup_path(s, p);
                lemma_lookup_path(t, p);
            }
            let ghost old_d = differences@;
            let ghost new_seen = seen.insert(p);
            proof {
                assert(uv.subrange(0, i + 1) =~= uv.subrange(0, i as int).push(p));
                assert forall|q: Seq<char>| uv.subrange(0, i + 1).contains(q) <==> new_seen.contains(q) by {
                    let nx = uv.subrange(0, i + 1);
                    let pr = uv.subrange(0, i as int);
                    if nx.contains(q) {
                        let k = choose|k: int| 0 <= k < nx.len() && nx[k] == q;
                        if k < i {
                            assert(pr[k] == q);
                            assert(pr.contains(q));
                        }
                    }
                    if seen.contains(q) {
                        assert(pr.contains(q));
                        let k = choose|k: int| 0 <= k < pr.len() && pr[k] == q;
                        assert(nx[k] == q);
                    }
                    if q == p {
                        assert(nx[i as int] == q);
                    }
                }
                assert(uv.subrange(0, i + 1).to_set() =~= new_seen);
                assert(!seen.contains(p)) by {
                    if seen.contains(p) {
                        let k = choose|k: int| 0 <= k < i && uv.subrange(0, i as int)[k] == p;
                        assert(uv[k] == p);
                        assert(path_lt(uv[k], uv[i as int]));
                    }
                };
            }
            let mut pushed = false;
            match (si, ti) {
                (Some(a), Some(b)) => {
                    let sa = &source.entries[a];
                    let tb = &target.entries[b];
                    proof {
                        assert(s[a as int] == sa@);
                        assert(t[b as int] == tb@);
                    }
                    match self.compare_entries(sa, tb) {
                        Some(d) => {
                            differences.push(d);
                            modified = modified + 1;
                            pushed = true;
                        },
                        None => {
                            unchanged = unchanged + 1;
                        },
                    }
                },
                (Some(a), None) => {
                    let sa = &source.entries[a];
                    proof {
                        assert(s[a as int] == sa@);
                    }
                    differences.push(
                        Difference {
                            path: sa.path.clone(),
                            change_type: ChangeType::Removed,
                            changes: Vec::new(),
                            source: Some(sa.duplicate()),
                            target: None,
                            error: None,
                        },
                    );
                    removed = removed + 1;
                    pushed = true;
                },
                (None, Some(b)) => {
                    let tb = &target.entries[b];
                    proof {
                        assert(t[b as int] == tb@);
                    }
                    differences.push(
                        Difference {
                            path: tb.path.clone(),
                            change_type: ChangeType::Added,
                            changes: Vec::new(),
                            source: None,
                            target: Some(tb.duplicate()),
                            error: None,
                        },
                    );
                    added = added + 1;
                    pushed = true;
                },
                (None, None) => {},
            }
            proof {
                assert(added_in(new_seen, s, t) =~= (if is_added(s, t, p) {
                    added_in(seen, s, t).insert(p)
                } else {
                    added_in(seen, s, t)
                }));
                assert(removed_in(new_seen, s, t) =~= (if is_removed(s, t, p) {
                    removed_in(seen, s, t).insert(p)
                } else {
                    removed_in(seen, s, t)
                }));
                assert(modified_in(new_seen, *self, s, t) =~= (if is_modified(*self, s, t, p) {
                    modified_in(seen, *self, s, t).insert(p)
                } else {
                    modified_in(seen, *self, s, t)
                }));
                assert(unchanged_in(new_seen, *self, s, t) =~= (if is_unchanged(*self, s, t, p) {
                    unchanged_in(seen, *self, s, t).insert(p)
                } else {
                    unchanged_in(seen, *self, s, t)
                }));
                assert(!added_in(seen, s, t).contains(p));
                assert(!removed_in(seen, s, t).contains(p));
                assert(!modified_in(seen, *self, s, t).contains(p));
                assert(!unchanged_in(seen, *self, s, t).contains(p));
                assert(pushed <==> diff_at(*self, s, t, p) is Some);
                if pushed {
                    assert(new_seen.contains(p));
                    assert(differences@ == old_d.push(differences@[old_d.len() as int]));
                    assert(differences@[old_d.len() as int]@.path == p);
                    assert(diff_at(*self, s, t, p) == Some(differences@[old_d.len() as int]@));
                    assert forall|a: int, b: int|
                        0 <= a < b < differences@.len() implies path_lt(
                        #[trigger] differences@[a]@.path,
                        #[trigger] differences@[b]@.path,
                    ) by {
                        if b == old_d.len() {
                            assert(differences@[a] == old_d[a]);
                            let k = choose|k: int| 0 <= k < i && uv[k] == old_d[a]@.path;
                            assert(path_lt(uv[k], uv[i as int]));
                        } else {
                            assert(differences@[a] == old_d[a] && differences@[b] == old_d[b]);
                        }
                    }
                    assert forall|m: int| 0 <= m < differences@.len() implies exists|k: int|
                        0 <= k < i + 1 && uv[k] == (#[trigger] differences@[m])@.path by {
                        if m < old_d.len() {
                            assert(differences@[m] == old_d[m]);
                            let k = choose|k: int| 0 <= k < i && uv[k] == old_d[m]@.path;
                            assert(uv[k] == differences@[m]@.path);
                        } else {
                            assert(uv[i as int] == differences@[m]@.path);
                        }
                    }
                    assert forall|m: int| 0 <= m < differences@.len() implies diff_at(
                        *self,
                        s,
                        t,
                        (#[trigger] differences@[m])@.path,
                    ) == Some(differences@[m]@) by {
                        if m < old_d.len() {
                            assert(differences@[m] == old_d[m]);
                        }
                    }
                    assert forall|q: Seq<char>| #[trigger]
                        new_seen.contains(q) && diff_at(*self, s, t, q) is Some implies exists|m: int|
                        0 <= m < differences@.len() && differences@[m]@.path == q by {
                        if q == p {
                            assert(differences@[old_d.len() as int]@.path == q);
                        } else {
                            assert(seen.contains(q));
                            let m = choose|m: int| 0 <= m < old_d.len() && old_d[m]@.path == q;
                            assert(differences@[m] == old_d[m]);
                        }
                    }
                } else {
                    assert(differences@ == old_d);
                    assert((forall|q: Seq<char>| #[trigger] new_seen.contains(q) ==> diff_at(*self, s, t, q) is None)
                        <==> (forall|q: Seq<char>| #[trigger] seen.contains(q) ==> diff_at(*self, s, t, q) is None)) by {
                        if forall|q: Seq<char>| #[trigger] seen.contains(q) ==> diff_at(*self, s, t, q) is None {
                            assert forall|q: Seq<char>| #[trigger] new_seen.contains(q) implies diff_at(*self, s, t, q) is None by {
                                if q != p {
                                    assert(seen.contains(q));
                                }
                            }
                        }
                        if forall|q: Seq<char>| #[trigger] new_seen.contains(q) ==> diff_at(*self, s, t, q) is None {
                            assert forall|q: Seq<char>| #[trigger] seen.contains(q) implies diff_at(*self, s, t, q) is None by {
                                assert(new_seen.contains(q));
                            }
                        }
                    }
                    assert forall|m: int| 0 <= m < differences@.len() implies exists|k: int|
                        0 <= k < i + 1 && uv[k] == (#[trigger] differences@[m])@.path by {
                        let k = choose|k: int| 0 <= k < i && uv[k] == old_d[m]@.path;
                        assert(uv[k] == differences@[m]@.path);
                    }
                    assert forall|q: Seq<char>| #[trigger]
                        new_seen.contains(q) && diff_at(*self, s, t, q) is Some implies exists|m: int|
                        0 <= m < differences@.len() && differences@[m]@.path == q by {
                        assert(seen.contains(q));
                    }
                }
                seen = new_seen;
            }
            i = i + 1;
        }
        proof {
            assert(uv.subrange(0, uv.len() as int) =~= uv);
            assert(seen =~= path_union(s, t)) by {
                assert forall|q: Seq<char>| seen.contains(q) <==> path_union(s, t).contains(q) by {
                    assert(uv.to_set().contains(q) == uv.contains(q));
                }
            }
            assert(differences_view(differences@).len() == differences@.len());
            let dv = differences_view(differences@);
            assert forall|a: int, b: int| 0 <= a < b < dv.len() implies path_lt(
                #[trigger] dv[a].path,
                #[trigger] dv[b].path,
            ) by {
                assert(dv[a] == differences@[a]@ && dv[b] == differences@[b]@);
            }
            assert forall|m: int| 0 <= m < dv.len() implies path_union(s, t).contains(
                #[trigger] dv[m].path,
            ) && diff_at(*self, s, t, dv[m].path) == Some(dv[m]) by {
                assert(dv[m] == differences@[m]@);
                let k = choose|k: int| 0 <= k < uv.len() && uv[k] == differences@[m]@.path;
                assert(uv.contains(dv[m].path));
            }
            assert forall|q: Seq<char>| #[trigger]
                path_union(s, t).contains(q) && diff_at(*self, s, t, q) is Some implies exists|i: int|
                0 <= i < dv.len() && dv[i].path == q by {
                assert(seen.contains(q));
                let m = choose|m: int| 0 <= m < differences@.len() && differences@[m]@.path == q;
                assert(dv[m] == differences@[m]@);
            }
        }
        let identical = differences.len() == 0;
        let finished = current_time();
        let meta = Meta::new(
            DIFF_TOOL,
            TOOL_VERSION,
            true,
            false,
            true,
            deterministic,
            elapsed_ms(start, finished),
            finished,
        );
        DiffResult {
            plumbah: PlumbahObject::new(Status::Success, meta),
            identical,
            summary: DiffSummary { added, removed, modified, unchanged },
            differences,
        }
    }
}

} // verus!
