//! Merge sort of paths tagged with positions, in path order and, among
//! equal paths, by position.
use vstd::multiset::Multiset;
use vstd::prelude::*;

use crate::snapshot::{
    chars_eq, lemma_path_le_antisym, lemma_path_le_from_refl, lemma_path_le_from_total,
    lemma_path_le_from_trans, path_le, path_le_exec, path_lt,
};

verus! {

broadcast use vstd::seq_lib::group_to_multiset_ensures;

/// A path, as characters, tagged with a position.
pub struct Keyed {
    pub key: Vec<char>,
    pub idx: usize,
}

pub open spec fn kview(s: Seq<Keyed>) -> Seq<(Seq<char>, usize)> {
    s.map_values(|k: Keyed| (k.key@, k.idx))
}

/// Path order first, then position.
pub open spec fn keyed_le(a: (Seq<char>, usize), b: (Seq<char>, usize)) -> bool {
    path_lt(a.0, b.0) || (a.0 == b.0 && a.1 <= b.1)
}

pub open spec fn keyed_sorted(s: Seq<(Seq<char>, usize)>) -> bool {
    forall|i: int, j: int| 0 <= i < j < s.len() ==> keyed_le(#[trigger] s[i], #[trigger] s[j])
}

pub proof fn lemma_keyed_total(a: (Seq<char>, usize), b: (Seq<char>, usize))
    ensures
        keyed_le(a, b) || keyed_le(b, a),
{
    lemma_path_le_from_total(a.0, b.0, 0);
}

pub proof fn lemma_keyed_trans(a: (Seq<char>, usize), b: (Seq<char>, usize), c: (Seq<char>, usize))
    requires
        keyed_le(a, b),
        keyed_le(b, c),
    ensures
        keyed_le(a, c),
{
    if path_lt(a.0, b.0) && path_lt(b.0, c.0) {
        lemma_path_le_from_trans(a.0, b.0, c.0, 0);
        if a.0 == c.0 {
            assert(a.0.subrange(0, 0) =~= b.0.subrange(0, 0));
            lemma_path_le_antisym(a.0, b.0, 0);
        }
    }
}

/// A sorted order implies path order on the paths.
pub proof fn lemma_keyed_path_le(a: (Seq<char>, usize), b: (Seq<char>, usize))
    requires
        keyed_le(a, b),
    ensures
        path_le(a.0, b.0),
{
    if a.0 == b.0 {
        lemma_path_le_from_refl(a.0, 0);
    }
}

fn keyed_le_exec(a: &Keyed, b: &Keyed) -> (r: bool)
    ensures
        r == keyed_le((a.key@, a.idx), (b.key@, b.idx)),
{
    if chars_eq(&a.key, &b.key) {
        a.idx <= b.idx
    } else {
        path_le_exec(&a.key, &b.key)
    }
}

proof fn lemma_kview_pop(s: Seq<Keyed>)
    requires
        s.len() > 0,
    ensures
        kview(s.subrange(0, s.len() - 1)) == kview(s).drop_last(),
        kview(s).to_multiset() == kview(s.subrange(0, s.len() - 1)).to_multiset().insert(
            kview(s).last(),
        ),
{
    let d = s.subrange(0, s.len() - 1);
    assert(kview(d) =~= kview(s).drop_last());
    assert(kview(s) =~= kview(d).push(kview(s).last()));
    vstd::seq_lib::to_multiset_build(kview(d), kview(s).last());
}

proof fn lemma_kview_push(s: Seq<Keyed>, x: Keyed)
    ensures
        kview(s.push(x)) == kview(s).push((x.key@, x.idx)),
        kview(s.push(x)).to_multiset() == kview(s).to_multiset().insert((x.key@, x.idx)),
{
    assert(kview(s.push(x)) =~= kview(s).push((x.key@, x.idx)));
    vstd::seq_lib::to_multiset_build(kview(s), (x.key@, x.idx));
}

/// Merges two sorted lists into one sorted list holding both.
fn merge(a: Vec<Keyed>, b: Vec<Keyed>) -> (r: Vec<Keyed>)
    requires
        keyed_sorted(kview(a@)),
        keyed_sorted(kview(b@)),
    ensures
        keyed_sorted(kview(r@)),
        kview(r@).to_multiset() == kview(a@).to_multiset().add(kview(b@).to_multiset()),
{
    let ghost total = kview(a@).to_multiset().add(kview(b@).to_multiset());
    let mut a = a;
    let mut b = b;
    let mut rev: Vec<Keyed> = Vec::new();
    proof {
        assert(kview(rev@) =~= Seq::<(Seq<char>, usize)>::empty());
        assert(kview(rev@).to_multiset() =~= Multiset::empty());
        assert(kview(rev@).to_multiset().add(kview(a@).to_multiset()).add(kview(b@).to_multiset())
            =~= total);
    }
    while a.len() > 0 || b.len() > 0
        invariant
            keyed_sorted(kview(a@)),
            keyed_sorted(kview(b@)),
            forall|i: int, j: int|
                0 <= i < j < rev@.len() ==> keyed_le(#[trigger] kview(rev@)[j], #[trigger] kview(rev@)[i]),
            forall|i: int, j: int|
                0 <= i < rev@.len() && 0 <= j < a@.len() ==> keyed_le(
                    #[trigger] kview(a@)[j],
                    #[trigger] kview(rev@)[i],
                ),
            forall|i: int, j: int|
                0 <= i < rev@.len() && 0 <= j < b@.len() ==> keyed_le(
                    #[trigger] kview(b@)[j],
                    #[trigger] kview(rev@)[i],
                ),
            kview(rev@).to_multiset().add(kview(a@).to_multiset()).add(kview(b@).to_multiset())
                == total,
        decreases a@.len() + b@.len(),
    {
        let take_a = if a.len() == 0 {
            false
        } else if b.len() == 0 {
            true
        } else {
            keyed_le_exec(&b[b.len() - 1], &a[a.len() - 1])
        };
        let ghost old_a = a@;
        let ghost old_b = b@;
        let ghost old_rev = rev@;
        if take_a {
            let x = a.pop().unwrap();
            proof {
                lemma_kview_pop(old_a);
                lemma_kview_push(old_rev, x);
                let xv = (x.key@, x.idx);
                assert(xv == kview(old_a).last());
                assert forall|j: int| 0 <= j < a@.len() implies keyed_le(#[trigger] kview(a@)[j], xv) by {
                    assert(kview(a@)[j] == kview(old_a)[j]);
                }
                assert forall|j: int| 0 <= j < b@.len() implies keyed_le(#[trigger] kview(b@)[j], xv) by {
                    if j < b@.len() - 1 {
                        lemma_keyed_trans(kview(b@)[j], kview(b@)[b@.len() - 1], xv);
                    }
                }
            }
            rev.push(x);
        } else {
            let x = b.pop().unwrap();
            proof {
                lemma_kview_pop(old_b);
                lemma_kview_push(old_rev, x);
                let xv = (x.key@, x.idx);
                assert(xv == kview(old_b).last());
                if old_a.len() > 0 {
                    lemma_keyed_total(kview(old_a).last(), xv);
                }
                assert forall|j: int| 0 <= j < b@.len() implies keyed_le(#[trigger] kview(b@)[j], xv) by {
                    assert(kview(b@)[j] == kview(old_b)[j]);
                }
                assert forall|j: int| 0 <= j < a@.len() implies keyed_le(#[trigger] kview(a@)[j], xv) by {
                    if j < a@.len() - 1 {
                        lemma_keyed_trans(kview(a@)[j], kview(a@)[a@.len() - 1], xv);
                    }
                }
            }
            rev.push(x);
        }
        proof {
            let rv = kview(rev@);
            let orv = kview(old_rev);
            let xv = rv[rv.len() - 1];
            assert forall|i: int, j: int| 0 <= i < j < rv.len() implies keyed_le(#[trigger] rv[j], #[trigger] rv[i]) by {
                if j < rv.len() - 1 {
                    assert(rv[i] == orv[i] && rv[j] == orv[j]);
                } else {
                    assert(rv[i] == orv[i]);
                    if take_a {
                        assert(keyed_le(kview(old_a)[old_a.len() - 1], orv[i]));
                    } else {
                        assert(keyed_le(kview(old_b)[old_b.len() - 1], orv[i]));
                    }
                }
            }
            assert forall|i: int, j: int| 0 <= i < rv.len() && 0 <= j < a@.len() implies keyed_le(
                #[trigger] kview(a@)[j],
                #[trigger] rv[i],
            ) by {
                if take_a {
                    assert(kview(a@)[j] == kview(old_a)[j]);
                } else {
                    assert(kview(a@)[j] == kview(old_a)[j]);
                }
                if i < rv.len() - 1 {
                    assert(rv[i] == orv[i]);
                }
            }
            assert forall|i: int, j: int| 0 <= i < rv.len() && 0 <= j < b@.len() implies keyed_le(
                #[trigger] kview(b@)[j],
                #[trigger] rv[i],
            ) by {
                assert(kview(b@)[j] == kview(old_b)[j]);
                if i < rv.len() - 1 {
                    assert(rv[i] == orv[i]);
                }
            }
            if take_a {
                assert(kview(rev@).to_multiset().add(kview(a@).to_multiset()).add(
                    kview(b@).to_multiset(),
                ) =~= total);
            } else {
                assert(kview(rev@).to_multiset().add(kview(a@).to_multiset()).add(
                    kview(b@).to_multiset(),
                ) =~= total);
            }
        }
    }
    proof {
        assert(kview(a@) =~= Seq::<(Seq<char>, usize)>::empty());
        assert(kview(b@) =~= Seq::<(Seq<char>, usize)>::empty());
        assert(kview(a@).to_multiset() =~= Multiset::empty());
        assert(kview(b@).to_multiset() =~= Multiset::empty());
    }
    let mut out: Vec<Keyed> = Vec::new();
    proof {
        assert(kview(out@) =~= Seq::<(Seq<char>, usize)>::empty());
        assert(kview(out@).to_multiset() =~= Multiset::empty());
    }
    while rev.len() > 0
        invariant
            keyed_sorted(kview(out@)),
            forall|i: int, j: int|
                0 <= i < j < rev@.len() ==> keyed_le(#[trigger] kview(rev@)[j], #[trigger] kview(rev@)[i]),
            forall|i: int, j: int|
                0 <= i < out@.len() && 0 <= j < rev@.len() ==> keyed_le(
                    #[trigger] kview(out@)[i],
                    #[trigger] kview(rev@)[j],
                ),
            kview(out@).to_multiset().add(kview(rev@).to_multiset()) == total,
        decreases rev@.len(),
    {
        let ghost old_rev = rev@;
        let ghost old_out = out@;
        let x = rev.pop().unwrap();
        proof {
            lemma_kview_pop(old_rev);
            lemma_kview_push(old_out, x);
        }
        out.push(x);
        proof {
            let ov = kview(out@);
            let rv = kview(rev@);
            let orv = kview(old_rev);
            let xv = (x.key@, x.idx);
            assert(xv == orv.last());
            assert forall|i: int, j: int| 0 <= i < j < ov.len() implies keyed_le(#[trigger] ov[i], #[trigger] ov[j]) by {
                if j < ov.len() - 1 {
                    assert(ov[i] == kview(old_out)[i] && ov[j] == kview(old_out)[j]);
                } else {
                    assert(ov[i] == kview(old_out)[i]);
                    assert(ov[j] == xv);
                }
            }
            assert forall|i: int, j: int| 0 <= i < ov.len() && 0 <= j < rv.len() implies keyed_le(
                #[trigger] ov[i],
                #[trigger] rv[j],
            ) by {
                assert(rv[j] == orv[j]);
                if i < ov.len() - 1 {
                    assert(ov[i] == kview(old_out)[i]);
                } else {
                    assert(ov[i] == xv);
                    assert(keyed_le(orv[orv.len() - 1], orv[j]));
                }
            }
            assert(kview(out@).to_multiset().add(kview(rev@).to_multiset()) =~= total);
        }
    }
    proof {
        assert(kview(rev@) =~= Seq::<(Seq<char>, usize)>::empty());
        assert(kview(rev@).to_multiset() =~= Multiset::empty());
        assert(kview(out@).to_multiset() =~= total);
    }
    out
}

/// Mapping two sequences that hold the same elements gives two sequences
/// that hold the same elements.
pub proof fn lemma_map_multiset<A, B>(s: Seq<A>, t: Seq<A>, f: spec_fn(A) -> B)
    requires
        s.to_multiset() == t.to_multiset(),
    ensures
        s.map_values(f).to_multiset() == t.map_values(f).to_multiset(),
    decreases s.len(),
{
    broadcast use vstd::multiset::group_multiset_axioms;

    vstd::seq_lib::to_multiset_len(s);
    vstd::seq_lib::to_multiset_len(t);
    if s.len() == 0 {
        assert(t.len() == 0);
        assert(s.map_values(f) =~= t.map_values(f));
    } else {
        let x = s.last();
        let sd = s.drop_last();
        assert(s =~= sd.push(x));
        vstd::seq_lib::to_multiset_build(sd, x);
        vstd::seq_lib::to_multiset_contains(t, x);
        assert(t.to_multiset().count(x) > 0);
        let k = choose|k: int| 0 <= k < t.len() && t[k] == x;
        let td = t.remove(k);
        vstd::seq_lib::to_multiset_remove(t, k);
        assert(sd.to_multiset() =~= td.to_multiset());
        lemma_map_multiset(sd, td, f);
        assert(s.map_values(f) =~= sd.map_values(f).push(f(x)));
        vstd::seq_lib::to_multiset_build(sd.map_values(f), f(x));
        assert(t.map_values(f) =~= td.map_values(f).insert(k, f(x)));
        vstd::seq_lib::to_multiset_insert(td.map_values(f), k, f(x));
    }
}

/// The same tagged paths, sorted.
pub fn merge_sort(v: Vec<Keyed>) -> (r: Vec<Keyed>)
    ensures
        keyed_sorted(kview(r@)),
        kview(r@).to_multiset() == kview(v@).to_multiset(),
    decreases v@.len(),
{
    if v.len() <= 1 {
        return v;
    }
    let ghost whole = v@;
    let mut left = v;
    let mid = left.len() / 2;
    let right = left.split_off(mid);
    proof {
        assert(kview(whole) =~= kview(left@) + kview(right@));
        vstd::seq_lib::lemma_multiset_commutative(kview(left@), kview(right@));
    }
    let l = merge_sort(left);
    let r = merge_sort(right);
    merge(l, r)
}

} // verus!
