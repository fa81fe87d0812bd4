//! In-place filtering of vectors by a precomputed keep mask.
use vstd::prelude::*;

verus! {

/// The elements of `s` whose flag is set, in order.
pub open spec fn flagged<T>(s: Seq<T>, keep: Seq<bool>) -> Seq<T>
    decreases s.len(),
{
    if s.len() == 0 {
        s
    } else {
        let r = flagged(s.drop_last(), keep.drop_last());
        if keep.last() { r.push(s.last()) } else { r }
    }
}

/// Filtering by a mask that records a predicate of each element's view is
/// filtering the views by that predicate.
pub proof fn lemma_flagged_filter<T, U>(s: Seq<T>, keep: Seq<bool>, f: spec_fn(T) -> U, p: spec_fn(U) -> bool)
    requires
        keep.len() == s.len(),
        forall|i: int| 0 <= i < s.len() ==> keep[i] == p(f(#[trigger] s[i])),
    ensures
        flagged(s, keep).map_values(f) == s.map_values(f).filter(p),
    decreases s.len(),
{
    if s.len() > 0 {
        let t = s.drop_last();
        let k = keep.drop_last();
        assert forall|i: int| 0 <= i < t.len() implies k[i] == p(f(#[trigger] t[i])) by {
            assert(t[i] == s[i]);
        }
        lemma_flagged_filter(t, k, f, p);
        reveal(Seq::filter);
        let sm = s.map_values(f);
        assert(sm.drop_last() =~= t.map_values(f));
        assert(sm.last() == f(s.last()));
        assert(keep.last() == p(f(s[s.len() - 1])));
        assert(sm.filter(p) == (if p(sm.last()) { sm.drop_last().filter(p).push(sm.last()) } else { sm.drop_last().filter(p) }));
        assert(flagged(s, keep) == (if keep.last() { flagged(t, k).push(s.last()) } else { flagged(t, k) }));
        if keep.last() {
            assert(flagged(s, keep).map_values(f) =~= flagged(t, k).map_values(f).push(f(s.last())));
        }
    } else {
        reveal(Seq::filter);
        assert(s.map_values(f) =~= Seq::<U>::empty());
    }
}

/// The same, for a predicate of the elements themselves.
pub proof fn lemma_flagged_filter_self<T>(s: Seq<T>, keep: Seq<bool>, p: spec_fn(T) -> bool)
    requires
        keep.len() == s.len(),
        forall|i: int| 0 <= i < s.len() ==> keep[i] == p(#[trigger] s[i]),
    ensures
        flagged(s, keep) == s.filter(p),
    decreases s.len(),
{
    if s.len() > 0 {
        let t = s.drop_last();
        let k = keep.drop_last();
        assert forall|i: int| 0 <= i < t.len() implies k[i] == p(#[trigger] t[i]) by {
            assert(t[i] == s[i]);
        }
        lemma_flagged_filter_self(t, k, p);
        reveal(Seq::filter);
        assert(keep.last() == p(s[s.len() - 1]));
        assert(s.filter(p) == (if p(s.last()) { t.filter(p).push(s.last()) } else { t.filter(p) }));
        assert(flagged(s, keep) == (if keep.last() { flagged(t, k).push(s.last()) } else { flagged(t, k) }));
    } else {
        reveal(Seq::filter);
    }
}

/// Moves the flagged elements of `v` into a new vector, in order.
pub fn keep_flagged<T>(v: Vec<T>, keep: &Vec<bool>) -> (r: Vec<T>)
    requires
        keep@.len() == v@.len(),
    ensures
        r@ == flagged(v@, keep@),
{
    let ghost s = v@;
    let n = v.len();
    let mut v = v;
    let mut out: Vec<T> = Vec::new();
    let mut i: usize = 0;
    while i < n
        invariant
            n == s.len(),
            keep@.len() == n,
            i <= n,
            v@ == s.subrange(i as int, n as int),
            out@ == flagged(s.take(i as int), keep@.take(i as int)),
        decreases n - i,
    {
        let x = v.remove(0);
        assert(x == s[i as int]);
        assert(s.take(i + 1).drop_last() =~= s.take(i as int));
        assert(keep@.take(i + 1).drop_last() =~= keep@.take(i as int));
        if keep[i] {
            out.push(x);
        }
        i += 1;
        assert(v@ =~= s.subrange(i as int, n as int));
    }
    assert(s.take(n as int) =~= s);
    assert(keep@.take(n as int) =~= keep@);
    out
}

} // verus!
