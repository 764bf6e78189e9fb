//! What the queues of an ordered type report: a least item under the rule
//! that keeps the lesser, a greatest item under the rule that keeps the
//! greater.

use crate::combinator::{greater, lesser, ExtremumFunction, ExtremumOrdMax, ExtremumOrdMin};
use crate::model::{clone_is_exact, folds_to, reports, QueueView};
use core::cmp::Ordering;
use vstd::prelude::*;
use vstd::std_specs::cmp::OrdSpec;

verus! {

/// Whether `a` does not come after `b` in the order of `T`.
pub open spec fn at_most<T: Ord>(a: T, b: T) -> bool {
    a.cmp_spec(&b) != Ordering::Greater
}

/// Whether comparing two `T` agrees with the order that `T` specifies, and
/// that order is total and transitive.
pub open spec fn totally_ordered<T: Ord>() -> bool {
    &&& T::obeys_cmp_spec()
    &&& forall|a: T, b: T| #[trigger] at_most(a, b) || at_most(b, a)
    &&& forall|a: T, b: T, c: T| #[trigger] at_most(a, b) && #[trigger] at_most(b, c) ==> at_most(a, c)
}

/// Whether `r` is an item of `s` that comes after no item of `s`.
pub open spec fn is_least<T: Ord>(s: Seq<T>, r: T) -> bool {
    &&& s.contains(r)
    &&& forall|i: int| 0 <= i < s.len() ==> at_most(r, #[trigger] s[i])
}

/// Whether `r` is an item of `s` that no item of `s` comes after.
pub open spec fn is_greatest<T: Ord>(s: Seq<T>, r: T) -> bool {
    &&& s.contains(r)
    &&& forall|i: int| 0 <= i < s.len() ==> at_most(#[trigger] s[i], r)
}

/// The lesser of a least item of `a` and a least item of `b` is a least item
/// of the two runs together.
pub proof fn lemma_least_of_both<T: Ord>(a: Seq<T>, b: Seq<T>, ra: T, rb: T)
    requires
        totally_ordered::<T>(),
        is_least(a, ra),
        is_least(b, rb),
    ensures
        is_least(a + b, lesser(ra, rb)),
{
    let whole = a + b;
    let r = lesser(ra, rb);
    let ia = choose|i: int| 0 <= i < a.len() && a[i] == ra;
    let ib = choose|i: int| 0 <= i < b.len() && b[i] == rb;
    assert(whole[ia] == ra);
    assert(whole[a.len() + ib] == rb);
    assert(at_most(ra, rb) || at_most(rb, ra));
    assert(at_most(r, ra) && at_most(r, rb)) by {
        assert(at_most(ra, ra) || at_most(ra, ra));
        assert(at_most(rb, rb) || at_most(rb, rb));
    }
    assert forall|i: int| 0 <= i < whole.len() implies at_most(r, #[trigger] whole[i]) by {
        if i < a.len() {
            assert(whole[i] == a[i]);
            assert(at_most(r, ra) && at_most(ra, a[i]));
        } else {
            assert(whole[i] == b[i - a.len()]);
            assert(at_most(r, rb) && at_most(rb, b[i - a.len()]));
        }
    }
}

/// The greater of a greatest item of `a` and a greatest item of `b` is a
/// greatest item of the two runs together.
pub proof fn lemma_greatest_of_both<T: Ord>(a: Seq<T>, b: Seq<T>, ra: T, rb: T)
    requires
        totally_ordered::<T>(),
        is_greatest(a, ra),
        is_greatest(b, rb),
    ensures
        is_greatest(a + b, greater(ra, rb)),
{
    let whole = a + b;
    let r = greater(ra, rb);
    let ia = choose|i: int| 0 <= i < a.len() && a[i] == ra;
    let ib = choose|i: int| 0 <= i < b.len() && b[i] == rb;
    assert(whole[ia] == ra);
    assert(whole[a.len() + ib] == rb);
    assert(at_most(ra, rb) || at_most(rb, ra));
    assert(at_most(ra, r) && at_most(rb, r)) by {
        assert(at_most(ra, ra) || at_most(ra, ra));
        assert(at_most(rb, rb) || at_most(rb, rb));
    }
    assert forall|i: int| 0 <= i < whole.len() implies at_most(#[trigger] whole[i], r) by {
        if i < a.len() {
            assert(whole[i] == a[i]);
            assert(at_most(a[i], ra) && at_most(ra, r));
        } else {
            assert(whole[i] == b[i - a.len()]);
            assert(at_most(b[i - a.len()], rb) && at_most(rb, r));
        }
    }
}

/// A least item of a run read backwards is a least item of the run.
pub proof fn lemma_least_of_reverse<T: Ord>(s: Seq<T>, r: T)
    requires
        is_least(s.reverse(), r),
    ensures
        is_least(s, r),
{
    let back = s.reverse();
    let j = choose|j: int| 0 <= j < back.len() && back[j] == r;
    assert(s[s.len() - 1 - j] == r);
    assert forall|i: int| 0 <= i < s.len() implies at_most(r, #[trigger] s[i]) by {
        assert(back[s.len() - 1 - i] == s[i]);
    }
}

/// A greatest item of a run read backwards is a greatest item of the run.
pub proof fn lemma_greatest_of_reverse<T: Ord>(s: Seq<T>, r: T)
    requires
        is_greatest(s.reverse(), r),
    ensures
        is_greatest(s, r),
{
    let back = s.reverse();
    let j = choose|j: int| 0 <= j < back.len() && back[j] == r;
    assert(s[s.len() - 1 - j] == r);
    assert forall|i: int| 0 <= i < s.len() implies at_most(#[trigger] s[i], r) by {
        assert(back[s.len() - 1 - i] == s[i]);
    }
}

/// Under the rule that keeps the lesser, a run folds to a least item of it.
pub proof fn lemma_min_folds_to_least<T: Ord + Clone>(f: ExtremumOrdMin<T>, s: Seq<T>, r: T)
    requires
        folds_to(f, s, r),
        totally_ordered::<T>(),
        clone_is_exact::<T>(),
    ensures
        is_least(s, r),
    decreases s.len(),
{
    if s.len() == 1 {
        assert(cloned(s[0], r));
        assert(at_most(r, r) || at_most(r, r));
    } else {
        let p = choose|p: T| folds_to(f, s.drop_last(), p) && #[trigger] f.yields(p, s.last(), r);
        lemma_min_folds_to_least(f, s.drop_last(), p);
        let top = seq![s.last()];
        assert(at_most(s.last(), s.last()) || at_most(s.last(), s.last()));
        assert(top[0] == s.last());
        assert(is_least(top, s.last()));
        lemma_least_of_both(s.drop_last(), top, p, s.last());
        assert(s.drop_last() + top =~= s);
        assert(cloned(lesser(p, s.last()), r));
    }
}

/// Under the rule that keeps the greater, a run folds to a greatest item of
/// it.
pub proof fn lemma_max_folds_to_greatest<T: Ord + Clone>(f: ExtremumOrdMax<T>, s: Seq<T>, r: T)
    requires
        folds_to(f, s, r),
        totally_ordered::<T>(),
        clone_is_exact::<T>(),
    ensures
        is_greatest(s, r),
    decreases s.len(),
{
    if s.len() == 1 {
        assert(cloned(s[0], r));
        assert(at_most(r, r) || at_most(r, r));
    } else {
        let p = choose|p: T| folds_to(f, s.drop_last(), p) && #[trigger] f.yields(p, s.last(), r);
        lemma_max_folds_to_greatest(f, s.drop_last(), p);
        let top = seq![s.last()];
        assert(at_most(s.last(), s.last()) || at_most(s.last(), s.last()));
        assert(top[0] == s.last());
        assert(is_greatest(top, s.last()));
        lemma_greatest_of_both(s.drop_last(), top, p, s.last());
        assert(s.drop_last() + top =~= s);
        assert(cloned(greater(p, s.last()), r));
    }
}

/// A sliding-minimum queue reports a least of its items: an item of the queue
/// that comes after none of them, whenever the order of `T` is total and
/// copies are exact.
pub proof fn law_min_is_least<T: Ord + Clone>(w: QueueView<T>, f: ExtremumOrdMin<T>, r: T)
    requires
        w.has_extremum(f, r),
        totally_ordered::<T>(),
        clone_is_exact::<T>(),
    ensures
        is_least(w.items(), r),
{
    let back = w.front.reverse();
    if w.rear.len() == 0 {
        let c = choose|c: T| #[trigger] folds_to(f, back, c) && cloned(c, r);
        lemma_min_folds_to_least(f, back, c);
        lemma_least_of_reverse(w.front, r);
        assert(w.items() =~= w.front);
    } else if w.front.len() == 0 {
        let c = choose|c: T| #[trigger] folds_to(f, w.rear, c) && cloned(c, r);
        lemma_min_folds_to_least(f, w.rear, c);
        assert(w.items() =~= w.rear);
    } else {
        let (cf, cr) = choose|cf: T, cr: T|
            reports(f, back, cf) && reports(f, w.rear, cr) && #[trigger] f.yields(cf, cr, r);
        let pf = choose|c: T| #[trigger] folds_to(f, back, c) && cloned(c, cf);
        let pr = choose|c: T| #[trigger] folds_to(f, w.rear, c) && cloned(c, cr);
        lemma_min_folds_to_least(f, back, pf);
        lemma_min_folds_to_least(f, w.rear, pr);
        lemma_least_of_reverse(w.front, cf);
        lemma_least_of_both(w.front, w.rear, cf, cr);
        assert(cloned(lesser(cf, cr), r));
    }
}

/// A sliding-maximum queue reports a greatest of its items: an item of the
/// queue that none of them comes after, whenever the order of `T` is total
/// and copies are exact.
pub proof fn law_max_is_greatest<T: Ord + Clone>(w: QueueView<T>, f: ExtremumOrdMax<T>, r: T)
    requires
        w.has_extremum(f, r),
        totally_ordered::<T>(),
        clone_is_exact::<T>(),
    ensures
        is_greatest(w.items(), r),
{
    let back = w.front.reverse();
    if w.rear.len() == 0 {
        let c = choose|c: T| #[trigger] folds_to(f, back, c) && cloned(c, r);
        lemma_max_folds_to_greatest(f, back, c);
        lemma_greatest_of_reverse(w.front, r);
        assert(w.items() =~= w.front);
    } else if w.front.len() == 0 {
        let c = choose|c: T| #[trigger] folds_to(f, w.rear, c) && cloned(c, r);
        lemma_max_folds_to_greatest(f, w.rear, c);
        assert(w.items() =~= w.rear);
    } else {
        let (cf, cr) = choose|cf: T, cr: T|
            reports(f, back, cf) && reports(f, w.rear, cr) && #[trigger] f.yields(cf, cr, r);
        let pf = choose|c: T| #[trigger] folds_to(f, back, c) && cloned(c, cf);
        let pr = choose|c: T| #[trigger] folds_to(f, w.rear, c) && cloned(c, cr);
        lemma_max_folds_to_greatest(f, back, pf);
        lemma_max_folds_to_greatest(f, w.rear, pr);
        lemma_greatest_of_reverse(w.front, cf);
        lemma_greatest_of_both(w.front, w.rear, cf, cr);
        assert(cloned(greater(cf, cr), r));
    }
}

} // verus!
