//! What holds of the queue across calls, proved over its model.

use crate::combinator::ExtremumFunction;
use crate::model::{
    associative, clone_is_exact, commutative, computes, count_pushes, fifo_apply, fifo_next,
    fifo_run, fold, folds_to, pops, pushes_of, reports, Op, QueueView,
};
use vstd::prelude::*;

verus! {

/// Under a deterministic rule and exact copies, a sequence folds to one value
/// only: its items combined from first to last.
pub proof fn lemma_folds_to_fold<T: Clone, F: ExtremumFunction<T>>(
    f: F,
    op: spec_fn(T, T) -> T,
    s: Seq<T>,
    r: T,
)
    requires
        folds_to(f, s, r),
        computes(f, op),
        clone_is_exact::<T>(),
    ensures
        s.len() > 0,
        r == fold(op, s),
    decreases s.len(),
{
    if s.len() > 1 {
        let p = choose|p: T| folds_to(f, s.drop_last(), p) && #[trigger] f.yields(p, s.last(), r);
        lemma_folds_to_fold(f, op, s.drop_last(), p);
    }
}

/// Under a deterministic rule and exact copies, a stack reports one value
/// only: its items combined from the bottom up.
pub proof fn lemma_reports_fold<T: Clone, F: ExtremumFunction<T>>(
    f: F,
    op: spec_fn(T, T) -> T,
    s: Seq<T>,
    r: T,
)
    requires
        reports(f, s, r),
        computes(f, op),
        clone_is_exact::<T>(),
    ensures
        s.len() > 0,
        r == fold(op, s),
{
    let c = choose|c: T| #[trigger] folds_to(f, s, c) && cloned(c, r);
    lemma_folds_to_fold(f, op, s, c);
}

/// Combining two runs one after the other is combining what each run
/// combines to, where grouping does not matter.
pub proof fn lemma_fold_concat<T>(op: spec_fn(T, T) -> T, a: Seq<T>, b: Seq<T>)
    requires
        associative(op),
        a.len() > 0,
        b.len() > 0,
    ensures
        fold(op, a + b) == op(fold(op, a), fold(op, b)),
    decreases b.len(),
{
    let whole = a + b;
    assert(whole.last() == b.last());
    if b.len() == 1 {
        assert(whole.drop_last() =~= a);
    } else {
        assert(whole.drop_last() =~= a + b.drop_last());
        lemma_fold_concat(op, a, b.drop_last());
        assert(op(op(fold(op, a), fold(op, b.drop_last())), b.last()) == op(
            fold(op, a),
            op(fold(op, b.drop_last()), b.last()),
        ));
    }
}

/// Combining a run backwards gives what combining it forwards gives, where
/// neither grouping nor order matters.
pub proof fn lemma_fold_reverse<T>(op: spec_fn(T, T) -> T, s: Seq<T>)
    requires
        associative(op),
        commutative(op),
        s.len() > 0,
    ensures
        fold(op, s.reverse()) == fold(op, s),
    decreases s.len(),
{
    if s.len() == 1 {
        assert(s.reverse() =~= s);
    } else {
        let head = seq![s.last()];
        let rest = s.drop_last();
        assert(s.reverse() =~= head + rest.reverse());
        lemma_fold_reverse(op, rest);
        lemma_fold_concat(op, head, rest.reverse());
        assert(fold(op, head) == s.last());
        assert(op(s.last(), fold(op, rest)) == op(fold(op, rest), s.last()));
    }
}

/// The extremum that a queue reports is its items combined, from the next to
/// leave to the last to have arrived, whenever the rule is deterministic,
/// associative and commutative and copies are exact. How the items are spread
/// over the two stacks does not show.
pub proof fn law_extremum_is_fold<T: Clone, F: ExtremumFunction<T>>(
    w: QueueView<T>,
    f: F,
    op: spec_fn(T, T) -> T,
    r: T,
)
    requires
        w.has_extremum(f, r),
        computes(f, op),
        associative(op),
        commutative(op),
        clone_is_exact::<T>(),
    ensures
        w.len() > 0,
        r == fold(op, w.items()),
{
    let back = w.front.reverse();
    if w.rear.len() == 0 {
        lemma_reports_fold(f, op, back, r);
        lemma_fold_reverse(op, back);
        assert(back.reverse() =~= w.front);
        assert(w.items() =~= w.front);
    } else if w.front.len() == 0 {
        lemma_reports_fold(f, op, w.rear, r);
        assert(w.items() =~= w.rear);
    } else {
        let (cf, cr) = choose|cf: T, cr: T|
            reports(f, back, cf) && reports(f, w.rear, cr) && #[trigger] f.yields(cf, cr, r);
        lemma_reports_fold(f, op, back, cf);
        lemma_reports_fold(f, op, w.rear, cr);
        lemma_fold_reverse(op, back);
        assert(back.reverse() =~= w.front);
        lemma_fold_concat(op, w.front, w.rear);
    }
}

/// A queue of one item reports that item, unchanged, where copies are exact,
/// whatever the rule.
pub proof fn law_single_item_is_extremum<T: Clone, F: ExtremumFunction<T>>(
    w: QueueView<T>,
    f: F,
    r: T,
)
    requires
        w.len() == 1,
        w.has_extremum(f, r),
        clone_is_exact::<T>(),
    ensures
        r == w.items()[0],
{
    let s = if w.rear.len() == 0 {
        w.front.reverse()
    } else {
        w.rear
    };
    let c = choose|c: T| #[trigger] folds_to(f, s, c) && cloned(c, r);
    assert(s[0] == w.items()[0]);
}


/// One operation does to the two stacks what it does to a plain first-in,
/// first-out sequence of the same items, and a pop hands out the same item.
pub proof fn law_step_matches_fifo<T>(w: QueueView<T>, op: Op<T>)
    ensures
        w.apply(op).items() == fifo_apply(w.items(), op),
        w.next() == fifo_next(w.items()),
        w.len() == w.items().len(),
{
    assert(w.apply(op).items() =~= fifo_apply(w.items(), op));
}

/// After any run of operations the two stacks hold, in order, what a plain
/// first-in, first-out sequence holds after the same run; so the length and
/// the next item to leave agree as well.
pub proof fn law_run_matches_fifo<T>(w: QueueView<T>, ops: Seq<Op<T>>)
    ensures
        w.run(ops).items() == fifo_run(w.items(), ops),
        w.run(ops).next() == fifo_next(fifo_run(w.items(), ops)),
        w.run(ops).len() == fifo_run(w.items(), ops).len(),
    decreases ops.len(),
{
    if ops.len() > 0 {
        law_run_matches_fifo(w, ops.drop_last());
        law_step_matches_fifo(w.run(ops.drop_last()), ops.last());
    }
    law_step_matches_fifo(w.run(ops), Op::Pop);
}

/// After any run of operations, the extremum that the queue reports is the
/// items of the plain sequence combined from first to last, whenever the rule
/// is deterministic, associative and commutative and copies are exact.
pub proof fn law_run_extremum_matches_fifo<T: Clone, F: ExtremumFunction<T>>(
    w: QueueView<T>,
    ops: Seq<Op<T>>,
    f: F,
    op: spec_fn(T, T) -> T,
    r: T,
)
    requires
        w.run(ops).has_extremum(f, r),
        computes(f, op),
        associative(op),
        commutative(op),
        clone_is_exact::<T>(),
    ensures
        fifo_run(w.items(), ops).len() > 0,
        r == fold(op, fifo_run(w.items(), ops)),
{
    law_run_matches_fifo(w, ops);
    law_extremum_is_fold(w.run(ops), f, op, r);
}

/// The length after any run of operations is the length before, plus the
/// pushes, minus the pops that returned an item.
pub proof fn law_length<T>(w: QueueView<T>, ops: Seq<Op<T>>)
    ensures
        w.run(ops).len() == w.len() + count_pushes(ops) - w.count_served(ops),
    decreases ops.len(),
{
    if ops.len() > 0 {
        law_length(w, ops.drop_last());
    }
}

/// A pop from an empty queue returns nothing and leaves the queue, and so its
/// length, as it was.
pub proof fn law_pop_of_empty<T>(w: QueueView<T>)
    requires
        w.len() == 0,
    ensures
        w.next() is None,
        w.popped() == w,
        w.popped().len() == 0,
{
}

/// Pushing items onto a plain sequence appends them in order.
pub proof fn lemma_fifo_pushes<T>(s: Seq<T>, values: Seq<T>)
    ensures
        fifo_run(s, pushes_of(values)) == s + values,
    decreases values.len(),
{
    let ops = pushes_of(values);
    if values.len() == 0 {
        assert(s + values =~= s);
    } else {
        lemma_fifo_pushes(s, values.drop_last());
        assert(ops.drop_last() =~= pushes_of(values.drop_last()));
        assert(ops.last() == Op::Push(values.last()));
        assert((s + values.drop_last()).push(values.last()) =~= s + values);
    }
}

/// Popping `n` times from a plain sequence of at least `n` items removes its
/// first `n` items.
pub proof fn lemma_fifo_pops<T>(s: Seq<T>, n: nat)
    requires
        n <= s.len(),
    ensures
        fifo_run(s, pops(n)) == s.skip(n as int),
    decreases n,
{
    let ops = pops::<T>(n);
    if n == 0 {
        assert(s.skip(0) =~= s);
    } else {
        let m = (n - 1) as nat;
        lemma_fifo_pops(s, m);
        assert(ops.drop_last() =~= pops::<T>(m));
        assert(ops.last() == Op::<T>::Pop);
        assert(s.skip(m as int).drop_first() =~= s.skip(n as int));
    }
}

/// Items leave in the order in which they arrived: after the items of
/// `values` have been pushed onto an empty queue, the pop that follows `k`
/// earlier pops returns `values[k]`, and the queue is empty once as many items
/// have been popped as were pushed.
pub proof fn law_fifo<T>(values: Seq<T>, k: nat)
    requires
        k < values.len(),
    ensures
        QueueView::<T>::empty().run(pushes_of(values)).run(pops(k)).next() == Some(
            values[k as int],
        ),
        QueueView::<T>::empty().run(pushes_of(values)).run(pops(values.len())).len() == 0,
{
    let start = QueueView::<T>::empty();
    let full = start.run(pushes_of(values));
    law_run_matches_fifo(start, pushes_of(values));
    lemma_fifo_pushes(start.items(), values);
    assert(start.items() + values =~= values);
    law_run_matches_fifo(full, pops(k));
    lemma_fifo_pops(values, k);
    law_run_matches_fifo(full, pops(values.len()));
    lemma_fifo_pops(values, values.len());
}

/// An empty queue signals that it is empty: a pop returns nothing, and no
/// value is its extremum.
pub proof fn law_empty_signals<T: Clone, F: ExtremumFunction<T>>(w: QueueView<T>, f: F, r: T)
    requires
        w.len() == 0,
    ensures
        w.next() is None,
        !w.has_extremum(f, r),
{
    assert(w.front.reverse().len() == 0);
}

/// A queue is empty again once as many items have been popped as it held.
pub proof fn law_drained_is_empty<T>(w: QueueView<T>)
    ensures
        w.run(pops(w.len())).len() == 0,
        w.run(pops(w.len())).next() is None,
{
    law_run_matches_fifo(w, pops(w.len()));
    law_step_matches_fifo(w, Op::Pop);
    lemma_fifo_pops(w.items(), w.len());
}


/// Combining a run is combining the run without one of its items, and then
/// that item, where neither grouping nor order matters.
pub proof fn lemma_fold_remove<T>(op: spec_fn(T, T) -> T, s: Seq<T>, j: int)
    requires
        associative(op),
        commutative(op),
        s.len() > 1,
        0 <= j < s.len(),
    ensures
        fold(op, s) == op(fold(op, s.remove(j)), s[j]),
{
    let before = s.take(j);
    let item = seq![s[j]];
    let after = s.skip(j + 1);
    assert(s.remove(j) =~= before + after);
    assert(fold(op, item) == s[j]);
    if after.len() == 0 {
        assert(s =~= before + item);
        assert(s.remove(j) =~= before);
        lemma_fold_concat(op, before, item);
    } else if before.len() == 0 {
        assert(s =~= item + after);
        assert(s.remove(j) =~= after);
        lemma_fold_concat(op, item, after);
        assert(op(s[j], fold(op, after)) == op(fold(op, after), s[j]));
    } else {
        assert(s =~= before + (item + after));
        lemma_fold_concat(op, item, after);
        lemma_fold_concat(op, before, item + after);
        lemma_fold_concat(op, before, after);
        assert(op(s[j], fold(op, after)) == op(fold(op, after), s[j]));
        assert(op(op(fold(op, before), fold(op, after)), s[j]) == op(
            fold(op, before),
            op(fold(op, after), s[j]),
        ));
    }
}

/// The order in which items are combined does not matter, where neither
/// grouping nor order matters to the operation: two runs of the same items
/// combine to the same value.
pub proof fn law_fold_any_order<T>(op: spec_fn(T, T) -> T, s: Seq<T>, t: Seq<T>)
    requires
        associative(op),
        commutative(op),
        s.len() > 0,
        s.to_multiset() == t.to_multiset(),
    ensures
        fold(op, s) == fold(op, t),
    decreases s.len(),
{
    s.to_multiset_ensures();
    t.to_multiset_ensures();
    let x = s.last();
    assert(s.contains(x));
    assert(s.to_multiset().count(x) > 0);
    assert(t.to_multiset().count(x) > 0);
    assert(t.contains(x));
    let j = choose|j: int| 0 <= j < t.len() && t[j] == x;
    if s.len() > 1 {
        let rest = s.drop_last();
        assert(rest.push(x) =~= s);
        rest.to_multiset_ensures();
        assert(t.remove(j).to_multiset() =~= rest.to_multiset());
        law_fold_any_order(op, rest, t.remove(j));
        lemma_fold_remove(op, t, j);
    }
}


/// Every item changes stacks at most once: over any run of operations, the
/// items moved from the rear to the front, together with those still on the
/// rear, are no more than were on the rear at the start or were pushed
/// since. So the work of a run is linear in its length.
pub proof fn law_moves_are_bounded<T>(w: QueueView<T>, ops: Seq<Op<T>>)
    ensures
        w.count_moves(ops) + w.run(ops).rear.len() <= w.rear.len() + count_pushes(ops),
    decreases ops.len(),
{
    if ops.len() > 0 {
        law_moves_are_bounded(w, ops.drop_last());
    }
}

} // verus!
