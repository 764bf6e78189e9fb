//! A stack that keeps, beside every item, the extremum of that item and of
//! everything below it.

use crate::combinator::ExtremumFunction;
use crate::model::folds_to;
use vstd::prelude::*;

verus! {

/// The items of a run of stack slots, bottom first, without the running
/// extrema that are stored beside them.
pub(crate) open spec fn slot_values<T>(slots: Seq<(T, T)>) -> Seq<T> {
    slots.map_values(|slot: (T, T)| slot.0)
}

/// Whether the second component of every slot is a running extremum under
/// `f`: a copy of the item in the bottom slot, and above that the running
/// extremum of the slot below combined with the slot's own item.
pub(crate) open spec fn slots_track<T: Clone, F: ExtremumFunction<T>>(
    slots: Seq<(T, T)>,
    f: F,
) -> bool {
    &&& slots.len() > 0 ==> cloned(slots[0].0, slots[0].1)
    &&& forall|i: int|
        0 < i < slots.len() ==> f.yields(slots[i - 1].1, (#[trigger] slots[i]).0, slots[i].1)
}

/// The running extremum in the top slot is a result of combining all items
/// from the bottom up.
pub(crate) proof fn lemma_top_folds<T: Clone, F: ExtremumFunction<T>>(slots: Seq<(T, T)>, f: F)
    requires
        slots_track(slots, f),
        slots.len() > 0,
    ensures
        folds_to(f, slot_values(slots), slots.last().1),
    decreases slots.len(),
{
    let values = slot_values(slots);
    let top = slots.len() - 1;
    assert(values.len() == slots.len());
    if slots.len() > 1 {
        let below = slots.drop_last();
        lemma_below_tracks(slots, f);
        lemma_top_folds(below, f);
        assert(slot_values(below) =~= values.drop_last());
        assert(below.last() == slots[top - 1]);
        assert(f.yields(slots[top - 1].1, (#[trigger] slots[top]).0, slots[top].1));
        assert(f.yields(slots[top - 1].1, values.last(), slots[top].1));
    }
}

/// Taking the top slot off leaves running extrema in the slots below.
pub(crate) proof fn lemma_below_tracks<T: Clone, F: ExtremumFunction<T>>(slots: Seq<(T, T)>, f: F)
    requires
        slots_track(slots, f),
        slots.len() > 0,
    ensures
        slots_track(slots.drop_last(), f),
        slot_values(slots.drop_last()) == slot_values(slots).drop_last(),
{
    let below = slots.drop_last();
    assert forall|i: int| 0 < i < below.len() implies f.yields(
        below[i - 1].1,
        (#[trigger] below[i]).0,
        below[i].1,
    ) by {
        assert(below[i] == slots[i]);
    }
    assert(slot_values(below) =~= slot_values(slots).drop_last());
}

/// A stack of slots, each an item with the running extremum of the stack up
/// to and including it.
pub(crate) struct Minstack<T> {
    pub(crate) data: Vec<(T, T)>,
}

impl<T: Clone> Minstack<T> {
    /// The items on the stack, bottom first.
    pub(crate) open spec fn values(&self) -> Seq<T> {
        slot_values(self.data@)
    }

    /// Whether every slot caches the running extremum under `f`.
    pub(crate) open spec fn tracks<F: ExtremumFunction<T>>(&self, f: F) -> bool {
        slots_track(self.data@, f)
    }

    pub(crate) fn new() -> (r: Minstack<T>)
        ensures
            r.data@ == Seq::<(T, T)>::empty(),
    {
        Minstack::<T> { data: Vec::new() }
    }

    pub(crate) fn len(&self) -> (r: usize)
        ensures
            r == self.data@.len(),
            r == self.values().len(),
    {
        self.data.len()
    }

    /// Puts `value` on top, with the running extremum that results from it.
    pub(crate) fn push<F: ExtremumFunction<T>>(&mut self, value: T, extrema_fun: &F)
        requires
            old(self).tracks(*extrema_fun),
        ensures
            final(self).tracks(*extrema_fun),
            final(self).values() == old(self).values().push(value),
            final(self).data@.len() == old(self).data@.len() + 1,
            final(self).data@.drop_last() == old(self).data@,
    {
        let n = self.data.len();
        if n == 0 {
            let temp = value.clone();
            self.data.push((value, temp));
        } else {
            let new_extrema = extrema_fun.extremum(&self.data[n - 1].1, &value);
            self.data.push((value, new_extrema));
        }
        assert(self.data@.drop_last() =~= old(self).data@);
        assert(self.values() =~= old(self).values().push(value));
    }

    /// Takes the top item off, dropping the running extremum stored with it.
    pub(crate) fn pop(&mut self) -> (r: Option<T>)
        ensures
            old(self).data@.len() == 0 ==> r is None && final(self).data@ == old(self).data@,
            old(self).data@.len() > 0 ==> r == Some(old(self).data@.last().0) && final(self).data@
                == old(self).data@.drop_last(),
    {
        match self.data.pop() {
            Some(slot) => Some(slot.0),
            None => None,
        }
    }

    /// The item in slot `i`, counted from the bottom.
    pub(crate) fn value(&self, i: usize) -> (r: &T)
        requires
            i < self.data@.len(),
        ensures
            *r == self.values()[i as int],
    {
        &self.data[i].0
    }

    /// A copy of the running extremum on top: the extremum of the whole stack.
    pub(crate) fn get_extrema(&self) -> (r: Option<T>)
        ensures
            self.data@.len() == 0 ==> r is None,
            self.data@.len() > 0 ==> r is Some && cloned(self.data@.last().1, r.unwrap()),
    {
        let n = self.data.len();
        if n == 0 {
            None
        } else {
            Some(self.data[n - 1].1.clone())
        }
    }
}

} // verus!
