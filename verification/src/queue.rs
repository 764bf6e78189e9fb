//! The queue itself: two extremum-tracking stacks and the rule they share.

use crate::combinator::{CustomExtremum, ExtremumFunction, ExtremumOrdMax, ExtremumOrdMin};
use crate::model::{reports, QueueView};
use crate::stack::{lemma_below_tracks, lemma_top_folds, Minstack};
use vstd::prelude::*;

verus! {

/// A queue of items of type `T` that reports the extremum of its contents
/// under the rule `F`.
pub struct SlidingExtrema<T: Clone, F: ExtremumFunction<T>> {
    push_stack: Minstack<T>,
    pop_stack: Minstack<T>,
    extrema_fun: F,
}

impl<T: Clone, F: ExtremumFunction<T>> View for SlidingExtrema<T, F> {
    type V = QueueView<T>;

    /// The front is the pop stack read from its top down, the rear the push
    /// stack read from its bottom up.
    closed spec fn view(&self) -> QueueView<T> {
        QueueView { front: self.pop_stack.values().reverse(), rear: self.push_stack.values() }
    }
}

impl<T: Clone, F: ExtremumFunction<T>> SlidingExtrema<T, F> {
    /// The rule that the queue was made with.
    pub closed spec fn combinator(&self) -> F {
        self.extrema_fun
    }

    /// Both stacks cache running extrema under the queue's rule, and the
    /// number of items fits in a `usize`.
    pub closed spec fn wf(&self) -> bool {
        &&& self.push_stack.tracks(self.extrema_fun)
        &&& self.pop_stack.tracks(self.extrema_fun)
        &&& self.push_stack.data@.len() + self.pop_stack.data@.len() <= usize::MAX
    }

    /// Create a new empty queue with the given comparator.
    /// Note that using this function, the comparator can be stateful.
    pub fn new(extremum: F) -> (r: SlidingExtrema<T, F>)
        ensures
            r.wf(),
            r@ == QueueView::<T>::empty(),
            r.combinator() == extremum,
    {
        let r = SlidingExtrema {
            push_stack: Minstack::new(),
            pop_stack: Minstack::new(),
            extrema_fun: extremum,
        };
        assert(r@.front =~= Seq::<T>::empty());
        assert(r@.rear =~= Seq::<T>::empty());
        r
    }

    /// Return the number of elements in the queue.
    pub fn len(&self) -> (r: usize)
        requires
            self.wf(),
        ensures
            r == self@.len(),
            r == self@.items().len(),
    {
        self.push_stack.len() + self.pop_stack.len()
    }

    /// Get the current extreme value of all the items in the queue.
    pub fn get_extrema(&self) -> (r: Option<T>)
        requires
            self.wf(),
        ensures
            r is None <==> self@.len() == 0,
            r is Some ==> self@.has_extremum(self.combinator(), r.unwrap()),
    {
        proof {
            let up = self.pop_stack.values();
            assert(up.reverse().reverse() =~= up);
            if self.push_stack.data@.len() > 0 {
                lemma_top_folds(self.push_stack.data@, self.extrema_fun);
            }
            if self.pop_stack.data@.len() > 0 {
                lemma_top_folds(self.pop_stack.data@, self.extrema_fun);
            }
        }
        if self.push_stack.len() == 0 && self.pop_stack.len() == 0 {
            return None;
        }
        if self.push_stack.len() > 0 && self.pop_stack.len() == 0 {
            return self.push_stack.get_extrema();
        }
        if self.push_stack.len() == 0 && self.pop_stack.len() > 0 {
            return self.pop_stack.get_extrema();
        }
        let front = self.pop_stack.get_extrema().unwrap();
        let rear = self.push_stack.get_extrema().unwrap();
        let both = self.extrema_fun.extremum(&front, &rear);
        proof {
            assert(reports(self.extrema_fun, self@.front.reverse(), front));
            assert(reports(self.extrema_fun, self@.rear, rear));
        }
        Some(both)
    }

    /// Copies of all items, from the next to leave to the last to have
    /// arrived.
    pub fn to_vec(&self) -> (r: Vec<T>)
        ensures
            r@.len() == self@.items().len(),
            forall|i: int| 0 <= i < r@.len() ==> cloned(self@.items()[i], #[trigger] r@[i]),
    {
        let ghost front = self@.front;
        let ghost rear = self@.rear;
        let mut items: Vec<T> = Vec::new();
        let mut i: usize = self.pop_stack.len();
        while i > 0
            invariant
                i <= self.pop_stack.data@.len(),
                front == self@.front,
                items@.len() == front.len() - i,
                forall|k: int| 0 <= k < items@.len() ==> cloned(front[k], #[trigger] items@[k]),
            decreases i,
        {
            i -= 1;
            let item = self.pop_stack.value(i).clone();
            items.push(item);
        }
        let mut j: usize = 0;
        while j < self.push_stack.len()
            invariant
                j <= self.push_stack.data@.len(),
                front == self@.front,
                rear == self@.rear,
                items@.len() == front.len() + j,
                forall|k: int|
                    0 <= k < items@.len() ==> cloned((front + rear)[k], #[trigger] items@[k]),
            decreases self.push_stack.data@.len() - j,
        {
            let item = self.push_stack.value(j).clone();
            items.push(item);
            j += 1;
        }
        items
    }

    /// Add a value to the queue.
    pub fn push(&mut self, value: T)
        requires
            old(self).wf(),
            old(self)@.len() < usize::MAX,
        ensures
            final(self).wf(),
            final(self).combinator() == old(self).combinator(),
            final(self)@ == old(self)@.pushed(value),
            final(self)@.items() == old(self)@.items().push(value),
    {
        self.push_stack.push(value, &self.extrema_fun);
        assert(self@.front =~= old(self)@.pushed(value).front);
        assert(self@.rear =~= old(self)@.pushed(value).rear);
        assert(self@.items() =~= old(self)@.items().push(value));
    }

    /// Remove a value from the queue.
    pub fn pop(&mut self) -> (r: Option<T>)
        requires
            old(self).wf(),
        ensures
            final(self).wf(),
            final(self).combinator() == old(self).combinator(),
            r == old(self)@.next(),
            final(self)@ == old(self)@.popped(),
            old(self)@.items().len() == 0 ==> r is None && final(self)@.items() == old(self)@.items(),
            old(self)@.items().len() > 0 ==> r == Some(old(self)@.items()[0]) && final(self)@.items()
                == old(self)@.items().drop_first(),
    {
        if self.pop_stack.len() == 0 {
            while self.push_stack.len() > 0
                invariant
                    self.wf(),
                    self.extrema_fun == old(self).extrema_fun,
                    self.push_stack.values() + self.pop_stack.values().reverse() =~= old(
                        self,
                    ).push_stack.values(),
                decreases self.push_stack.data@.len(),
            {
                proof {
                    lemma_below_tracks(self.push_stack.data@, self.extrema_fun);
                }
                let temp = self.push_stack.pop().unwrap();
                self.pop_stack.push(temp, &self.extrema_fun);
            }
        }
        proof {
            if self.pop_stack.data@.len() > 0 {
                lemma_below_tracks(self.pop_stack.data@, self.extrema_fun);
            }
        }
        let ghost before = self.pop_stack.values();
        let r = self.pop_stack.pop();
        proof {
            let was = old(self)@;
            if was.front.len() > 0 {
                assert(before == old(self).pop_stack.values());
            } else {
                assert(before.reverse() =~= was.rear);
                assert(before =~= was.rear.reverse());
            }
            assert(self@.front =~= was.popped().front);
            assert(self@.rear =~= was.popped().rear);
            assert(was.popped().items() =~= if was.items().len() > 0 {
                was.items().drop_first()
            } else {
                was.items()
            });
        }
        r
    }
}

impl<T: Clone, F: Fn(&T, &T) -> T> SlidingExtrema<T, CustomExtremum<T, F>> {
    /// Create a new empty queue with the given comparator-function.
    /// The function must be callable on any two items, and must be stateless.
    pub fn new_dynamic(extremum: F) -> (r: SlidingExtrema<T, CustomExtremum<T, F>>)
        requires
            forall|a: T, b: T| call_requires(extremum, (&a, &b)),
        ensures
            r.wf(),
            r@ == QueueView::<T>::empty(),
            r.combinator().function() == extremum,
    {
        SlidingExtrema::new(CustomExtremum::new(extremum))
    }
}

/// A sliding min queue, for any type T that is Ord.
pub fn sliding_min<T: Ord + Clone>() -> (r: SlidingExtrema<T, ExtremumOrdMin<T>>)
    ensures
        r.wf(),
        r@ == QueueView::<T>::empty(),
{
    SlidingExtrema::new(ExtremumOrdMin::default())
}

/// A sliding max queue, for any type T that is Ord.
pub fn sliding_max<T: Ord + Clone>() -> (r: SlidingExtrema<T, ExtremumOrdMax<T>>)
    ensures
        r.wf(),
        r@ == QueueView::<T>::empty(),
{
    SlidingExtrema::new(ExtremumOrdMax::default())
}

} // verus!
