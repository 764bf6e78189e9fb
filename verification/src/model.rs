//! The mathematical model of the queue: what it holds, how pushing and popping
//! change that, and which values count as its extremum.

use crate::combinator::ExtremumFunction;
use vstd::prelude::*;

verus! {

/// Whether `r` may result from combining the items of `s` from first to last
/// under the rule `f`, starting from a copy of the first item.
///
/// No value results from an empty sequence.
pub open spec fn folds_to<T: Clone, F: ExtremumFunction<T>>(f: F, s: Seq<T>, r: T) -> bool
    decreases s.len(),
{
    if s.len() == 0 {
        false
    } else if s.len() == 1 {
        cloned(s[0], r)
    } else {
        exists|p: T| folds_to(f, s.drop_last(), p) && #[trigger] f.yields(p, s.last(), r)
    }
}

/// Whether `r` may be reported as the extremum of a stack that holds the items
/// of `s`, bottom first: `r` is a copy of a value that `s` folds to.
pub open spec fn reports<T: Clone, F: ExtremumFunction<T>>(f: F, s: Seq<T>, r: T) -> bool {
    exists|c: T| #[trigger] folds_to(f, s, c) && cloned(c, r)
}

/// The contents of a queue, as the two runs of items that its two stacks hold.
///
/// Both runs are written oldest item first. The items of `front` are older
/// than those of `rear`, so the queue as a whole is `front` followed by `rear`.
pub struct QueueView<T> {
    /// The items on the stack that pops are served from, next to leave first.
    pub front: Seq<T>,
    /// The items on the stack that pushes go to, in the order they were pushed.
    pub rear: Seq<T>,
}

impl<T> QueueView<T> {
    /// The queue that holds nothing.
    pub open spec fn empty() -> Self {
        QueueView { front: Seq::empty(), rear: Seq::empty() }
    }

    /// All items, from the next to leave to the last to have arrived.
    pub open spec fn items(self) -> Seq<T> {
        self.front + self.rear
    }

    /// The number of items.
    pub open spec fn len(self) -> nat {
        self.front.len() + self.rear.len()
    }

    /// The queue after `value` has been pushed: it joins the rear.
    pub open spec fn pushed(self, value: T) -> Self {
        QueueView { front: self.front, rear: self.rear.push(value) }
    }

    /// The item that the next pop returns, if there is one.
    pub open spec fn next(self) -> Option<T> {
        if self.front.len() > 0 {
            Some(self.front[0])
        } else if self.rear.len() > 0 {
            Some(self.rear[0])
        } else {
            None
        }
    }

    /// The queue after one pop. A pop from an empty front first moves the
    /// whole rear over to the front; a pop from an empty queue changes nothing.
    pub open spec fn popped(self) -> Self {
        if self.front.len() > 0 {
            QueueView { front: self.front.drop_first(), rear: self.rear }
        } else if self.rear.len() > 0 {
            QueueView { front: self.rear.drop_first(), rear: Seq::empty() }
        } else {
            self
        }
    }
}

impl<T: Clone> QueueView<T> {
    /// Whether `r` may be reported as the extremum of the whole queue under
    /// the rule `f`.
    ///
    /// Each stack combines its own items in the order it received them: the
    /// rear oldest first, the front newest first. Where only one stack holds
    /// items, `r` is what that stack reports; where both do, `r` is what the
    /// front reports combined with what the rear reports. An empty queue has
    /// no extremum.
    pub open spec fn has_extremum<F: ExtremumFunction<T>>(self, f: F, r: T) -> bool {
        if self.rear.len() == 0 {
            reports(f, self.front.reverse(), r)
        } else if self.front.len() == 0 {
            reports(f, self.rear, r)
        } else {
            exists|cf: T, cr: T|
                reports(f, self.front.reverse(), cf) && reports(f, self.rear, cr)
                    && #[trigger] f.yields(cf, cr, r)
        }
    }
}


/// The items of the non-empty sequence `s` combined by `op` from first to last.
pub open spec fn fold<T>(op: spec_fn(T, T) -> T, s: Seq<T>) -> T
    recommends
        s.len() > 0,
    decreases s.len(),
{
    if s.len() <= 1 {
        s[0]
    } else {
        op(fold(op, s.drop_last()), s.last())
    }
}

/// Whether grouping does not matter to `op`.
pub open spec fn associative<T>(op: spec_fn(T, T) -> T) -> bool {
    forall|a: T, b: T, c: T| #[trigger] op(op(a, b), c) == op(a, op(b, c))
}

/// Whether the order of its two arguments does not matter to `op`.
pub open spec fn commutative<T>(op: spec_fn(T, T) -> T) -> bool {
    forall|a: T, b: T| #[trigger] op(a, b) == op(b, a)
}

/// Whether the rule `f` is deterministic and computes `op`: whatever it may
/// return for two items is `op` of them.
pub open spec fn computes<T, F: ExtremumFunction<T>>(f: F, op: spec_fn(T, T) -> T) -> bool {
    forall|a: T, b: T, r: T| #[trigger] f.yields(a, b, r) ==> r == op(a, b)
}

/// Whether every copy that `clone` makes of a `T` equals what it was made of.
pub open spec fn clone_is_exact<T: Clone>() -> bool {
    forall|a: T, b: T| #[trigger] cloned(a, b) ==> a == b
}


/// One change to a queue.
pub enum Op<T> {
    /// Push this item.
    Push(T),
    /// Pop an item, if there is one.
    Pop,
}

/// The operations that push the items of `values`, one after the other.
pub open spec fn pushes_of<T>(values: Seq<T>) -> Seq<Op<T>> {
    values.map_values(|v: T| Op::Push(v))
}

/// `n` pops in a row.
pub open spec fn pops<T>(n: nat) -> Seq<Op<T>> {
    Seq::new(n, |i: int| Op::Pop)
}

/// How many of `ops` are pushes.
pub open spec fn count_pushes<T>(ops: Seq<Op<T>>) -> nat
    decreases ops.len(),
{
    if ops.len() == 0 {
        0
    } else {
        count_pushes(ops.drop_last()) + if ops.last() is Push {
            1nat
        } else {
            0nat
        }
    }
}

impl<T> QueueView<T> {
    /// The queue after one operation.
    pub open spec fn apply(self, op: Op<T>) -> Self {
        match op {
            Op::Push(value) => self.pushed(value),
            Op::Pop => self.popped(),
        }
    }

    /// The queue after the operations of `ops`, first to last.
    pub open spec fn run(self, ops: Seq<Op<T>>) -> Self
        decreases ops.len(),
    {
        if ops.len() == 0 {
            self
        } else {
            self.run(ops.drop_last()).apply(ops.last())
        }
    }

    /// How many of the pops among `ops` return an item, when `ops` is run on
    /// this queue.
    pub open spec fn count_served(self, ops: Seq<Op<T>>) -> nat
        decreases ops.len(),
    {
        if ops.len() == 0 {
            0
        } else {
            self.count_served(ops.drop_last()) + if ops.last() is Pop && self.run(
                ops.drop_last(),
            ).next() is Some {
                1nat
            } else {
                0nat
            }
        }
    }

    /// How many items change stacks when `ops` is run on this queue: a pop
    /// that finds the front empty moves every item of the rear, and nothing
    /// else moves any.
    pub open spec fn count_moves(self, ops: Seq<Op<T>>) -> nat
        decreases ops.len(),
    {
        if ops.len() == 0 {
            0
        } else {
            let before = self.run(ops.drop_last());
            self.count_moves(ops.drop_last()) + if ops.last() is Pop && before.front.len() == 0 {
                before.rear.len()
            } else {
                0nat
            }
        }
    }
}

/// The item that a plain first-in, first-out sequence hands out next.
pub open spec fn fifo_next<T>(s: Seq<T>) -> Option<T> {
    if s.len() > 0 {
        Some(s[0])
    } else {
        None
    }
}

/// A plain first-in, first-out sequence after one operation: a push appends,
/// a pop removes the first item.
pub open spec fn fifo_apply<T>(s: Seq<T>, op: Op<T>) -> Seq<T> {
    match op {
        Op::Push(value) => s.push(value),
        Op::Pop => if s.len() > 0 {
            s.drop_first()
        } else {
            s
        },
    }
}

/// A plain first-in, first-out sequence after the operations of `ops`.
pub open spec fn fifo_run<T>(s: Seq<T>, ops: Seq<Op<T>>) -> Seq<T>
    decreases ops.len(),
{
    if ops.len() == 0 {
        s
    } else {
        fifo_apply(fifo_run(s, ops.drop_last()), ops.last())
    }
}

} // verus!
