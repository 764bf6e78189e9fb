//! The rule by which two items are combined into their extremum.

use core::cmp::Ordering;
use core::marker::PhantomData;
use vstd::prelude::*;
use vstd::std_specs::cmp::OrdSpec;

verus! {

/// A rule that combines two items into the more extreme of the two.
///
/// A queue gives meaningful extrema only for a rule that is deterministic,
/// associative and commutative. Nothing here enforces that: `yields` merely
/// records what a call of `extremum` may return, and the queue's contracts are
/// stated in terms of it.
pub trait ExtremumFunction<T> {
    /// Whether `r` is a value that `extremum` may return for `a` and `b`.
    ///
    /// A rule that does not say otherwise may return any value.
    open spec fn yields(&self, a: T, b: T, r: T) -> bool {
        true
    }

    /// Returns the most extreme of the two values.
    fn extremum(&self, a: &T, b: &T) -> (r: T)
        ensures
            self.yields(*a, *b, r),
    ;
}

/// The lesser of `a` and `b` in the order of `T`; `a` where they compare equal.
pub open spec fn lesser<T: Ord>(a: T, b: T) -> T {
    match a.cmp_spec(&b) {
        Ordering::Greater => b,
        _ => a,
    }
}

/// The greater of `a` and `b` in the order of `T`; `b` where they compare equal.
pub open spec fn greater<T: Ord>(a: T, b: T) -> T {
    match a.cmp_spec(&b) {
        Ordering::Greater => a,
        _ => b,
    }
}

/// The rule that keeps the lesser of two items of an ordered type.
pub struct ExtremumOrdMin<T: Ord + Clone> {
    t: PhantomData<T>,
}

impl<T: Ord + Clone> Default for ExtremumOrdMin<T> {
    fn default() -> Self {
        ExtremumOrdMin { t: PhantomData }
    }
}

/// The rule that keeps the greater of two items of an ordered type.
pub struct ExtremumOrdMax<T: Ord + Clone> {
    t: PhantomData<T>,
}

impl<T: Ord + Clone> Default for ExtremumOrdMax<T> {
    fn default() -> Self {
        ExtremumOrdMax { t: PhantomData }
    }
}

impl<T: Ord + Clone> ExtremumFunction<T> for ExtremumOrdMin<T> {
    /// The result is a copy of one of the two items, and of the lesser one
    /// wherever comparing two `T` agrees with the order that `T` specifies.
    open spec fn yields(&self, a: T, b: T, r: T) -> bool {
        &&& cloned(a, r) || cloned(b, r)
        &&& T::obeys_cmp_spec() ==> cloned(lesser(a, b), r)
    }

    fn extremum(&self, a: &T, b: &T) -> (r: T) {
        match a.cmp(b) {
            Ordering::Less => a.clone(),
            Ordering::Equal => a.clone(),
            Ordering::Greater => b.clone(),
        }
    }
}

impl<T: Ord + Clone> ExtremumFunction<T> for ExtremumOrdMax<T> {
    /// The result is a copy of one of the two items, and of the greater one
    /// wherever comparing two `T` agrees with the order that `T` specifies.
    open spec fn yields(&self, a: T, b: T, r: T) -> bool {
        &&& cloned(a, r) || cloned(b, r)
        &&& T::obeys_cmp_spec() ==> cloned(greater(a, b), r)
    }

    fn extremum(&self, a: &T, b: &T) -> (r: T) {
        match a.cmp(b) {
            Ordering::Less => b.clone(),
            Ordering::Equal => b.clone(),
            Ordering::Greater => a.clone(),
        }
    }
}

/// A rule given as a function or closure.
///
/// Every value of this type holds a function that may be called on any two
/// items.
#[verifier::reject_recursive_types(T)]
pub struct CustomExtremum<T, F: Fn(&T, &T) -> T> {
    extremum: F,
    t: PhantomData<T>,
}

impl<T, F: Fn(&T, &T) -> T> CustomExtremum<T, F> {
    /// The function that this rule delegates to.
    pub closed spec fn function(&self) -> F {
        self.extremum
    }

    #[verifier::type_invariant]
    spec fn callable(&self) -> bool {
        forall|a: T, b: T| call_requires(self.extremum, (&a, &b))
    }

    /// Wraps a function that may be called on any two items.
    pub(crate) fn new(extremum: F) -> (r: CustomExtremum<T, F>)
        requires
            forall|a: T, b: T| call_requires(extremum, (&a, &b)),
        ensures
            r.function() == extremum,
    {
        CustomExtremum { extremum, t: PhantomData }
    }
}

impl<T, F: Fn(&T, &T) -> T> ExtremumFunction<T> for CustomExtremum<T, F> {
    /// The result is one that the function's own contract allows.
    open spec fn yields(&self, a: T, b: T, r: T) -> bool {
        call_ensures(self.function(), (&a, &b), r)
    }

    fn extremum(&self, a: &T, b: &T) -> (r: T) {
        proof {
            use_type_invariant(self);
        }
        (self.extremum)(a, b)
    }
}

/// What a rule made from a function yields is what that function's own
/// contract allows it to return.
pub proof fn lemma_custom_yields<T, F: Fn(&T, &T) -> T>(c: CustomExtremum<T, F>)
    ensures
        forall|a: T, b: T, r: T| #[trigger]
            c.yields(a, b, r) <==> call_ensures(c.function(), (&a, &b), r),
{
}

} // verus!
