//! A first-in, first-out queue that also answers, in amortised constant time,
//! for the extremum (the least, the greatest, or any other associative and
//! commutative aggregate) of the items it currently holds.
//!
//! The queue is built from two stacks. Each stack keeps, beside every item,
//! the extremum of that item and everything below it, so the extremum of a
//! whole stack is read off its top. New items go onto the rear stack; items
//! leave from the front stack, which is refilled from the rear stack, in
//! reverse, whenever it runs empty.

pub mod combinator;
pub mod laws;
pub mod model;
pub mod ordered;
pub mod queue;
mod stack;

pub use combinator::{CustomExtremum, ExtremumFunction, ExtremumOrdMax, ExtremumOrdMin};
pub use model::QueueView;
pub use queue::{sliding_max, sliding_min, SlidingExtrema};
