use crate::error::IMExError;
use crate::expression::model::Step;
use crate::streams::lawful;
use vstd::prelude::*;
use vstd::std_specs::iter::IteratorSpec;

verus! {

/// What every node of an expression tree can do: given the streams, produce
/// the next merged item, or report that it is exhausted.
pub trait IMExIterator<I>: View + Sized {
    /// Whether `iterate` may be called on this value.
    spec fn ready(&self) -> bool;

    /// What one call of `iterate` does on a value whose view is `state`,
    /// against streams whose remaining items are `streams`.
    spec fn step(state: Self::V, streams: Seq<Seq<I>>) -> Step<Self::V, I>;

    /// Produces the next item, `Ok(None)` when exhausted, or the error of a
    /// reference to a stream that does not exist. The view of each iterator
    /// is the sequence of items that it has left.
    fn iterate<T>(&mut self, iters: &mut Vec<T>) -> (outcome: Result<Option<I>, IMExError>) where
        T: Iterator<Item = I>,

        requires
            old(self).ready(),
        ensures
            final(iters).len() == old(iters).len(),
            lawful(old(iters)@) ==> lawful(final(iters)@),
            lawful(old(iters)@) ==> Self::step(
                old(self)@,
                old(iters)@.map_values(|t: T| t.remaining()),
            ) == (Step {
                outcome,
                next: final(self)@,
                streams: final(iters)@.map_values(|t: T| t.remaining()),
            }),
    ;
}

} // verus!
