use crate::error::{IMExError, PatternError};
use crate::expression::imex_iterator::IMExIterator;
use crate::expression::model::Step;
use crate::grammar::{reads, Parsed};
use vstd::prelude::*;
use vstd::string::StringSliceAdditionalSpecFns;

verus! {

/// The mathematical value of an `IMExIterCounter`: the wrapped node and the
/// number of items it has handed out through the counter.
pub struct CounterModel<M> {
    pub inner: M,
    pub count: nat,
}

/// An `IMExIterator` that keeps track of how many times it has iterated with
/// some result.
#[derive(Debug, PartialEq)]
pub struct IMExIterCounter<X> {
    imex_iter: X,
    counter: u32,
}

impl<X> IMExIterCounter<X> {
    /// The wrapped node.
    pub closed spec fn inner(&self) -> X {
        self.imex_iter
    }

    /// The number of items counted so far.
    pub closed spec fn counted(&self) -> u32 {
        self.counter
    }

    /// Construct a new `IMExIterCounter` from any `IMExIterator`.
    pub fn new(imex_iter: X) -> (counter: IMExIterCounter<X>)
        ensures
            counter.inner() == imex_iter,
            counter.count() == 0,
    {
        IMExIterCounter { imex_iter, counter: 0 }
    }

    /// Get the current number of times that this `IMExIterCounter` was
    /// iterated with some result.
    #[verifier::when_used_as_spec(counted)]
    pub fn count(&self) -> (count: u32)
        ensures
            count == self.counted(),
    {
        self.counter
    }
}

impl<X: Clone> Clone for IMExIterCounter<X> {
    fn clone(&self) -> (copy: IMExIterCounter<X>)
        ensures
            copy.count() == self.count(),
            cloned(self.inner(), copy.inner()),
    {
        IMExIterCounter { imex_iter: self.imex_iter.clone(), counter: self.counter }
    }
}

impl<X: View> View for IMExIterCounter<X> {
    type V = CounterModel<X::V>;

    open spec fn view(&self) -> CounterModel<X::V> {
        CounterModel { inner: self.inner()@, count: self.count() as nat }
    }
}

impl<I, X: IMExIterator<I>> IMExIterator<I> for IMExIterCounter<X> {
    /// The wrapped node is ready and the counter has room for one more item.
    open spec fn ready(&self) -> bool {
        self.inner().ready() && self.count() < u32::MAX
    }

    open spec fn step(state: CounterModel<X::V>, streams: Seq<Seq<I>>) -> Step<
        CounterModel<X::V>,
        I,
    > {
        let inner = X::step(state.inner, streams);
        Step {
            outcome: inner.outcome,
            next: CounterModel {
                inner: inner.next,
                count: if inner.outcome matches Ok(Some(_)) {
                    state.count + 1
                } else {
                    state.count
                },
            },
            streams: inner.streams,
        }
    }

    /// Delegates to the wrapped node, and counts the call if it yields an
    /// item.
    fn iterate<T>(&mut self, iters: &mut Vec<T>) -> (outcome: Result<Option<I>, IMExError>) where
        T: Iterator<Item = I>,

        ensures
            final(self).count() == old(self).count() + if outcome matches Ok(Some(_)) {
                1int
            } else {
                0int
            },
    {
        match self.imex_iter.iterate(iters) {
            Ok(Some(res)) => {
                self.counter += 1;
                Ok(Some(res))
            },
            other => other,
        }
    }
}

/// Trait for implementing parser-combinator-style parse functions
pub trait ParserCombinator: View + Sized {
    /// What the grammar reads of this kind at the start of `text`: the value
    /// and the number of bytes that it takes up, or the fault.
    spec fn grammar(text: Seq<u8>) -> Parsed<Self::V>;

    /// Defines how an object is parsed from a string.
    ///
    /// Returns the `Self` that was parsed and the number of bytes of the
    /// input that it took up: the remainder of the input, which wasn't
    /// parsed, starts there.
    fn parse(input: &str) -> (outcome: Result<(Self, usize), PatternError>)
        ensures
            reads(outcome, Self::grammar(input.spec_bytes())),
    ;
}

} // verus!
