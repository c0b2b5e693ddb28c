use crate::error::{IMExError, PatternError};
use crate::expression::imex_iterator::IMExIterator;
use crate::expression::imex_val::IMExVal;
use crate::expression::model::{blueprint, exhausted, fresh, node_step, NodeModel, Step};
use crate::expression::quantified_imex_val::QuantifiedIMExVal;
use crate::expression::quantifier::Quantifier;
use crate::expression::utils::ParserCombinator;
use crate::grammar::{map_parsed, parse_pattern, parse_sequence, Parsed, PatternModel};
use crate::pattern::Pattern;
use vstd::prelude::*;
use vstd::string::StringSliceAdditionalSpecFns;

verus! {

/// A whole merge expression: the root of an expression tree, ready to be
/// iterated against a set of streams.
#[derive(Debug, PartialEq)]
pub struct IMEx {
    root: QuantifiedIMExVal,
}

impl View for IMEx {
    type V = NodeModel;

    closed spec fn view(&self) -> NodeModel {
        self.root@
    }
}

impl IMEx {
    /// The merge expression that runs `val` through one cycle.
    pub fn new(val: IMExVal) -> (imex: IMEx)
        ensures
            imex@ == fresh(val@, Quantifier::Bounded(1)),
    {
        IMEx { root: QuantifiedIMExVal::from(val, Quantifier::Bounded(1)) }
    }

    /// The merge expression that `pattern` stands for.
    pub fn from_pattern(pattern: &Pattern) -> (imex: IMEx)
        ensures
            imex@ == blueprint(pattern@),
    {
        IMEx { root: QuantifiedIMExVal::from_pattern(pattern) }
    }

    /// Reads a merge expression from the text of a pattern.
    pub fn try_from(pattern: &str) -> (outcome: Result<IMEx, PatternError>)
        ensures
            match parse_pattern(pattern.spec_bytes()) {
                Ok(parsed) => outcome matches Ok(imex) && imex@ == blueprint(parsed),
                Err(fault) => outcome == Err::<IMEx, PatternError>(fault),
            },
    {
        match Pattern::from(pattern) {
            Ok(parsed) => Ok(IMEx::from_pattern(&parsed)),
            Err(fault) => Err(fault),
        }
    }
}

impl Clone for IMEx {
    fn clone(&self) -> (copy: IMEx)
        ensures
            copy@ == self@,
    {
        IMEx { root: self.root.clone() }
    }
}

impl<I> IMExIterator<I> for IMEx {
    open spec fn ready(&self) -> bool {
        true
    }

    open spec fn step(state: NodeModel, streams: Seq<Seq<I>>) -> Step<NodeModel, I> {
        node_step(state, streams)
    }

    /// Whatever the iterators do, a call that reports exhaustion leaves the
    /// expression exhausted, and a call on an exhausted expression reports
    /// exhaustion and does not touch the iterators.
    fn iterate<T>(&mut self, iters: &mut Vec<T>) -> (outcome: Result<Option<I>, IMExError>) where
        T: Iterator<Item = I>,

        ensures
            outcome == Ok::<Option<I>, IMExError>(None) ==> exhausted(final(self)@),
            exhausted(old(self)@) ==> outcome == Ok::<Option<I>, IMExError>(None) && final(iters)@
                == old(iters)@,
    {
        self.root.iterate(iters)
    }
}

impl ParserCombinator for IMEx {
    /// The merge expression that the elements at the start of the text
    /// stand for, up to the end of the text or to a closing parenthesis.
    open spec fn grammar(text: Seq<u8>) -> Parsed<NodeModel> {
        map_parsed(parse_sequence(text, 0), |pattern: PatternModel| blueprint(pattern))
    }

    fn parse(input: &str) -> (outcome: Result<(IMEx, usize), PatternError>) {
        match Pattern::sequence_at(input.as_bytes(), 0) {
            Ok((pattern, stop)) => Ok((IMEx::from_pattern(&pattern), stop)),
            Err(fault) => Err(fault),
        }
    }
}

} // verus!
