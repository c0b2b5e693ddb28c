use crate::error::PatternError;
use crate::expression::quantifier::Quantifier;
use crate::expression::utils::ParserCombinator;
use crate::grammar::{parse_repeater, Parsed};
use crate::pattern::read_repeater;
use vstd::prelude::*;

verus! {

/// How often a pattern element is written to repeat.
#[derive(Clone, Copy, Debug, PartialEq, Eq, Structural)]
pub enum Repeater {
    /// Exactly this many cycles.
    Finite(usize),
    /// As long as cycles make progress.
    Infinite,
}

impl Repeater {
    /// The budget that an expression written with this repeater starts with.
    pub open spec fn budget(self) -> Quantifier {
        match self {
            Repeater::Finite(count) => Quantifier::Bounded(count),
            Repeater::Infinite => Quantifier::Unbounded,
        }
    }

    /// The budget that an expression written with this repeater starts with.
    pub fn quantifier(self) -> (budget: Quantifier)
        ensures
            budget == self.budget(),
    {
        match self {
            Repeater::Finite(count) => Quantifier::Bounded(count),
            Repeater::Infinite => Quantifier::Unbounded,
        }
    }
}

impl View for Repeater {
    type V = Repeater;

    open spec fn view(&self) -> Repeater {
        *self
    }
}

impl ParserCombinator for Repeater {
    /// A star or a count in braces at the start of the text, or nothing,
    /// which stands for one cycle.
    open spec fn grammar(text: Seq<u8>) -> Parsed<Repeater> {
        parse_repeater(text, 0)
    }

    fn parse(input: &str) -> (outcome: Result<(Repeater, usize), PatternError>) {
        read_repeater(input.as_bytes(), 0)
    }
}

} // verus!
