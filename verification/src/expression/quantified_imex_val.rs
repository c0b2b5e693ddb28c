use crate::error::{IMExError, PatternError};
use crate::expression::imex_iterator::IMExIterator;
use crate::expression::imex_val::{nodes_view, IMExVal};
use crate::expression::model::{
    blueprint, exhausted, fresh, node_depth, node_step, val_depth, NodeModel, Step,
};
use crate::expression::quantifier::Quantifier;
use crate::expression::utils::ParserCombinator;
use crate::grammar::{map_parsed, parse_item, Parsed, PatternModel};
use crate::pattern::{Pattern, PatternData};
use crate::streams::lawful;
use vstd::prelude::*;
use vstd::std_specs::iter::IteratorSpec;

verus! {

/// An expression together with its repetition budget and the state of the
/// cycle that is running.
#[derive(Debug, PartialEq)]
pub struct QuantifiedIMExVal {
    pub val: IMExVal,
    pub quantifier: Quantifier,
    current_instance: Option<IMExVal>,
    produced_this_cycle: bool,
}

impl View for QuantifiedIMExVal {
    type V = NodeModel;

    closed spec fn view(&self) -> NodeModel
        decreases self,
    {
        NodeModel {
            val: self.val@,
            quantifier: self.quantifier,
            current: match self.current_instance {
                Some(instance) => Some(instance@),
                None => None,
            },
            produced: self.produced_this_cycle,
        }
    }
}

impl QuantifiedIMExVal {
    /// A quantified expression on which no cycle has run yet.
    pub fn from(val: IMExVal, quantifier: Quantifier) -> (node: QuantifiedIMExVal)
        ensures
            node@ == fresh(val@, quantifier),
    {
        QuantifiedIMExVal { val, quantifier, current_instance: None, produced_this_cycle: true }
    }

    /// The quantified expression that the pattern element `pattern` stands
    /// for.
    pub fn from_pattern(pattern: &Pattern) -> (node: QuantifiedIMExVal)
        ensures
            node@ == blueprint(pattern@),
        decreases pattern,
    {
        let val = match &pattern.data {
            PatternData::Single(index) => IMExVal::stream_ref(*index),
            PatternData::Group(elements) => {
                let children = nodes_from_patterns(elements);
                let ghost read = nodes_view(children@);
                let group = IMExVal::group(children);
                proof {
                    assert(group@->children =~= read);
                    assert(read =~= blueprint(pattern@).val->children);
                }
                group
            },
        };
        QuantifiedIMExVal::from(val, pattern.repeater.quantifier())
    }
}

/// The quantified expressions that `patterns` stand for, in order.
fn nodes_from_patterns(patterns: &Vec<Pattern>) -> (nodes: Vec<QuantifiedIMExVal>)
    ensures
        nodes.len() == patterns.len(),
        forall|i: int| 0 <= i < nodes.len() ==> (#[trigger] nodes[i])@ == blueprint(patterns[i]@),
    decreases patterns,
{
    let mut nodes: Vec<QuantifiedIMExVal> = Vec::new();
    let mut i: usize = 0;
    while i < patterns.len()
        invariant
            i <= patterns.len(),
            nodes.len() == i,
            forall|j: int| 0 <= j < i ==> (#[trigger] nodes[j])@ == blueprint(patterns[j]@),
        decreases patterns.len() - i,
    {
        nodes.push(QuantifiedIMExVal::from_pattern(&patterns[i]));
        i += 1;
    }
    nodes
}

impl Clone for QuantifiedIMExVal {
    fn clone(&self) -> (copy: QuantifiedIMExVal)
        ensures
            copy@ == self@,
        decreases self,
    {
        QuantifiedIMExVal {
            val: self.val.clone(),
            quantifier: self.quantifier,
            current_instance: match &self.current_instance {
                Some(instance) => Some(instance.clone()),
                None => None,
            },
            produced_this_cycle: self.produced_this_cycle,
        }
    }
}

impl QuantifiedIMExVal {
    /// How many more turns of the loop in `iterate` this state allows.
    spec fn turns_left(&self) -> nat {
        match (self.current_instance, self.produced_this_cycle) {
            (Some(_), true) => 4,
            (None, true) => 3,
            (Some(_), false) => 2,
            (None, false) => 1,
        }
    }
}

impl<I> IMExIterator<I> for QuantifiedIMExVal {
    open spec fn ready(&self) -> bool {
        true
    }

    open spec fn step(state: NodeModel, streams: Seq<Seq<I>>) -> Step<NodeModel, I> {
        node_step(state, streams)
    }

    /// Whatever the iterators do, a call that reports exhaustion leaves the
    /// node exhausted, and a call on an exhausted node reports exhaustion
    /// and does not touch the iterators.
    fn iterate<T>(&mut self, iters: &mut Vec<T>) -> (outcome: Result<Option<I>, IMExError>) where
        T: Iterator<Item = I>,

        ensures
            outcome == Ok::<Option<I>, IMExError>(None) ==> exhausted(final(self)@),
            exhausted(old(self)@) ==> outcome == Ok::<Option<I>, IMExError>(None) && final(iters)@
                == old(iters)@,
        decreases node_depth(old(self)@), 0nat,
    {
        loop
            invariant
                iters.len() == old(iters).len(),
                exhausted(old(self)@) ==> exhausted(self@) && iters@ == old(iters)@,
                lawful(old(iters)@) ==> lawful(iters@),
                lawful(old(iters)@) ==> node_step(
                    old(self)@,
                    old(iters)@.map_values(|t: T| t.remaining()),
                ) == node_step(self@, iters@.map_values(|t: T| t.remaining())),
                match self.current_instance {
                    Some(instance) => val_depth(instance@) < node_depth(old(self)@),
                    None => true,
                },
                val_depth(self.val@) < node_depth(old(self)@),
            decreases self.turns_left(),
        {
            match &mut self.current_instance {
                Some(instance) => match instance.iterate(iters) {
                    Ok(Some(item)) => {
                        self.produced_this_cycle = true;
                        return Ok(Some(item));
                    },
                    Ok(None) => {
                        self.current_instance = None;
                    },
                    Err(error) => {
                        return Err(error);
                    },
                },
                None => {
                    let granted = self.quantifier.request_cycle();
                    if granted && self.produced_this_cycle {
                        self.current_instance = Some(self.val.clone());
                        self.produced_this_cycle = false;
                    } else {
                        return Ok(None);
                    }
                },
            }
        }
    }
}

impl ParserCombinator for QuantifiedIMExVal {
    /// The quantified expression that one element at the start of the text
    /// stands for.
    open spec fn grammar(text: Seq<u8>) -> Parsed<NodeModel> {
        map_parsed(parse_item(text, 0), |pattern: PatternModel| blueprint(pattern))
    }

    fn parse(input: &str) -> (outcome: Result<(QuantifiedIMExVal, usize), PatternError>) {
        match Pattern::element_at(input.as_bytes(), 0) {
            Ok((pattern, after)) => Ok((QuantifiedIMExVal::from_pattern(&pattern), after)),
            Err(fault) => Err(fault),
        }
    }
}

} // verus!
