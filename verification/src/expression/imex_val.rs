use crate::error::IMExError;
use crate::expression::imex_iterator::IMExIterator;
use crate::expression::model::{
    group_step, lemma_group_step_frame, lemma_nodes_depth_bounds, nodes_depth, val_depth,
    val_step, NodeModel, Step, ValModel,
};
use crate::expression::quantified_imex_val::QuantifiedIMExVal;
use crate::streams::lawful;
use vstd::prelude::*;
use vstd::std_specs::iter::IteratorSpec;

verus! {

/// An expression: a reference to one stream, or a group of quantified
/// expressions evaluated one after the other.
///
/// A value is both blueprint and running instance. A stream reference is
/// used up by one pull; a group keeps a cursor to the child it is at.
#[derive(Debug, PartialEq)]
pub enum IMExVal {
    StreamRef { index: usize, spent: bool },
    Group { children: Vec<QuantifiedIMExVal>, cursor: usize },
}

impl View for IMExVal {
    type V = ValModel;

    open spec fn view(&self) -> ValModel
        decreases self,
    {
        match self {
            IMExVal::StreamRef { index, spent } => ValModel::StreamRef {
                index: *index,
                spent: *spent,
            },
            IMExVal::Group { children, cursor } => ValModel::Group {
                children: Seq::new(
                    children.len() as nat,
                    |i: int|
                        if 0 <= i < children.len() {
                            children[i]@
                        } else {
                            arbitrary()
                        },
                ),
                cursor: *cursor as nat,
            },
        }
    }
}

/// The views of `nodes`, in order.
pub open spec fn nodes_view(nodes: Seq<QuantifiedIMExVal>) -> Seq<NodeModel> {
    nodes.map_values(|node: QuantifiedIMExVal| node@)
}

impl IMExVal {
    /// A reference to the stream at `index`, not yet pulled from.
    pub fn stream_ref(index: usize) -> (val: IMExVal)
        ensures
            val == (IMExVal::StreamRef { index, spent: false }),
    {
        IMExVal::StreamRef { index, spent: false }
    }

    /// A group of `children` with its cursor at the first of them.
    pub fn group(children: Vec<QuantifiedIMExVal>) -> (val: IMExVal)
        ensures
            val == (IMExVal::Group { children, cursor: 0 }),
    {
        IMExVal::Group { children, cursor: 0 }
    }
}

/// Copies `nodes` one by one.
fn clone_nodes(nodes: &Vec<QuantifiedIMExVal>) -> (copies: Vec<QuantifiedIMExVal>)
    ensures
        nodes_view(copies@) == nodes_view(nodes@),
    decreases nodes,
{
    let mut copies: Vec<QuantifiedIMExVal> = Vec::new();
    let mut i: usize = 0;
    while i < nodes.len()
        invariant
            i <= nodes.len(),
            copies.len() == i,
            forall|j: int| 0 <= j < i ==> copies[j]@ == nodes[j]@,
        decreases nodes.len() - i,
    {
        copies.push(nodes[i].clone());
        i += 1;
    }
    assert(nodes_view(copies@) =~= nodes_view(nodes@));
    copies
}

impl Clone for IMExVal {
    fn clone(&self) -> (copy: IMExVal)
        ensures
            copy@ == self@,
        decreases self,
    {
        match self {
            IMExVal::StreamRef { index, spent } => IMExVal::StreamRef {
                index: *index,
                spent: *spent,
            },
            IMExVal::Group { children, cursor } => {
                let copy = IMExVal::Group { children: clone_nodes(children), cursor: *cursor };
                proof {
                    assert(nodes_view(children@) =~= self@->children);
                    assert(nodes_view(copy->children@) =~= copy@->children);
                }
                copy
            },
        }
    }
}

/// One call on a group whose children and cursor are given apart: the
/// children from the cursor on are tried in order until one yields an item
/// or fails; the cursor stays at that child.
fn iterate_group<T, I>(
    children: &mut Vec<QuantifiedIMExVal>,
    cursor: &mut usize,
    iters: &mut Vec<T>,
) -> (outcome: Result<Option<I>, IMExError>) where T: Iterator<Item = I>
    ensures
        final(children).len() == old(children).len(),
        final(iters).len() == old(iters).len(),
        lawful(old(iters)@) ==> lawful(final(iters)@),
        lawful(old(iters)@) ==> group_step(
            nodes_view(old(children)@),
            *old(cursor) as nat,
            old(iters)@.map_values(|t: T| t.remaining()),
        ) == (Step {
            outcome,
            next: (nodes_view(final(children)@), *final(cursor) as nat),
            streams: final(iters)@.map_values(|t: T| t.remaining()),
        }),
    decreases nodes_depth(nodes_view(old(children)@), old(children)@.len()), 1nat,
{
    while *cursor < children.len()
        invariant
            children.len() == old(children).len(),
            iters.len() == old(iters).len(),
            forall|j: int|
                *cursor <= j < children.len() ==> (#[trigger] children[j])@ == old(children)[j]@,
            lawful(old(iters)@) ==> lawful(iters@),
            lawful(old(iters)@) ==> group_step(
                nodes_view(old(children)@),
                *old(cursor) as nat,
                old(iters)@.map_values(|t: T| t.remaining()),
            ) == group_step(
                nodes_view(children@),
                *cursor as nat,
                iters@.map_values(|t: T| t.remaining()),
            ),
        decreases children.len() - *cursor,
    {
        let ghost before = nodes_view(children@);
        let ghost at = *cursor as nat;
        proof {
            lemma_nodes_depth_bounds(
                nodes_view(old(children)@),
                old(children)@.len(),
                at as int,
            );
        }
        let outcome = children[*cursor].iterate(iters);
        proof {
            assert(nodes_view(children@) =~= before.update(at as int, children[at as int]@));
            if lawful(old(iters)@) {
                lemma_group_step_frame(
                    before,
                    at + 1,
                    iters@.map_values(|t: T| t.remaining()),
                    at as int,
                    children[at as int]@,
                );
            }
        }
        match outcome {
            Ok(None) => {
                *cursor += 1;
            },
            other => {
                return other;
            },
        }
    }
    Ok(None)
}

impl<I> IMExIterator<I> for IMExVal {
    open spec fn ready(&self) -> bool {
        true
    }

    open spec fn step(state: ValModel, streams: Seq<Seq<I>>) -> Step<ValModel, I> {
        val_step(state, streams)
    }

    /// Whatever the iterators do, a stream reference that has not been
    /// pulled from and names no stream fails, and nothing changes.
    fn iterate<T>(&mut self, iters: &mut Vec<T>) -> (outcome: Result<Option<I>, IMExError>) where
        T: Iterator<Item = I>,

        ensures
            old(self)@ matches ValModel::StreamRef { index, spent: false } ==> (index >= old(
                iters,
            ).len() ==> outcome == Err::<Option<I>, IMExError>(
                IMExError::StreamOutOfRange { index },
            ) && final(self)@ == old(self)@ && final(iters)@ == old(iters)@),
        decreases val_depth(old(self)@), 0nat,
    {
        match self {
            IMExVal::StreamRef { index, spent } => {
                if *spent {
                    return Ok(None);
                }
                if *index >= iters.len() {
                    return Err(IMExError::StreamOutOfRange { index: *index });
                }
                *spent = true;
                let at: usize = *index;
                let item = iters[at].next();
                proof {
                    if lawful(old(iters)@) {
                        assert(old(iters)@[at as int].obeys_prophetic_iter_laws());
                        assert(iters@.map_values(|t: T| t.remaining()) =~= val_step(
                            old(self)@,
                            old(iters)@.map_values(|t: T| t.remaining()),
                        ).streams);
                    }
                }
                Ok(item)
            },
            IMExVal::Group { children, cursor } => {
                proof {
                    assert(nodes_view(children@) =~= old(self)@->children);
                }
                let outcome = iterate_group(children, cursor, iters);
                proof {
                    assert(nodes_view(children@) =~= self@->children);
                }
                outcome
            },
        }
    }
}

} // verus!
