use crate::error::IMExError;
use crate::expression::quantifier::Quantifier;
use crate::grammar::{DataModel, PatternModel};
use crate::streams::{advance, head};
use vstd::prelude::*;

verus! {

/// The mathematical value of an expression: a stream reference that is used
/// up by one pull, or a group with a cursor into its children.
pub enum ValModel {
    StreamRef { index: usize, spent: bool },
    Group { children: Seq<NodeModel>, cursor: nat },
}

/// The mathematical value of a quantified expression: the blueprint, the
/// budget, the instance of the running cycle if there is one, and whether
/// the latest cycle has produced an item.
pub struct NodeModel {
    pub val: ValModel,
    pub quantifier: Quantifier,
    pub current: Option<ValModel>,
    pub produced: bool,
}

/// What one call of `iterate` does: what it returns, the state it leaves the
/// node in, and the streams it leaves behind.
pub struct Step<S, I> {
    pub outcome: Result<Option<I>, IMExError>,
    pub next: S,
    pub streams: Seq<Seq<I>>,
}

/// A quantified expression on which no cycle has run yet.
pub open spec fn fresh(val: ValModel, quantifier: Quantifier) -> NodeModel {
    NodeModel { val, quantifier, current: None, produced: true }
}

/// A quantified expression that has no running cycle and cannot start one.
pub open spec fn exhausted(node: NodeModel) -> bool {
    node.current is None && !(node.quantifier.grants() && node.produced)
}

/// The quantified expression that the pattern element `pattern` stands for,
/// before any call.
pub open spec fn blueprint(pattern: PatternModel) -> NodeModel
    decreases pattern,
{
    fresh(
        match pattern.data {
            DataModel::Single(index) => ValModel::StreamRef { index, spent: false },
            DataModel::Group(elements) => ValModel::Group {
                children: Seq::new(
                    elements.len(),
                    |i: int|
                        if 0 <= i < elements.len() {
                            blueprint(elements[i])
                        } else {
                            arbitrary()
                        },
                ),
                cursor: 0,
            },
        },
        pattern.repeater.budget(),
    )
}

/// One call on an expression instance.
pub open spec fn val_step<I>(v: ValModel, streams: Seq<Seq<I>>) -> Step<ValModel, I>
    decreases v, 0nat,
{
    match v {
        ValModel::StreamRef { index, spent } => {
            if spent {
                Step { outcome: Ok(None), next: v, streams }
            } else if index >= streams.len() {
                Step { outcome: Err(IMExError::StreamOutOfRange { index }), next: v, streams }
            } else {
                Step {
                    outcome: Ok(head(streams, index as int)),
                    next: ValModel::StreamRef { index, spent: true },
                    streams: advance(streams, index as int),
                }
            }
        },
        ValModel::Group { children, cursor } => {
            let r = group_step(children, cursor, streams);
            Step {
                outcome: r.outcome,
                next: ValModel::Group { children: r.next.0, cursor: r.next.1 },
                streams: r.streams,
            }
        },
    }
}

/// One call on a group whose cursor stands at `cursor`: the children from
/// there on are tried in order until one yields an item or fails.
pub open spec fn group_step<I>(children: Seq<NodeModel>, cursor: nat, streams: Seq<Seq<I>>) -> Step<
    (Seq<NodeModel>, nat),
    I,
>
    decreases children, children.len() - cursor,
{
    if cursor >= children.len() {
        Step { outcome: Ok(None), next: (children, cursor), streams }
    } else {
        let r = node_step(children[cursor as int], streams);
        match r.outcome {
            Ok(None) => {
                let rest = group_step(children, cursor + 1, r.streams);
                Step {
                    outcome: rest.outcome,
                    next: (rest.next.0.update(cursor as int, r.next), rest.next.1),
                    streams: rest.streams,
                }
            },
            _ => Step {
                outcome: r.outcome,
                next: (children.update(cursor as int, r.next), cursor),
                streams: r.streams,
            },
        }
    }
}

/// One call on a quantified expression.
pub open spec fn node_step<I>(n: NodeModel, streams: Seq<Seq<I>>) -> Step<NodeModel, I>
    decreases n, 0nat,
{
    match n.current {
        Some(instance) => {
            let r = val_step(instance, streams);
            match r.outcome {
                Ok(Some(_)) => Step {
                    outcome: r.outcome,
                    next: NodeModel { current: Some(r.next), produced: true, ..n },
                    streams: r.streams,
                },
                Ok(None) => idle_step(n.val, n.quantifier, n.produced, r.streams),
                Err(_) => Step {
                    outcome: r.outcome,
                    next: NodeModel { current: Some(r.next), ..n },
                    streams: r.streams,
                },
            }
        },
        None => idle_step(n.val, n.quantifier, n.produced, streams),
    }
}

/// One call on a quantified expression that has no running cycle: a new
/// cycle starts if the budget grants it and the latest cycle produced an
/// item; otherwise the node is exhausted.
pub open spec fn idle_step<I>(
    val: ValModel,
    quantifier: Quantifier,
    produced: bool,
    streams: Seq<Seq<I>>,
) -> Step<NodeModel, I>
    decreases val, 1nat,
{
    let budget = quantifier.after_request();
    if quantifier.grants() && produced {
        let r = val_step(val, streams);
        match r.outcome {
            Ok(Some(_)) => Step {
                outcome: r.outcome,
                next: NodeModel { val, quantifier: budget, current: Some(r.next), produced: true },
                streams: r.streams,
            },
            Ok(None) => Step {
                outcome: Ok(None),
                next: NodeModel {
                    val,
                    quantifier: budget.after_request(),
                    current: None,
                    produced: false,
                },
                streams: r.streams,
            },
            Err(_) => Step {
                outcome: r.outcome,
                next: NodeModel { val, quantifier: budget, current: Some(r.next), produced: false },
                streams: r.streams,
            },
        }
    } else {
        Step {
            outcome: Ok(None),
            next: NodeModel { val, quantifier: budget, current: None, produced },
            streams,
        }
    }
}

/// How deeply expressions are nested in `v`, running instances included.
pub open spec fn val_depth(v: ValModel) -> nat
    decreases v, 0nat,
{
    match v {
        ValModel::StreamRef { .. } => 0,
        ValModel::Group { children, .. } => 1 + nodes_depth(children, children.len()),
    }
}

/// The greatest depth among the first `count` of `nodes`.
pub open spec fn nodes_depth(nodes: Seq<NodeModel>, count: nat) -> nat
    decreases nodes, count,
{
    if count == 0 || count > nodes.len() {
        0
    } else {
        let first = nodes_depth(nodes, (count - 1) as nat);
        let last = node_depth(nodes[count - 1]);
        if first >= last {
            first
        } else {
            last
        }
    }
}

/// How deeply expressions are nested in `n`, its running instance included.
pub open spec fn node_depth(n: NodeModel) -> nat
    decreases n, 0nat,
{
    let blueprint = val_depth(n.val);
    let running = match n.current {
        Some(instance) => val_depth(instance),
        None => 0,
    };
    1 + if blueprint >= running {
        blueprint
    } else {
        running
    }
}

/// Each of the first `count` nodes is no deeper than their greatest depth.
pub proof fn lemma_nodes_depth_bounds(nodes: Seq<NodeModel>, count: nat, k: int)
    requires
        0 <= k < count <= nodes.len(),
    ensures
        node_depth(nodes[k]) <= nodes_depth(nodes, count),
    decreases count,
{
    if k < count - 1 {
        lemma_nodes_depth_bounds(nodes, (count - 1) as nat, k);
    }
}

/// A group that stands at `cursor` neither reads nor changes the children
/// before it.
pub proof fn lemma_group_step_frame<I>(
    children: Seq<NodeModel>,
    cursor: nat,
    streams: Seq<Seq<I>>,
    before: int,
    node: NodeModel,
)
    requires
        0 <= before < cursor,
        before < children.len(),
    ensures
        ({
            let plain = group_step(children, cursor, streams);
            let changed = group_step(children.update(before, node), cursor, streams);
            &&& changed.outcome == plain.outcome
            &&& changed.streams == plain.streams
            &&& changed.next.1 == plain.next.1
            &&& changed.next.0 == plain.next.0.update(before, node)
        }),
    decreases children.len() - cursor,
{
    let plain = group_step(children, cursor, streams);
    let changed = group_step(children.update(before, node), cursor, streams);
    if cursor < children.len() {
        let r = node_step(children[cursor as int], streams);
        lemma_group_step_len(children, cursor + 1, r.streams);
        match r.outcome {
            Ok(None) => {
                lemma_group_step_frame(children, cursor + 1, r.streams, before, node);
                let rest = group_step(children, cursor + 1, r.streams);
                assert(rest.next.0.update(before, node).update(cursor as int, r.next)
                    =~= rest.next.0.update(cursor as int, r.next).update(before, node));
            },
            _ => {
                assert(children.update(before, node).update(cursor as int, r.next)
                    =~= children.update(cursor as int, r.next).update(before, node));
            },
        }
    }
}

/// A step of a group keeps the number of its children.
pub proof fn lemma_group_step_len<I>(children: Seq<NodeModel>, cursor: nat, streams: Seq<Seq<I>>)
    ensures
        group_step(children, cursor, streams).next.0.len() == children.len(),
    decreases children.len() - cursor,
{
    if cursor < children.len() {
        let r = node_step(children[cursor as int], streams);
        lemma_group_step_len(children, cursor + 1, r.streams);
    }
}

} // verus!
