use crate::error::IMExError;
use crate::expression::imex_iterator::IMExIterator;
use crate::expression::imex_val::IMExVal;
use crate::expression::model::{
    fresh, group_step, idle_step, lemma_group_step_frame, lemma_group_step_len, node_step,
    val_step, NodeModel, Step, ValModel,
};
use crate::expression::quantified_imex_val::QuantifiedIMExVal;
use crate::expression::quantifier::Quantifier;
use crate::streams::{head, lemma_advance_takes_one, total_len};
use vstd::prelude::*;

verus! {

/// All that a row of calls does, up to the first call that yields no item:
/// the items in order, the error if the row ended in one, and the state and
/// the streams that are left.
pub struct Run<S, I> {
    pub items: Seq<I>,
    pub failure: Option<IMExError>,
    pub next: S,
    pub streams: Seq<Seq<I>>,
}

/// The complete output of a node: what calling it again and again does,
/// until it reports exhaustion or fails.
pub open spec fn run<I, X: IMExIterator<I>>(state: X::V, streams: Seq<Seq<I>>) -> Run<X::V, I>
    decreases total_len(streams),
{
    let call = X::step(state, streams);
    match call.outcome {
        Ok(Some(item)) => {
            if total_len(call.streams) < total_len(streams) {
                let rest = run::<I, X>(call.next, call.streams);
                Run { items: seq![item] + rest.items, ..rest }
            } else {
                Run { items: seq![item], failure: None, next: call.next, streams: call.streams }
            }
        },
        Ok(None) => Run {
            items: Seq::empty(),
            failure: None,
            next: call.next,
            streams: call.streams,
        },
        Err(error) => Run {
            items: Seq::empty(),
            failure: Some(error),
            next: call.next,
            streams: call.streams,
        },
    }
}

/// Whether two runs yield the same items, end the same way and leave the
/// same streams.
pub open spec fn same_output<A, B, I>(left: Run<A, I>, right: Run<B, I>) -> bool {
    &&& left.items == right.items
    &&& left.failure == right.failure
    &&& left.streams == right.streams
}

/// The complete outputs of the children from `from` on, one child after the
/// other: each child runs on the streams that the one before it left, and a
/// failure ends the row.
pub open spec fn in_turn<I>(children: Seq<NodeModel>, from: nat, streams: Seq<Seq<I>>) -> Run<
    Seq<NodeModel>,
    I,
>
    decreases children.len() - from,
{
    if from >= children.len() {
        Run { items: Seq::empty(), failure: None, next: children, streams }
    } else {
        let first = run::<I, QuantifiedIMExVal>(children[from as int], streams);
        if first.failure is Some {
            Run {
                items: first.items,
                failure: first.failure,
                next: children.update(from as int, first.next),
                streams: first.streams,
            }
        } else {
            let rest = in_turn(children, from + 1, first.streams);
            Run {
                items: first.items + rest.items,
                failure: rest.failure,
                next: rest.next.update(from as int, first.next),
                streams: rest.streams,
            }
        }
    }
}

/// What the cycles of a quantified expression yield together.
pub struct Cycles<I> {
    pub items: Seq<I>,
    pub failure: Option<IMExError>,
    pub streams: Seq<Seq<I>>,
    /// The number of cycles that yielded an item.
    pub fruitful: nat,
}

/// Full passes of `val`, each from a fresh copy, one after the other: as
/// many as `quantifier` grants, but none after a pass that yielded nothing
/// or failed.
pub open spec fn cycles<I>(val: ValModel, quantifier: Quantifier, streams: Seq<Seq<I>>) -> Cycles<I>
    decreases total_len(streams),
{
    if !quantifier.grants() {
        Cycles { items: Seq::empty(), failure: None, streams, fruitful: 0 }
    } else {
        let pass = run::<I, IMExVal>(val, streams);
        if pass.failure is Some || pass.items.len() == 0 {
            Cycles {
                items: pass.items,
                failure: pass.failure,
                streams: pass.streams,
                fruitful: if pass.items.len() > 0 {
                    1
                } else {
                    0
                },
            }
        } else if total_len(pass.streams) < total_len(streams) {
            let rest = cycles(val, quantifier.after_request(), pass.streams);
            Cycles {
                items: pass.items + rest.items,
                failure: rest.failure,
                streams: rest.streams,
                fruitful: rest.fruitful + 1,
            }
        } else {
            Cycles { items: pass.items, failure: None, streams: pass.streams, fruitful: 1 }
        }
    }
}

/// A call that yields an item takes exactly one item out of the streams; a
/// call that yields none leaves them as they are.
pub open spec fn takes_what_it_yields<S, I>(streams: Seq<Seq<I>>, call: Step<S, I>) -> bool {
    if call.outcome matches Ok(Some(_)) {
        total_len(call.streams) + 1 == total_len(streams)
    } else {
        call.streams == streams
    }
}

/// Each call on an expression takes from the streams what it yields.
pub proof fn lemma_val_step_takes<I>(val: ValModel, streams: Seq<Seq<I>>)
    ensures
        takes_what_it_yields(streams, val_step(val, streams)),
    decreases val, 0nat,
{
    match val {
        ValModel::StreamRef { index, spent } => {
            if !spent && index < streams.len() && head(streams, index as int) is Some {
                lemma_advance_takes_one(streams, index as int);
            }
        },
        ValModel::Group { children, cursor } => {
            lemma_group_step_takes(children, cursor, streams);
        },
    }
}

/// Each call on a group takes from the streams what it yields.
pub proof fn lemma_group_step_takes<I>(children: Seq<NodeModel>, cursor: nat, streams: Seq<Seq<I>>)
    ensures
        takes_what_it_yields(streams, group_step(children, cursor, streams)),
    decreases children, children.len() - cursor,
{
    if cursor < children.len() {
        lemma_node_step_takes(children[cursor as int], streams);
        let call = node_step(children[cursor as int], streams);
        if call.outcome == Ok::<Option<I>, IMExError>(None) {
            lemma_group_step_takes(children, cursor + 1, call.streams);
        }
    }
}

/// Each call on a quantified expression takes from the streams what it
/// yields.
pub proof fn lemma_node_step_takes<I>(node: NodeModel, streams: Seq<Seq<I>>)
    ensures
        takes_what_it_yields(streams, node_step(node, streams)),
    decreases node, 0nat,
{
    match node.current {
        Some(instance) => {
            lemma_val_step_takes(instance, streams);
            let call = val_step(instance, streams);
            if call.outcome == Ok::<Option<I>, IMExError>(None) {
                lemma_idle_step_takes(node.val, node.quantifier, node.produced, call.streams);
            }
        },
        None => {
            lemma_idle_step_takes(node.val, node.quantifier, node.produced, streams);
        },
    }
}

/// Each call on a quantified expression without a running cycle takes from
/// the streams what it yields.
pub proof fn lemma_idle_step_takes<I>(
    val: ValModel,
    quantifier: Quantifier,
    produced: bool,
    streams: Seq<Seq<I>>,
)
    ensures
        takes_what_it_yields(streams, idle_step(val, quantifier, produced, streams)),
    decreases val, 1nat,
{
    if quantifier.grants() && produced {
        lemma_val_step_takes(val, streams);
    }
}

/// A step of a group never moves its cursor back.
pub proof fn lemma_group_step_cursor<I>(children: Seq<NodeModel>, cursor: nat, streams: Seq<Seq<I>>)
    ensures
        group_step(children, cursor, streams).next.1 >= cursor,
    decreases children.len() - cursor,
{
    if cursor < children.len() {
        let call = node_step(children[cursor as int], streams);
        lemma_group_step_cursor(children, cursor + 1, call.streams);
    }
}

/// The complete output of an expression holds exactly the items that it
/// took out of the streams.
pub proof fn lemma_pass_takes<I>(val: ValModel, streams: Seq<Seq<I>>)
    ensures
        total_len(run::<I, IMExVal>(val, streams).streams) + run::<I, IMExVal>(
            val,
            streams,
        ).items.len() == total_len(streams),
    decreases total_len(streams),
{
    lemma_val_step_takes(val, streams);
    let call = val_step(val, streams);
    if call.outcome matches Ok(Some(_)) {
        lemma_pass_takes(call.next, call.streams);
    }
}

/// A quantified expression whose budget grants a cycle, and whose latest
/// cycle produced, does on its next call what it would do with that cycle
/// already started.
pub proof fn lemma_new_cycle<I>(node: NodeModel, streams: Seq<Seq<I>>)
    requires
        node.current is None,
        node.quantifier.grants(),
        node.produced,
    ensures
        run::<I, QuantifiedIMExVal>(node, streams) == run::<I, QuantifiedIMExVal>(
            NodeModel {
                quantifier: node.quantifier.after_request(),
                current: Some(node.val),
                produced: false,
                ..node
            },
            streams,
        ),
{
    let started = NodeModel {
        quantifier: node.quantifier.after_request(),
        current: Some(node.val),
        produced: false,
        ..node
    };
    assert(node_step(node, streams) == node_step(started, streams));
}

/// The complete output of a quantified expression with a running cycle is
/// the rest of that cycle, followed by the complete output of the node as
/// the cycle leaves it.
pub proof fn lemma_running_cycle<I>(node: NodeModel, streams: Seq<Seq<I>>)
    requires
        node.current is Some,
    ensures
        ({
            let cycle = run::<I, IMExVal>(node.current->0, streams);
            let whole = run::<I, QuantifiedIMExVal>(node, streams);
            if cycle.failure is Some {
                same_output(whole, cycle)
            } else {
                let after = run::<I, QuantifiedIMExVal>(
                    NodeModel {
                        current: None,
                        produced: node.produced || cycle.items.len() > 0,
                        ..node
                    },
                    cycle.streams,
                );
                &&& whole.items == cycle.items + after.items
                &&& whole.failure == after.failure
                &&& whole.streams == after.streams
            }
        }),
    decreases total_len(streams),
{
    let instance = node.current->0;
    let call = val_step(instance, streams);
    let cycle = run::<I, IMExVal>(instance, streams);
    let whole = run::<I, QuantifiedIMExVal>(node, streams);
    lemma_val_step_takes(instance, streams);
    match call.outcome {
        Ok(Some(item)) => {
            let running = NodeModel { current: Some(call.next), produced: true, ..node };
            assert(node_step(node, streams) == (Step {
                outcome: call.outcome,
                next: running,
                streams: call.streams,
            }));
            lemma_running_cycle(running, call.streams);
            let rest = run::<I, IMExVal>(call.next, call.streams);
            if rest.failure is None {
                let after = run::<I, QuantifiedIMExVal>(
                    NodeModel { current: None, produced: true, ..node },
                    rest.streams,
                );
                assert(seq![item] + (rest.items + after.items) =~= (seq![item] + rest.items)
                    + after.items);
            }
        },
        Ok(None) => {
            let idle = NodeModel { current: None, ..node };
            assert(node_step(node, streams) == node_step(idle, call.streams));
            assert(cycle.items + run::<I, QuantifiedIMExVal>(idle, call.streams).items
                =~= run::<I, QuantifiedIMExVal>(idle, call.streams).items);
        },
        Err(_) => {},
    }
}

/// A quantified expression on which no cycle has run yields, call by call,
/// full passes of its expression one after the other: as many as its
/// budget grants, but none after a pass that yielded nothing or failed.
pub proof fn lemma_quantified_runs_in_cycles<I>(
    val: ValModel,
    quantifier: Quantifier,
    streams: Seq<Seq<I>>,
)
    ensures
        ({
            let whole = run::<I, QuantifiedIMExVal>(fresh(val, quantifier), streams);
            let passes = cycles(val, quantifier, streams);
            &&& whole.items == passes.items
            &&& whole.failure == passes.failure
            &&& whole.streams == passes.streams
        }),
    decreases total_len(streams),
{
    let node = fresh(val, quantifier);
    if quantifier.grants() {
        let started = NodeModel {
            quantifier: quantifier.after_request(),
            current: Some(val),
            produced: false,
            ..node
        };
        lemma_new_cycle(node, streams);
        lemma_running_cycle(started, streams);
        lemma_pass_takes(val, streams);
        let pass = run::<I, IMExVal>(val, streams);
        if pass.failure is None {
            let idle = NodeModel { current: None, produced: pass.items.len() > 0, ..started };
            if pass.items.len() > 0 {
                assert(idle == fresh(val, quantifier.after_request()));
                lemma_quantified_runs_in_cycles(val, quantifier.after_request(), pass.streams);
            } else {
                assert(pass.items + run::<I, QuantifiedIMExVal>(idle, pass.streams).items
                    =~= pass.items);
            }
        }
    }
}

/// With the bounded quantifier `{count}`, at most `count` cycles yield an
/// item.
pub proof fn lemma_bounded_cycles<I>(val: ValModel, count: usize, streams: Seq<Seq<I>>)
    ensures
        cycles(val, Quantifier::Bounded(count), streams).fruitful <= count,
    decreases total_len(streams),
{
    if count > 0 {
        let pass = run::<I, IMExVal>(val, streams);
        if pass.failure is None && pass.items.len() > 0 && total_len(pass.streams) < total_len(
            streams,
        ) {
            lemma_bounded_cycles(val, (count - 1) as usize, pass.streams);
        }
    }
}

/// The complete output of a group does not depend on the children that its
/// cursor has passed.
pub proof fn lemma_group_run_frame<I>(
    children: Seq<NodeModel>,
    cursor: nat,
    streams: Seq<Seq<I>>,
    before: int,
    node: NodeModel,
)
    requires
        0 <= before < cursor,
        before < children.len(),
    ensures
        same_output(
            run::<I, IMExVal>(
                ValModel::Group { children: children.update(before, node), cursor },
                streams,
            ),
            run::<I, IMExVal>(ValModel::Group { children, cursor }, streams),
        ),
    decreases total_len(streams),
{
    lemma_group_step_frame(children, cursor, streams, before, node);
    lemma_group_step_cursor(children, cursor, streams);
    lemma_group_step_len(children, cursor, streams);
    let plain = group_step(children, cursor, streams);
    if plain.outcome matches Ok(Some(_)) {
        if total_len(plain.streams) < total_len(streams) {
            lemma_group_run_frame(plain.next.0, plain.next.1, plain.streams, before, node);
        }
    }
}

/// The outputs of the children from `from` on do not depend on the children
/// before them.
pub proof fn lemma_in_turn_frame<I>(
    children: Seq<NodeModel>,
    from: nat,
    streams: Seq<Seq<I>>,
    before: int,
    node: NodeModel,
)
    requires
        0 <= before < from,
        before < children.len(),
    ensures
        same_output(
            in_turn(children.update(before, node), from, streams),
            in_turn(children, from, streams),
        ),
    decreases children.len() - from,
{
    if from < children.len() {
        let first = run::<I, QuantifiedIMExVal>(children[from as int], streams);
        if first.failure is None {
            lemma_in_turn_frame(children, from + 1, first.streams, before, node);
        }
    }
}

/// A group whose cursor stands at `cursor` yields, call by call, the
/// complete output of the child at the cursor, then that of the next child,
/// and so on to the last.
pub proof fn lemma_group_runs_children_in_turn<I>(
    children: Seq<NodeModel>,
    cursor: nat,
    streams: Seq<Seq<I>>,
)
    ensures
        same_output(
            run::<I, IMExVal>(ValModel::Group { children, cursor }, streams),
            in_turn(children, cursor, streams),
        ),
    decreases children.len() - cursor, total_len(streams),
{
    let group = ValModel::Group { children, cursor };
    if cursor < children.len() {
        let child = children[cursor as int];
        let call = node_step(child, streams);
        lemma_node_step_takes(child, streams);
        let own = run::<I, QuantifiedIMExVal>(child, streams);
        match call.outcome {
            Ok(Some(item)) => {
                let stepped = children.update(cursor as int, call.next);
                lemma_group_runs_children_in_turn(stepped, cursor, call.streams);
                let rest = run::<I, QuantifiedIMExVal>(call.next, call.streams);
                if rest.failure is None {
                    lemma_in_turn_frame(children, cursor + 1, rest.streams, cursor as int, call.next);
                    let others = in_turn(children, cursor + 1, rest.streams);
                    assert(seq![item] + (rest.items + others.items) =~= (seq![item] + rest.items)
                        + others.items);
                }
            },
            Ok(None) => {
                let later = group_step(children, cursor + 1, streams);
                lemma_group_step_takes(children, cursor + 1, streams);
                lemma_group_step_cursor(children, cursor + 1, streams);
                lemma_group_step_len(children, cursor + 1, streams);
                if later.outcome matches Ok(Some(_)) {
                    lemma_group_run_frame(
                        later.next.0,
                        later.next.1,
                        later.streams,
                        cursor as int,
                        call.next,
                    );
                }
                assert(same_output(
                    run::<I, IMExVal>(group, streams),
                    run::<I, IMExVal>(ValModel::Group { children, cursor: cursor + 1 }, streams),
                ));
                lemma_group_runs_children_in_turn(children, cursor + 1, streams);
                assert(own.items + in_turn(children, cursor + 1, streams).items =~= in_turn(
                    children,
                    cursor + 1,
                    streams,
                ).items);
            },
            Err(_) => {},
        }
    }
}

/// One full pass of a group yields the complete outputs of its children,
/// joined in the order of the children.
pub proof fn lemma_group_pass<I>(children: Seq<NodeModel>, streams: Seq<Seq<I>>)
    ensures
        same_output(
            run::<I, IMExVal>(ValModel::Group { children, cursor: 0 }, streams),
            in_turn(children, 0, streams),
        ),
{
    lemma_group_runs_children_in_turn(children, 0, streams);
}

/// A group with the bounded quantifier `{count}` yields full passes of the
/// group one after the other, each pass the complete outputs of the
/// children joined in their order; at most `count` passes yield an item,
/// and no pass follows one that yielded nothing.
pub proof fn lemma_quantified_group<I>(
    children: Seq<NodeModel>,
    count: usize,
    streams: Seq<Seq<I>>,
)
    ensures
        ({
            let group = ValModel::Group { children, cursor: 0 };
            let whole = run::<I, QuantifiedIMExVal>(
                fresh(group, Quantifier::Bounded(count)),
                streams,
            );
            let passes = cycles(group, Quantifier::Bounded(count), streams);
            &&& whole.items == passes.items
            &&& whole.failure == passes.failure
            &&& whole.streams == passes.streams
            &&& passes.fruitful <= count
            &&& forall|before: Seq<Seq<I>>| #[trigger]
                same_output(run::<I, IMExVal>(group, before), in_turn(children, 0, before))
        }),
{
    let group = ValModel::Group { children, cursor: 0 };
    lemma_quantified_runs_in_cycles(group, Quantifier::Bounded(count), streams);
    lemma_bounded_cycles(group, count, streams);
    assert forall|before: Seq<Seq<I>>| #[trigger]
        same_output(run::<I, IMExVal>(group, before), in_turn(children, 0, before)) by {
        lemma_group_pass(children, before);
    }
}

} // verus!
