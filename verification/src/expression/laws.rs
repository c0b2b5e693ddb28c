use crate::error::IMExError;
use crate::expression::imex_iterator::IMExIterator;
use crate::expression::model::{exhausted, fresh, node_step, NodeModel, Step, ValModel};
use crate::expression::quantified_imex_val::QuantifiedIMExVal;
use crate::expression::quantifier::Quantifier;
use crate::expression::utils::{CounterModel, IMExIterCounter};
use vstd::prelude::*;

verus! {

/// What the `k`-th of `k` calls in a row does, the first of them made in
/// `state` against `streams` and each later one in the state and against
/// the streams that the call before it left behind.
pub open spec fn nth_call<I, X: IMExIterator<I>>(
    state: X::V,
    streams: Seq<Seq<I>>,
    k: nat,
) -> Step<X::V, I>
    decreases k,
{
    if k <= 1 {
        X::step(state, streams)
    } else {
        let before = nth_call::<I, X>(state, streams, (k - 1) as nat);
        X::step(before.next, before.streams)
    }
}

/// How many of the first `k` calls in a row yield an item.
pub open spec fn items_among<I, X: IMExIterator<I>>(
    state: X::V,
    streams: Seq<Seq<I>>,
    k: nat,
) -> nat
    decreases k,
{
    if k == 0 {
        0
    } else {
        items_among::<I, X>(state, streams, (k - 1) as nat) + if nth_call::<I, X>(
            state,
            streams,
            k,
        ).outcome matches Ok(Some(_)) {
            1nat
        } else {
            0nat
        }
    }
}

/// The stream reference to `index` that has not been pulled from.
pub open spec fn unspent(index: usize) -> ValModel {
    ValModel::StreamRef { index, spent: false }
}

/// How many items a quantified stream reference may yield, with budget
/// `quantifier`, from a stream that has `available` items left.
pub open spec fn pulls_allowed(quantifier: Quantifier, available: nat) -> nat {
    match quantifier {
        Quantifier::Bounded(count) => if count <= available {
            count as nat
        } else {
            available
        },
        Quantifier::Unbounded => available,
    }
}

/// A call that reports exhaustion leaves the node exhausted.
pub proof fn lemma_exhaustion_exhausts<I>(node: NodeModel, streams: Seq<Seq<I>>)
    requires
        node_step(node, streams).outcome == Ok::<Option<I>, IMExError>(None),
    ensures
        exhausted(node_step(node, streams).next),
{
}

/// A call on an exhausted node reports exhaustion, touches no stream and
/// leaves the node exhausted.
pub proof fn lemma_exhausted_stays<I>(node: NodeModel, streams: Seq<Seq<I>>)
    requires
        exhausted(node),
    ensures
        node_step(node, streams).outcome == Ok::<Option<I>, IMExError>(None),
        node_step(node, streams).streams == streams,
        exhausted(node_step(node, streams).next),
{
}

/// Exhaustion is final: once a quantified expression has reported that it
/// is exhausted, each later call reports the same and leaves the streams it
/// is given as they are, whatever they hold.
pub proof fn lemma_exhaustion_is_final<I>(
    node: NodeModel,
    streams: Seq<Seq<I>>,
    later: Seq<Seq<I>>,
    k: nat,
)
    requires
        node_step(node, streams).outcome == Ok::<Option<I>, IMExError>(None),
        k >= 1,
    ensures
        nth_call::<I, QuantifiedIMExVal>(node_step(node, streams).next, later, k).outcome == Ok::<
            Option<I>,
            IMExError,
        >(None),
        nth_call::<I, QuantifiedIMExVal>(node_step(node, streams).next, later, k).streams == later,
        exhausted(nth_call::<I, QuantifiedIMExVal>(node_step(node, streams).next, later, k).next),
    decreases k,
{
    let spent = node_step(node, streams).next;
    lemma_exhaustion_exhausts(node, streams);
    if k <= 1 {
        lemma_exhausted_stays(spent, later);
    } else {
        lemma_exhaustion_is_final(node, streams, later, (k - 1) as nat);
        let before = nth_call::<I, QuantifiedIMExVal>(spent, later, (k - 1) as nat);
        lemma_exhausted_stays(before.next, before.streams);
    }
}

/// The calls on a quantified stream reference in full: while the budget
/// and the stream last, each call yields the stream's next item; after
/// that the node is exhausted and the stream stays where it is.
pub proof fn lemma_stream_ref_calls<I>(
    index: usize,
    quantifier: Quantifier,
    streams: Seq<Seq<I>>,
    k: nat,
)
    requires
        index < streams.len(),
        k >= 1,
    ensures
        ({
            let call = nth_call::<I, QuantifiedIMExVal>(
                fresh(unspent(index), quantifier),
                streams,
                k,
            );
            let stream = streams[index as int];
            let limit = pulls_allowed(quantifier, stream.len());
            if k <= limit {
                &&& call.outcome == Ok::<Option<I>, IMExError>(Some(stream[k - 1]))
                &&& call.streams == streams.update(index as int, stream.skip(k as int))
                &&& call.next == (NodeModel {
                    val: unspent(index),
                    quantifier: quantifier.after_requests(k),
                    current: Some(ValModel::StreamRef { index, spent: true }),
                    produced: true,
                })
            } else {
                &&& call.outcome == Ok::<Option<I>, IMExError>(None)
                &&& call.streams == streams.update(index as int, stream.skip(limit as int))
                &&& exhausted(call.next)
            }
        }),
    decreases k,
{
    let start = fresh(unspent(index), quantifier);
    let stream = streams[index as int];
    let limit = pulls_allowed(quantifier, stream.len());
    let call = nth_call::<I, QuantifiedIMExVal>(start, streams, k);
    if k <= 1 {
        if limit >= 1 {
            assert(stream.skip(1) =~= stream.drop_first());
            assert(quantifier.after_requests(1) == quantifier.after_request()) by {
                reveal_with_fuel(Quantifier::after_requests, 2);
            }
        } else {
            assert(stream.skip(0) =~= stream);
            assert(streams.update(index as int, stream) =~= streams);
        }
    } else {
        let j = (k - 1) as nat;
        lemma_stream_ref_calls(index, quantifier, streams, j);
        let before = nth_call::<I, QuantifiedIMExVal>(start, streams, j);
        if j <= limit {
            let left = stream.skip(j as int);
            assert(before.streams[index as int] == left);
            lemma_after_requests(quantifier, j);
            if k <= limit {
                assert(left.drop_first() =~= stream.skip(k as int));
                assert(before.streams.update(index as int, left.drop_first()) =~= streams.update(
                    index as int,
                    stream.skip(k as int),
                ));
                assert(quantifier.after_requests(k) == quantifier.after_requests(j).after_request()) by {
                    lemma_after_requests_step(quantifier, j);
                }
            } else {
                assert(j == limit);
            }
        } else {
            lemma_exhausted_stays(before.next, before.streams);
        }
    }
}

/// What is left of a budget after `k` requests.
pub proof fn lemma_after_requests(quantifier: Quantifier, k: nat)
    ensures
        quantifier.after_requests(k) == match quantifier {
            Quantifier::Bounded(count) => Quantifier::Bounded(
                if count >= k {
                    (count - k) as usize
                } else {
                    0
                },
            ),
            Quantifier::Unbounded => Quantifier::Unbounded,
        },
    decreases k,
{
    if k > 0 {
        lemma_after_requests(quantifier.after_request(), (k - 1) as nat);
    }
}

/// One more request after `k` is `k + 1` requests.
pub proof fn lemma_after_requests_step(quantifier: Quantifier, k: nat)
    ensures
        quantifier.after_requests(k + 1) == quantifier.after_requests(k).after_request(),
{
    lemma_after_requests(quantifier, k);
    lemma_after_requests(quantifier, k + 1);
}

/// A stream reference with the bounded quantifier `{count}` yields the next
/// items of its stream, one per call, at most `count` of them; from then on
/// it reports exhaustion and pulls nothing, even where the stream has
/// items left.
pub proof fn lemma_bounded_stream_ref<I>(index: usize, count: usize, streams: Seq<Seq<I>>, k: nat)
    requires
        index < streams.len(),
        k >= 1,
    ensures
        ({
            let call = nth_call::<I, QuantifiedIMExVal>(
                fresh(unspent(index), Quantifier::Bounded(count)),
                streams,
                k,
            );
            let stream = streams[index as int];
            if k <= count && k <= stream.len() {
                &&& call.outcome == Ok::<Option<I>, IMExError>(Some(stream[k - 1]))
                &&& call.streams == streams.update(index as int, stream.skip(k as int))
            } else {
                &&& call.outcome == Ok::<Option<I>, IMExError>(None)
                &&& call.streams == streams.update(
                    index as int,
                    stream.skip(
                        if count <= stream.len() {
                            count as int
                        } else {
                            stream.len() as int
                        },
                    ),
                )
            }
        }),
{
    lemma_stream_ref_calls(index, Quantifier::Bounded(count), streams, k);
}

/// A stream reference with the unbounded quantifier yields the items of its
/// stream, one per call, until the stream is at its end; from then on it
/// reports exhaustion.
pub proof fn lemma_unbounded_stream_ref<I>(index: usize, streams: Seq<Seq<I>>, k: nat)
    requires
        index < streams.len(),
        k >= 1,
    ensures
        ({
            let call = nth_call::<I, QuantifiedIMExVal>(
                fresh(unspent(index), Quantifier::Unbounded),
                streams,
                k,
            );
            let stream = streams[index as int];
            if k <= stream.len() {
                &&& call.outcome == Ok::<Option<I>, IMExError>(Some(stream[k - 1]))
                &&& call.streams == streams.update(index as int, stream.skip(k as int))
            } else {
                &&& call.outcome == Ok::<Option<I>, IMExError>(None)
                &&& call.streams == streams.update(index as int, Seq::empty())
            }
        }),
{
    lemma_stream_ref_calls(index, Quantifier::Unbounded, streams, k);
    assert(streams[index as int].skip(streams[index as int].len() as int) =~= Seq::<I>::empty());
}

/// The counter of an `IMExIterCounter` after `k` calls in a row is what it
/// was before them plus the number of those calls that yielded an item.
pub proof fn lemma_counter_counts_items<I, X: IMExIterator<I>>(
    state: CounterModel<X::V>,
    streams: Seq<Seq<I>>,
    k: nat,
)
    requires
        k >= 1,
    ensures
        nth_call::<I, IMExIterCounter<X>>(state, streams, k).next.count == state.count
            + items_among::<I, IMExIterCounter<X>>(state, streams, k),
        nth_call::<I, IMExIterCounter<X>>(state, streams, k).next.inner == nth_call::<I, X>(
            state.inner,
            streams,
            k,
        ).next,
        nth_call::<I, IMExIterCounter<X>>(state, streams, k).outcome == nth_call::<I, X>(
            state.inner,
            streams,
            k,
        ).outcome,
        nth_call::<I, IMExIterCounter<X>>(state, streams, k).streams == nth_call::<I, X>(
            state.inner,
            streams,
            k,
        ).streams,
    decreases k,
{
    reveal_with_fuel(items_among, 2);
    if k > 1 {
        lemma_counter_counts_items::<I, X>(state, streams, (k - 1) as nat);
    }
}

} // verus!
