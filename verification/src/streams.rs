use vstd::prelude::*;
use vstd::std_specs::iter::IteratorSpec;

verus! {

/// Every iterator of the collection keeps the promises that the contracts of
/// this crate rely on: it hands out its remaining items in order, then
/// reports its end, and goes on reporting it.
pub open spec fn lawful<T: Iterator>(iters: Seq<T>) -> bool {
    forall|i: int| 0 <= i < iters.len() ==> (#[trigger] iters[i]).obeys_prophetic_iter_laws()
}

/// The item that a pull from stream `index` yields, if the stream exists and
/// has one left.
pub open spec fn head<I>(streams: Seq<Seq<I>>, index: int) -> Option<I> {
    if 0 <= index < streams.len() && streams[index].len() > 0 {
        Some(streams[index][0])
    } else {
        None
    }
}

/// The streams after one pull from stream `index`: that stream loses its
/// first item, if it has one; all others are untouched.
pub open spec fn advance<I>(streams: Seq<Seq<I>>, index: int) -> Seq<Seq<I>> {
    if 0 <= index < streams.len() && streams[index].len() > 0 {
        streams.update(index, streams[index].drop_first())
    } else {
        streams
    }
}

/// The number of items left in all streams together.
pub open spec fn total_len<I>(streams: Seq<Seq<I>>) -> nat
    decreases streams.len(),
{
    if streams.len() == 0 {
        0
    } else {
        total_len(streams.drop_last()) + streams.last().len()
    }
}

/// Replacing one stream changes the total by the difference in length.
pub proof fn lemma_total_len_update<I>(streams: Seq<Seq<I>>, index: int, stream: Seq<I>)
    requires
        0 <= index < streams.len(),
    ensures
        total_len(streams.update(index, stream)) == total_len(streams) - streams[index].len()
            + stream.len(),
    decreases streams.len(),
{
    let changed = streams.update(index, stream);
    if index == streams.len() - 1 {
        assert(changed.drop_last() =~= streams.drop_last());
    } else {
        assert(changed.drop_last() =~= streams.drop_last().update(index, stream));
        lemma_total_len_update(streams.drop_last(), index, stream);
    }
}

/// A pull that yields an item takes exactly one item out of the streams.
pub proof fn lemma_advance_takes_one<I>(streams: Seq<Seq<I>>, index: int)
    requires
        head(streams, index) is Some,
    ensures
        total_len(advance(streams, index)) + 1 == total_len(streams),
{
    lemma_total_len_update(streams, index, streams[index].drop_first());
}

} // verus!
