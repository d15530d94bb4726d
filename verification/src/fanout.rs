use crate::extremum::{
    candidates, is_extremum, lemma_deque_follows_window, lemma_front_is_extremum,
};
use crate::min_max_deque::Extremum;
use crate::number::Number;
use crate::order::ordered;
use crate::stats::StatsView;
use crate::symbol::{size, SymbolView};
use crate::window::{lemma_recent_of_newer, lemma_window_of, recent, slid, window_of};
use crate::K8;
use vstd::prelude::*;

verus! {

/// The most recent values after a push are what a window of their number
/// holds after the same push.
pub proof fn lemma_recent_slides<T>(values: Seq<T>, value: T, n: nat)
    requires
        0 < n <= K8,
        values.len() <= K8,
    ensures
        recent(slid(values, K8 as nat, value), n) == slid(recent(values, n), n, value),
{
    let after = slid(values, K8 as nat, value);
    if values.len() >= n {
        assert(recent(after, n) =~= seq![value] + recent(values, n).drop_last());
    } else {
        assert(recent(after, n) =~= seq![value] + values);
    }
}

/// A symbol whose stats follow its values goes on so when a value comes in.
pub proof fn lemma_push_follows<T: Number>(symbol: SymbolView<T>, value: T)
    requires
        ordered::<T>(),
        symbol.bounded(),
        symbol.follows(),
    ensures
        symbol.pushed(value).bounded(),
        symbol.pushed(value).follows(),
{
    let after = symbol.pushed(value);
    assert forall|i: int| 0 <= i < 8 implies {
        &&& (#[trigger] after.stats[i]).min_deque == candidates(
            Extremum::Min,
            recent(after.values, size(i + 1)),
        )
        &&& after.stats[i].max_deque == candidates(
            Extremum::Max,
            recent(after.values, size(i + 1)),
        )
    } by {
        let n = size(i + 1);
        let window = recent(symbol.values, n);
        assert(after.stats[i] == symbol.stats[i].updated(symbol.leaving(i + 1), value));
        lemma_recent_slides(symbol.values, value, n);
        lemma_deque_follows_window(Extremum::Min, window, n, value);
        lemma_deque_follows_window(Extremum::Max, window, n, value);
    }
}

/// The stats of a fresh symbol follow its values, and go on so whatever
/// values it is given: after any stream, each of the eight stats holds the
/// deques of its own window.
pub proof fn lemma_stats_follow_stream<T: Number>(values: Seq<T>)
    requires
        ordered::<T>(),
    ensures
        SymbolView::<T>::fresh().ingested(values).bounded(),
        SymbolView::<T>::fresh().ingested(values).follows(),
    decreases values.len(),
{
    let fresh = SymbolView::<T>::fresh();
    if values.len() == 0 {
        assert(recent(fresh.values, size(1)) == fresh.values);
    } else {
        lemma_stats_follow_stream(values.drop_last());
        lemma_push_follows(fresh.ingested(values.drop_last()), values.last());
    }
}

/// Where the stats follow the values, a summary is that of the values in
/// its window: for every `k`, the minimum and the maximum are the least and
/// the greatest of the `10^k` most recent values, and `last` is the newest.
pub proof fn lemma_summary_of_recent_values<T: Number>(symbol: SymbolView<T>, k: int)
    requires
        ordered::<T>(),
        symbol.bounded(),
        symbol.follows(),
        symbol.values.len() > 0,
        1 <= k <= 8,
    ensures
        symbol.summary(k) matches Some(numbers) && {
            &&& numbers.len() == 5
            &&& is_extremum(Extremum::Min, numbers[0], recent(symbol.values, size(k)))
            &&& is_extremum(Extremum::Max, numbers[1], recent(symbol.values, size(k)))
            &&& numbers[2] == symbol.values.first()
        },
{
    let window = recent(symbol.values, size(k));
    assert(symbol.stats[k - 1].min_deque == candidates(Extremum::Min, window));
    lemma_front_is_extremum(Extremum::Min, window);
    lemma_front_is_extremum(Extremum::Max, window);
}

/// After a batch a symbol holds the values of the batch, the last first, in
/// front of those that it held: all of them, or the `K8` most recent.
pub proof fn lemma_values_after<T: Number>(symbol: SymbolView<T>, values: Seq<T>)
    requires
        symbol.values.len() <= K8,
    ensures
        symbol.ingested(values).values == recent(values.reverse() + symbol.values, K8 as nat),
    decreases values.len(),
{
    if values.len() == 0 {
        assert(values.reverse() + symbol.values =~= symbol.values);
    } else {
        let before = values.drop_last();
        lemma_values_after(symbol, before);
        assert(values.reverse() + symbol.values =~= seq![values.last()] + (before.reverse()
            + symbol.values));
        lemma_recent_of_newer(before.reverse() + symbol.values, values.last(), K8 as nat);
    }
}

/// A symbol that was fresh holds the most recent values of the stream that
/// it was given, newest first: all of them, or the `K8` last.
pub proof fn lemma_values_of_stream<T: Number>(values: Seq<T>)
    ensures
        SymbolView::<T>::fresh().ingested(values).values == recent(values.reverse(), K8 as nat),
{
    lemma_values_after(SymbolView::<T>::fresh(), values);
    assert(values.reverse() + Seq::<T>::empty() =~= values.reverse());
}

/// After any stream of values, and for every `k`, the summary of a symbol
/// that was fresh is that of the `10^k` last values of the stream, or of all
/// if they are fewer: its minimum is their least, its maximum their
/// greatest, and `last` is the last of them.
pub proof fn lemma_summary_of_stream<T: Number>(values: Seq<T>, k: int)
    requires
        ordered::<T>(),
        values.len() > 0,
        1 <= k <= 8,
    ensures
        SymbolView::<T>::fresh().ingested(values).summary(k) matches Some(numbers) && {
            &&& numbers.len() == 5
            &&& is_extremum(Extremum::Min, numbers[0], recent(values.reverse(), size(k)))
            &&& is_extremum(Extremum::Max, numbers[1], recent(values.reverse(), size(k)))
            &&& numbers[2] == values.last()
        },
{
    let symbol = SymbolView::<T>::fresh().ingested(values);
    lemma_values_of_stream(values);
    lemma_stats_follow_stream(values);
    assert(recent(symbol.values, size(k)) =~= recent(values.reverse(), size(k)));
    lemma_summary_of_recent_values(symbol, k);
}

/// Each of the eight stats of a symbol is what a stats of its own would be
/// beside a window of its size: after any stream of values, the stats of the
/// window that `k` selects are those that were empty and then updated, value
/// by value, with what a window of `10^k` lost and gained.
pub proof fn lemma_stats_of_symbol<T: Number>(values: Seq<T>, k: int)
    requires
        1 <= k <= 8,
    ensures
        SymbolView::<T>::fresh().ingested(values).stats[k - 1] == StatsView::<T>::of(
            values,
            size(k),
        ),
    decreases values.len(),
{
    if values.len() > 0 {
        let before = values.drop_last();
        let symbol = SymbolView::<T>::fresh().ingested(before);
        lemma_stats_of_symbol(before, k);
        lemma_values_of_stream(before);
        lemma_window_of(before, size(k));
        assert(recent(symbol.values, size(k)) =~= recent(before.reverse(), size(k)));
    }
}

/// A symbol that has seen no value has no summary, whatever the `k`.
pub proof fn lemma_fresh_has_no_summary<T: Number>(k: int)
    ensures
        SymbolView::<T>::fresh().summary(k).is_none(),
{
}

/// Values given in two batches lead to the state that they lead to in one.
pub proof fn lemma_ingest_in_parts<T: Number>(symbol: SymbolView<T>, first: Seq<T>, second: Seq<T>)
    ensures
        symbol.ingested(first + second) == symbol.ingested(first).ingested(second),
    decreases second.len(),
{
    if second.len() == 0 {
        assert(first + second =~= first);
    } else {
        lemma_ingest_in_parts(symbol, first, second.drop_last());
        assert((first + second).drop_last() =~= first + second.drop_last());
        assert((first + second).last() == second.last());
    }
}

/// A symbol can take two batches in a row where it can take them as one.
pub proof fn lemma_can_ingest_in_parts<T: Number>(
    symbol: SymbolView<T>,
    first: Seq<T>,
    second: Seq<T>,
)
    requires
        symbol.can_ingest(first + second),
    ensures
        symbol.can_ingest(first),
        symbol.ingested(first).can_ingest(second),
{
    let both = first + second;
    assert forall|i: int| 0 <= i < first.len() implies symbol.ingested(
        #[trigger] first.take(i),
    ).can_push(first[i]) by {
        assert(both.take(i) =~= first.take(i));
        assert(both[i] == first[i]);
    }
    assert forall|i: int| 0 <= i < second.len() implies symbol.ingested(first).ingested(
        #[trigger] second.take(i),
    ).can_push(second[i]) by {
        let at = first.len() + i;
        assert(both.take(at) =~= first + second.take(i));
        assert(both[at] == second[i]);
        lemma_ingest_in_parts(symbol, first, second.take(i));
    }
}

} // verus!
