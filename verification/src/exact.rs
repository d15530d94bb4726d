use crate::fanout::{lemma_recent_slides, lemma_values_of_stream};
use crate::stats::StatsView;
use crate::symbol::{size, SymbolView};
use crate::window::{evicted, lemma_window_of, recent, slid, window_of};
use vstd::arithmetic::div_mod::{
    lemma_div_is_ordered, lemma_div_multiples_vanish, lemma_div_nonincreasing,
    lemma_div_pos_is_pos,
};
use vstd::prelude::*;

verus! {

/// The sum of `values`.
pub open spec fn total(values: Seq<i64>) -> int
    decreases values.len(),
{
    if values.len() == 0 {
        0
    } else {
        values.first() + total(values.drop_first())
    }
}

/// The sum of the squares of `values`.
pub open spec fn total_of_squares(values: Seq<i64>) -> int
    decreases values.len(),
{
    if values.len() == 0 {
        0
    } else {
        values.first() * values.first() + total_of_squares(values.drop_first())
    }
}

/// `a / b` as the machine integers divide: rounded toward zero.
pub open spec fn quotient(a: int, b: int) -> int {
    if a >= 0 {
        a / b
    } else {
        -((-a) / b)
    }
}

/// Every value is at most 32768 in magnitude.
pub open spec fn small(values: Seq<i64>) -> bool {
    forall|i: int| 0 <= i < values.len() ==> -32768 <= #[trigger] values[i] <= 32768
}

impl SymbolView<i64> {
    /// The running sums of each of the eight stats are the sum, and the sum
    /// of the squares, of the values in its own window.
    pub open spec fn balanced(self) -> bool {
        forall|i: int|
            0 <= i < 8 ==> {
                &&& (#[trigger] self.stats[i]).sum_of_values == total(
                    recent(self.values, size(i + 1)),
                )
                &&& self.stats[i].sum_of_squares == total_of_squares(
                    recent(self.values, size(i + 1)),
                )
            }
    }
}

/// Without its last value a sum is less by that value, and a sum of squares
/// by its square.
proof fn lemma_total_without_last(values: Seq<i64>)
    requires
        values.len() > 0,
    ensures
        total(values.drop_last()) == total(values) - values.last(),
        total_of_squares(values.drop_last()) == total_of_squares(values) - values.last()
            * values.last(),
    decreases values.len(),
{
    let rest = values.drop_first();
    if rest.len() == 0 {
        assert(values.drop_last() =~= rest);
    } else {
        lemma_total_without_last(rest);
        assert(values.drop_last().drop_first() =~= rest.drop_last());
        assert(values.drop_last().first() == values.first());
        assert(rest.last() == values.last());
    }
}

/// What a push does to the sums over a window: the value that came in is
/// added, the value that left, if one did, is taken off.
proof fn lemma_total_slides(values: Seq<i64>, max_len: nat, value: i64)
    requires
        0 < max_len,
    ensures
        total(slid(values, max_len, value)) == total(values) + value - (match evicted(
            values,
            max_len,
        ) {
            Some(old_item) => old_item as int,
            None => 0,
        }),
        total_of_squares(slid(values, max_len, value)) == total_of_squares(values) + value
            * value - (match evicted(values, max_len) {
            Some(old_item) => old_item * old_item,
            None => 0,
        }),
{
    let after = slid(values, max_len, value);
    assert(after.first() == value);
    if values.len() > 0 && values.len() >= max_len {
        assert(after.drop_first() =~= values.drop_last());
        lemma_total_without_last(values);
    } else {
        assert(after.drop_first() =~= values);
    }
}

/// A stats whose running sums are those of the values in a window keeps them
/// so through an update with the value that the window lost, if it lost one,
/// and the value that it gained, where the integers can take it without
/// overflow.
pub proof fn lemma_update_balanced(
    stats: StatsView<i64>,
    window: Seq<i64>,
    max_len: nat,
    value: i64,
)
    requires
        0 < max_len,
        stats.sum_of_values == total(window),
        stats.sum_of_squares == total_of_squares(window),
        stats.can_update(evicted(window, max_len), value),
    ensures
        stats.updated(evicted(window, max_len), value).sum_of_values == total(
            slid(window, max_len, value),
        ),
        stats.updated(evicted(window, max_len), value).sum_of_squares == total_of_squares(
            slid(window, max_len, value),
        ),
{
    lemma_total_slides(window, max_len, value);
}

/// Where the running sums are those of `count` values and the integers can
/// take the division without overflow, the mean is the sum over the count,
/// and the variance the sum of the squares over the count less the square of
/// the mean, each quotient rounded toward zero.
pub proof fn lemma_average_variance_exact(stats: StatsView<i64>, window: Seq<i64>, len: usize)
    requires
        0 < len == window.len(),
        stats.sum_of_values == total(window),
        stats.sum_of_squares == total_of_squares(window),
        stats.can_average(len),
    ensures
        stats.average_variance(len).0 == quotient(total(window), len as int),
        stats.average_variance(len).1 == quotient(total_of_squares(window), len as int)
            - quotient(total(window), len as int) * quotient(total(window), len as int),
{
    let count = window.len() as int;
    let sum = total(window);
    let squares = total_of_squares(window);
    if sum >= 0 {
        lemma_div_pos_is_pos(sum, count);
        lemma_div_nonincreasing(sum, count);
    } else {
        lemma_div_pos_is_pos(-sum, count);
        lemma_div_nonincreasing(-sum, count);
    }
    if squares >= 0 {
        lemma_div_pos_is_pos(squares, count);
        lemma_div_nonincreasing(squares, count);
    } else {
        lemma_div_pos_is_pos(-squares, count);
        lemma_div_nonincreasing(-squares, count);
    }
}

/// What a stats has become beside a window after the first `n` of a stream
/// of small values: its running sums are those of the window.
proof fn lemma_small_stats_prefix(items: Seq<i64>, max_len: nat, n: int)
    requires
        small(items),
        0 < max_len <= i32::MAX,
        0 <= n <= items.len(),
    ensures
        small(window_of(items.take(n), max_len)),
        window_of(items.take(n), max_len).len() <= max_len,
        StatsView::<i64>::of(items.take(n), max_len).sum_of_values == total(
            window_of(items.take(n), max_len),
        ),
        StatsView::<i64>::of(items.take(n), max_len).sum_of_squares == total_of_squares(
            window_of(items.take(n), max_len),
        ),
        n < items.len() ==> StatsView::<i64>::of(items.take(n), max_len).can_update(
            evicted(window_of(items.take(n), max_len), max_len),
            items[n],
        ),
    decreases n,
{
    let prefix = items.take(n);
    let window = window_of(prefix, max_len);
    if n > 0 {
        let before = items.take(n - 1);
        let item = items[n - 1];
        assert(prefix.drop_last() =~= before);
        assert(prefix.last() == item);
        lemma_small_stats_prefix(items, max_len, n - 1);
        let older = window_of(before, max_len);
        lemma_update_balanced(StatsView::<i64>::of(before, max_len), older, max_len, item);
        assert forall|i: int| 0 <= i < window.len() implies -32768 <= #[trigger] window[i]
            <= 32768 by {
            if i > 0 {
                assert(window[i] == older[i - 1]);
            }
        }
    }
    lemma_window_of(prefix, max_len);
    if n < items.len() {
        let item = items[n];
        lemma_small_totals(window);
        assert(0 <= item * item <= 1073741824) by (nonlinear_arith)
            requires
                -32768 <= item <= 32768,
        ;
        if let Some(old_item) = evicted(window, max_len) {
            assert(old_item == window[window.len() - 1]);
            assert(0 <= old_item * old_item <= 1073741824) by (nonlinear_arith)
                requires
                    -32768 <= old_item <= 32768,
            ;
        }
    }
}

/// Beside a window of any capacity, a stats can take any stream of small
/// 64-bit integers without overflow, and its mean and variance are then
/// those of the items that the window holds, in integer arithmetic: the sum
/// over the count, and the sum of the squares over the count less the
/// square of the mean.
pub proof fn lemma_stats_of_small_stream(items: Seq<i64>, max_len: nat)
    requires
        small(items),
        0 < max_len <= i32::MAX,
        items.len() > 0,
    ensures
        StatsView::<i64>::can_follow(items, max_len),
        ({
            let stats = StatsView::<i64>::of(items, max_len);
            let window = window_of(items, max_len);
            let len = window.len() as usize;
            let mean = quotient(total(window), window.len() as int);
            &&& 0 < window.len() <= max_len
            &&& stats.sum_of_values == total(window)
            &&& stats.sum_of_squares == total_of_squares(window)
            &&& stats.can_average(len)
            &&& stats.average_variance(len).0 == mean
            &&& stats.average_variance(len).1 == quotient(
                total_of_squares(window),
                window.len() as int,
            ) - mean * mean
        }),
{
    assert forall|i: int| 0 <= i < items.len() implies StatsView::<i64>::of(
        #[trigger] items.take(i),
        max_len,
    ).can_update(evicted(window_of(items.take(i), max_len), max_len), items[i]) by {
        lemma_small_stats_prefix(items, max_len, i);
    }
    lemma_small_stats_prefix(items, max_len, items.len() as int);
    assert(items.take(items.len() as int) =~= items);
    let stats = StatsView::<i64>::of(items, max_len);
    let window = window_of(items, max_len);
    lemma_small_mean(stats, window);
    lemma_average_variance_exact(stats, window, window.len() as usize);
}

/// With exact sums over small values the integers can take the division,
/// and the mean is small.
proof fn lemma_small_mean(stats: StatsView<i64>, window: Seq<i64>)
    requires
        small(window),
        0 < window.len() <= i32::MAX,
        stats.sum_of_values == total(window),
        stats.sum_of_squares == total_of_squares(window),
    ensures
        stats.can_average(window.len() as usize),
        -32768 <= quotient(total(window), window.len() as int) <= 32768,
{
    let count = window.len() as int;
    let sum = total(window);
    let squares = total_of_squares(window);
    lemma_small_totals(window);
    let mean = quotient(sum, count);
    assert(-32768 <= mean <= 32768) by {
        lemma_div_multiples_vanish(32768, count);
        if sum >= 0 {
            lemma_div_pos_is_pos(sum, count);
            lemma_div_is_ordered(sum, count * 32768, count);
        } else {
            lemma_div_pos_is_pos(-sum, count);
            lemma_div_is_ordered(-sum, count * 32768, count);
        }
    }
    assert(0 <= mean * mean <= 1073741824) by (nonlinear_arith)
        requires
            -32768 <= mean <= 32768,
    ;
    assert(0 <= quotient(squares, count) <= squares) by {
        lemma_div_pos_is_pos(squares, count);
        lemma_div_nonincreasing(squares, count);
    }
}

/// The running sums stay the sums of the values in each window when a value
/// comes in that the integers can take without overflow.
pub proof fn lemma_push_balanced(symbol: SymbolView<i64>, value: i64)
    requires
        symbol.bounded(),
        symbol.balanced(),
        symbol.can_push(value),
    ensures
        symbol.pushed(value).bounded(),
        symbol.pushed(value).balanced(),
{
    let after = symbol.pushed(value);
    assert forall|i: int| 0 <= i < 8 implies {
        &&& (#[trigger] after.stats[i]).sum_of_values == total(recent(after.values, size(i + 1)))
        &&& after.stats[i].sum_of_squares == total_of_squares(
            recent(after.values, size(i + 1)),
        )
    } by {
        let n = size(i + 1);
        assert(symbol.stats[i].can_update(symbol.leaving(i + 1), value));
        assert(after.stats[i] == symbol.stats[i].updated(symbol.leaving(i + 1), value));
        lemma_recent_slides(symbol.values, value, n);
        lemma_update_balanced(symbol.stats[i], recent(symbol.values, n), n, value);
    }
}

/// The sums of small values are small enough.
proof fn lemma_small_totals(values: Seq<i64>)
    requires
        small(values),
    ensures
        -32768 * values.len() <= total(values) <= 32768 * values.len(),
        0 <= total_of_squares(values) <= 1073741824 * values.len(),
    decreases values.len(),
{
    if values.len() > 0 {
        let first = values.first();
        let rest = values.drop_first();
        assert(first == values[0]);
        assert forall|i: int| 0 <= i < rest.len() implies -32768 <= #[trigger] rest[i]
            <= 32768 by {
            assert(rest[i] == values[i + 1]);
        }
        lemma_small_totals(rest);
        assert(0 <= first * first <= 1073741824) by (nonlinear_arith)
            requires
                -32768 <= first <= 32768,
        ;
    }
}

/// A symbol of small values with exact sums can take one more small value.
proof fn lemma_small_can_push(symbol: SymbolView<i64>, value: i64)
    requires
        symbol.bounded(),
        symbol.balanced(),
        small(symbol.values),
        -32768 <= value <= 32768,
    ensures
        symbol.can_push(value),
        small(symbol.pushed(value).values),
{
    assert(0 <= value * value <= 1073741824) by (nonlinear_arith)
        requires
            -32768 <= value <= 32768,
    ;
    assert forall|i: int| 0 <= i < 8 implies (#[trigger] symbol.stats[i]).can_update(
        symbol.leaving(i + 1),
        value,
    ) by {
        let window = recent(symbol.values, size(i + 1));
        assert(small(window));
        lemma_small_totals(window);
        if let Some(old_item) = symbol.leaving(i + 1) {
            assert(old_item == window[window.len() - 1]);
            assert(0 <= old_item * old_item <= 1073741824) by (nonlinear_arith)
                requires
                    -32768 <= old_item <= 32768,
            ;
        }
    }
    let after = symbol.pushed(value).values;
    assert forall|i: int| 0 <= i < after.len() implies -32768 <= #[trigger] after[i]
        <= 32768 by {
        if i > 0 {
            assert(after[i] == symbol.values[i - 1]);
        }
    }
}

/// What a fresh symbol has become after the first `n` of a stream of small
/// values: its sums are exact and it holds small values only.
proof fn lemma_small_prefix(values: Seq<i64>, n: int)
    requires
        small(values),
        0 <= n <= values.len(),
    ensures
        SymbolView::<i64>::fresh().ingested(values.take(n)).bounded(),
        SymbolView::<i64>::fresh().ingested(values.take(n)).balanced(),
        small(SymbolView::<i64>::fresh().ingested(values.take(n)).values),
    decreases n,
{
    let fresh = SymbolView::<i64>::fresh();
    if n == 0 {
        assert(recent(fresh.values, size(1)) == fresh.values);
    } else {
        let prefix = values.take(n);
        assert(prefix.drop_last() =~= values.take(n - 1));
        assert(prefix.last() == values[n - 1]);
        lemma_small_prefix(values, n - 1);
        let before = fresh.ingested(values.take(n - 1));
        lemma_small_can_push(before, values[n - 1]);
        lemma_push_balanced(before, values[n - 1]);
    }
}

/// A fresh symbol can take any stream of small 64-bit integers without
/// overflow, and its running sums are then exact: each of the eight stats
/// holds the sum, and the sum of the squares, of the values in its window.
pub proof fn lemma_small_stream_is_exact(values: Seq<i64>)
    requires
        small(values),
    ensures
        SymbolView::<i64>::fresh().can_ingest(values),
        SymbolView::<i64>::fresh().ingested(values).bounded(),
        SymbolView::<i64>::fresh().ingested(values).balanced(),
        small(SymbolView::<i64>::fresh().ingested(values).values),
{
    let fresh = SymbolView::<i64>::fresh();
    assert forall|i: int| 0 <= i < values.len() implies fresh.ingested(
        #[trigger] values.take(i),
    ).can_push(values[i]) by {
        lemma_small_prefix(values, i);
        lemma_small_can_push(fresh.ingested(values.take(i)), values[i]);
    }
    lemma_small_prefix(values, values.len() as int);
    assert(values.take(values.len() as int) =~= values);
}

/// Where the running sums are exact and the values small, the integers can
/// take the division, and the mean and the variance of a summary are those
/// of the values in its window, in integer arithmetic: the sum over the
/// count, and the sum of the squares over the count less the square of the
/// mean.
pub proof fn lemma_exact_summary(symbol: SymbolView<i64>, k: int)
    requires
        symbol.bounded(),
        symbol.balanced(),
        small(symbol.values),
        symbol.values.len() > 0,
        1 <= k <= 8,
    ensures
        symbol.can_summarize(k),
        symbol.summary(k) matches Some(numbers) && {
            let window = recent(symbol.values, size(k));
            let mean = quotient(total(window), window.len() as int);
            &&& numbers.len() == 5
            &&& numbers[3] == mean
            &&& numbers[4] == quotient(total_of_squares(window), window.len() as int) - mean
                * mean
        },
{
    let window = recent(symbol.values, size(k));
    assert(symbol.stats[k - 1].sum_of_values == total(window));
    assert(small(window));
    lemma_small_mean(symbol.stats[k - 1], window);
    lemma_average_variance_exact(symbol.stats[k - 1], window, window.len() as usize);
}

/// After any stream of small 64-bit integers, and for every `k`, the mean
/// and the variance in the summary of a symbol that was fresh are those of
/// the `10^k` last values of the stream, or of all if they are fewer,
/// computed afresh in integer arithmetic.
pub proof fn lemma_moments_of_small_stream(values: Seq<i64>, k: int)
    requires
        small(values),
        values.len() > 0,
        1 <= k <= 8,
    ensures
        SymbolView::<i64>::fresh().can_ingest(values),
        SymbolView::<i64>::fresh().ingested(values).can_summarize(k),
        SymbolView::<i64>::fresh().ingested(values).summary(k) matches Some(numbers) && {
            let window = recent(values.reverse(), size(k));
            let mean = quotient(total(window), window.len() as int);
            &&& numbers.len() == 5
            &&& numbers[3] == mean
            &&& numbers[4] == quotient(total_of_squares(window), window.len() as int) - mean
                * mean
        },
{
    let symbol = SymbolView::<i64>::fresh().ingested(values);
    lemma_small_stream_is_exact(values);
    lemma_values_of_stream(values);
    assert(recent(symbol.values, size(k)) =~= recent(values.reverse(), size(k)));
    lemma_exact_summary(symbol, k);
}

} // verus!
