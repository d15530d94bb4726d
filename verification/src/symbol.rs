use crate::extremum::{candidates, is_extremum};
use crate::fanout::{lemma_push_follows, lemma_summary_of_recent_values, lemma_values_after};
use crate::min_max_deque::Extremum;
use crate::number::{counted, specified, Number};
use crate::order::ordered;
use crate::stats::{Stats, StatsView};
use crate::window::{evicted, recent, slid, Window};
use crate::{K1, K2, K3, K4, K5, K6, K7, K8};
use vstd::prelude::*;

verus! {

/// The size of the window that `k` selects: ten to the power `k`, for `k`
/// from 1 to 8.
pub open spec fn size(k: int) -> nat {
    if k <= 1 {
        K1 as nat
    } else if k == 2 {
        K2 as nat
    } else if k == 3 {
        K3 as nat
    } else if k == 4 {
        K4 as nat
    } else if k == 5 {
        K5 as nat
    } else if k == 6 {
        K6 as nat
    } else if k == 7 {
        K7 as nat
    } else {
        K8 as nat
    }
}

/// What a `Symbol` holds: its values, newest first, and the stats of its
/// eight windows, the smallest first.
pub struct SymbolView<T> {
    pub values: Seq<T>,
    pub stats: Seq<StatsView<T>>,
}

impl<T: Number> SymbolView<T> {
    /// The symbol holds no more values than its largest window takes, and
    /// has its eight stats.
    pub open spec fn bounded(self) -> bool {
        self.values.len() <= K8 && self.stats.len() == 8
    }

    /// Each of the eight stats holds the two deques of its own window: those
    /// of the `10^k` most recent values.
    pub open spec fn follows(self) -> bool {
        forall|i: int|
            0 <= i < 8 ==> {
                &&& (#[trigger] self.stats[i]).min_deque == candidates(
                    Extremum::Min,
                    recent(self.values, size(i + 1)),
                )
                &&& self.stats[i].max_deque == candidates(
                    Extremum::Max,
                    recent(self.values, size(i + 1)),
                )
            }
    }

    /// A symbol that has seen no value.
    pub open spec fn fresh() -> SymbolView<T> {
        SymbolView { values: Seq::empty(), stats: Seq::new(8, |i: int| StatsView::<T>::empty()) }
    }

    /// The value that leaves the window that `k` selects when one more
    /// value comes in.
    pub open spec fn leaving(self, k: int) -> Option<T> {
        evicted(recent(self.values, size(k)), size(k))
    }

    /// The state after `value` came in: it is the newest value, and each of
    /// the eight stats saw it come and saw the value leave that its own
    /// window lost.
    pub open spec fn pushed(self, value: T) -> SymbolView<T> {
        SymbolView {
            values: slid(self.values, K8 as nat, value),
            stats: Seq::new(8, |i: int| self.stats[i].updated(self.leaving(i + 1), value)),
        }
    }

    /// `T` can compute `pushed(value)`.
    pub open spec fn can_push(self, value: T) -> bool {
        forall|i: int| 0 <= i < 8 ==> (#[trigger] self.stats[i]).can_update(self.leaving(i + 1), value)
    }

    /// The state after `values` came in, in their order.
    pub open spec fn ingested(self, values: Seq<T>) -> SymbolView<T>
        decreases values.len(),
    {
        if values.len() == 0 {
            self
        } else {
            self.ingested(values.drop_last()).pushed(values.last())
        }
    }

    /// `T` can compute `ingested(values)`: each value can be pushed onto the
    /// state that the values before it lead to.
    pub open spec fn can_ingest(self, values: Seq<T>) -> bool {
        forall|i: int|
            0 <= i < values.len() ==> self.ingested(#[trigger] values.take(i)).can_push(values[i])
    }

    /// The number of values in the window that `k` selects.
    pub open spec fn count(self, k: int) -> nat {
        recent(self.values, size(k)).len()
    }

    /// `[min, max, last, average, variance]` over the window that `k`
    /// selects, if the symbol has seen a value. The minimum and the maximum
    /// are zero should the stats of that window have none.
    pub open spec fn summary(self, k: int) -> Option<Seq<T>> {
        if self.values.len() == 0 {
            None
        } else {
            let stats = self.stats[k - 1];
            let (min, max) = match stats.min_max() {
                Some(min_max) => min_max,
                None => (counted::<T>(0i32), counted::<T>(0i32)),
            };
            let (average, variance) = stats.average_variance(self.count(k) as usize);
            Some(seq![min, max, self.values.first(), average, variance])
        }
    }

    /// `T` can compute `summary(k)`.
    pub open spec fn can_summarize(self, k: int) -> bool {
        self.values.len() > 0 ==> self.stats[k - 1].can_average(self.count(k) as usize)
    }
}

/// Values and stats for a symbol.
pub struct Symbol<T: Number> {
    values: Window<T>,
    stats: [Stats<T>; 8],
}

impl<T: Number> View for Symbol<T> {
    type V = SymbolView<T>;

    closed spec fn view(&self) -> SymbolView<T> {
        SymbolView { values: self.values@, stats: Seq::new(8, |i: int| self.stats[i]@) }
    }
}

impl<T: Number> Default for Symbol<T> {
    fn default() -> (symbol: Self)
        ensures
            symbol.wf(),
            symbol@.values.len() == 0,
            forall|k: int| symbol@.summary(k).is_none(),
            specified::<T>() ==> symbol@ == SymbolView::<T>::fresh(),
    {
        let symbol = Symbol {
            values: Window::new(K8),
            stats: [
                Stats::default(),
                Stats::default(),
                Stats::default(),
                Stats::default(),
                Stats::default(),
                Stats::default(),
                Stats::default(),
                Stats::default(),
            ],
        };
        assert(specified::<T>() ==> symbol@.stats =~= SymbolView::<T>::fresh().stats);
        assert forall|i: int| 0 <= i < 8 implies {
            &&& (#[trigger] symbol@.stats[i]).min_deque == candidates(
                Extremum::Min,
                recent(symbol@.values, size(i + 1)),
            )
            &&& symbol@.stats[i].max_deque == candidates(
                Extremum::Max,
                recent(symbol@.values, size(i + 1)),
            )
        } by {
            assert(symbol@.stats[i].min_deque =~= Seq::<T>::empty());
            assert(symbol@.stats[i].max_deque =~= Seq::<T>::empty());
        }
        symbol
    }
}

/// Returns ten to the power `k`.
fn window_size(k: usize) -> (n: usize)
    requires
        1 <= k <= 8,
    ensures
        n == size(k as int),
{
    if k == 1 {
        K1
    } else if k == 2 {
        K2
    } else if k == 3 {
        K3
    } else if k == 4 {
        K4
    } else if k == 5 {
        K5
    } else if k == 6 {
        K6
    } else if k == 7 {
        K7
    } else {
        K8
    }
}

/// Returns the value at `index` of `values`, if there is one.
fn lookback<T: Copy>(values: &Window<T>, index: usize) -> (value: Option<T>)
    ensures
        value == if index < values@.len() {
            Some(values@[index as int])
        } else {
            None
        },
{
    match values.get(index) {
        Some(value) => Some(*value),
        None => None,
    }
}

/// After a push, the value that a smaller window lost sits right behind it.
proof fn lemma_lookback<T>(values: Seq<T>, max_len: nat, value: T, n: nat)
    requires
        0 < n < max_len,
        values.len() <= max_len,
    ensures
        evicted(recent(values, n), n) == if n < slid(values, max_len, value).len() {
            Some(slid(values, max_len, value)[n as int])
        } else {
            None
        },
{
}

impl<T: Number> Symbol<T> {
    /// The symbol holds at most `K8` values and, where `T` is ordered, each
    /// of its stats holds the deques of its own window.
    pub closed spec fn wf(&self) -> bool {
        &&& self.values.wf()
        &&& self.values.max_len() == K8
        &&& ordered::<T>() ==> self@.follows()
    }

    /// What a well-formed symbol holds.
    pub proof fn lemma_wf(&self)
        requires
            self.wf(),
        ensures
            self@.bounded(),
            ordered::<T>() ==> self@.follows(),
    {
    }

    /// Returns the values, newest first.
    pub fn values(&self) -> (values: &Window<T>)
        ensures
            values@ == self@.values,
    {
        &self.values
    }

    /// Returns the stats of the window that `k` selects.
    pub fn window_stats(&self, k: usize) -> (stats: &Stats<T>)
        requires
            1 <= k <= 8,
        ensures
            stats@ == self@.stats[k - 1],
    {
        &self.stats[k - 1]
    }

    /// Returns `[min, max, last, average, variance]` for `k`.
    pub fn stats(&self, k: usize) -> (stats: Option<[T; 5]>)
        requires
            1 <= k <= 8,
            specified::<T>(),
            self.wf(),
            self@.can_summarize(k as int),
        ensures
            stats.is_some() <==> self@.values.len() > 0,
            match stats {
                Some(numbers) => {
                    &&& self@.summary(k as int) == Some(numbers@)
                    &&& numbers[2] == self@.values.first()
                    &&& ordered::<T>() ==> is_extremum(
                        Extremum::Min,
                        numbers[0],
                        recent(self@.values, size(k as int)),
                    ) && is_extremum(
                        Extremum::Max,
                        numbers[1],
                        recent(self@.values, size(k as int)),
                    )
                },
                None => self@.summary(k as int).is_none(),
            },
    {
        if self.values.is_empty() {
            return None;
        }
        proof {
            if ordered::<T>() {
                lemma_summary_of_recent_values(self@, k as int);
            }
        }
        let stats = &self.stats[k - 1];
        let (min, max) = match stats.min_max() {
            Some(min_max) => min_max,
            None => (T::from(0i32), T::from(0i32)),
        };
        let size = window_size(k);
        let len = if self.values.len() < size {
            self.values.len()
        } else {
            size
        };
        let (average, variance) = stats.average_variance(len);
        let last = match self.values.get(0) {
            Some(value) => *value,
            None => T::from(0i32),
        };
        let numbers = [min, max, last, average, variance];
        assert(numbers@ =~= seq![min, max, last, average, variance]);
        Some(numbers)
    }

    /// Adds `values` for that symbol.
    pub fn add_batch(&mut self, values: &[T])
        requires
            specified::<T>(),
            old(self).wf(),
            old(self)@.can_ingest(values@),
        ensures
            final(self).wf(),
            final(self)@ == old(self)@.ingested(values@),
            final(self)@.values == recent(values@.reverse() + old(self)@.values, K8 as nat),
    {
        proof {
            lemma_values_after(old(self)@, values@);
        }
        let mut index: usize = 0;
        while index < values.len()
            invariant
                specified::<T>(),
                self.wf(),
                index <= values@.len(),
                old(self)@.can_ingest(values@),
                self@ == old(self)@.ingested(values@.take(index as int)),
            decreases values@.len() - index,
        {
            assert(values@.take(index + 1).drop_last() == values@.take(index as int));
            self.push(values[index]);
            index += 1;
        }
        assert(values@.take(index as int) == values@);
    }

    /// Adds `value`: it goes into the window, and each of the eight stats is
    /// told of it and of the value that its own window lost.
    fn push(&mut self, value: T)
        requires
            specified::<T>(),
            old(self).wf(),
            old(self)@.can_push(value),
        ensures
            final(self).wf(),
            final(self)@ == old(self)@.pushed(value),
    {
        let ghost before = self@;
        proof {
            assert forall|i: int| 0 <= i < 8 implies (#[trigger] before.stats[i]).can_update(
                before.leaving(i + 1),
                value,
            ) by {}
            assert(recent(before.values, K8 as nat) == before.values);
            lemma_lookback(before.values, K8 as nat, value, K1 as nat);
            lemma_lookback(before.values, K8 as nat, value, K2 as nat);
            lemma_lookback(before.values, K8 as nat, value, K3 as nat);
            lemma_lookback(before.values, K8 as nat, value, K4 as nat);
            lemma_lookback(before.values, K8 as nat, value, K5 as nat);
            lemma_lookback(before.values, K8 as nat, value, K6 as nat);
            lemma_lookback(before.values, K8 as nat, value, K7 as nat);
        }
        let old_item = self.values.push(value);
        assert(self.stats[7]@ == before.stats[7]);
        self.stats[7].update(old_item, value);
        let old_item = lookback(&self.values, K7);
        assert(self.stats[6]@ == before.stats[6]);
        self.stats[6].update(old_item, value);
        let old_item = lookback(&self.values, K6);
        assert(self.stats[5]@ == before.stats[5]);
        self.stats[5].update(old_item, value);
        let old_item = lookback(&self.values, K5);
        assert(self.stats[4]@ == before.stats[4]);
        self.stats[4].update(old_item, value);
        let old_item = lookback(&self.values, K4);
        assert(self.stats[3]@ == before.stats[3]);
        self.stats[3].update(old_item, value);
        let old_item = lookback(&self.values, K3);
        assert(self.stats[2]@ == before.stats[2]);
        self.stats[2].update(old_item, value);
        let old_item = lookback(&self.values, K2);
        assert(self.stats[1]@ == before.stats[1]);
        self.stats[1].update(old_item, value);
        let old_item = lookback(&self.values, K1);
        assert(self.stats[0]@ == before.stats[0]);
        self.stats[0].update(old_item, value);
        proof {
            assert(self@.stats =~= before.pushed(value).stats);
            if ordered::<T>() {
                lemma_push_follows(before, value);
            }
        }
    }
}

} // verus!
