use crate::extremum::{
    candidates, is_extremum, lemma_deque_follows_window, lemma_front_is_extremum,
};
use crate::min_max_deque::{updated, Extremum, MaxDeque, MinDeque};
use crate::number::{can_replace, counted, replaced, specified, squared, Number};
use crate::order::ordered;
use crate::window::{evicted, lemma_window_of, window_of};
use vstd::prelude::*;
use vstd::std_specs::ops::{DivSpec, MulSpec, SubSpec};

verus! {

/// What a `Stats` holds: the two monotonic deques, front first, and the two
/// running sums.
pub struct StatsView<T> {
    pub min_deque: Seq<T>,
    pub max_deque: Seq<T>,
    pub sum_of_values: T,
    pub sum_of_squares: T,
}

impl<T: Number> StatsView<T> {
    /// Nothing seen yet.
    pub open spec fn empty() -> StatsView<T> {
        StatsView {
            min_deque: Seq::empty(),
            max_deque: Seq::empty(),
            sum_of_values: counted(0i32),
            sum_of_squares: counted(0i32),
        }
    }

    /// The stats beside a window of capacity `max_len` once `items` have
    /// come in their order: empty at first, then updated with each item and
    /// with what the window lost to it.
    pub open spec fn of(items: Seq<T>, max_len: nat) -> StatsView<T>
        decreases items.len(),
    {
        if items.len() == 0 {
            Self::empty()
        } else {
            Self::of(items.drop_last(), max_len).updated(
                evicted(window_of(items.drop_last(), max_len), max_len),
                items.last(),
            )
        }
    }

    /// `T` can compute `of(items, max_len)`: each update on the way.
    pub open spec fn can_follow(items: Seq<T>, max_len: nat) -> bool {
        forall|i: int|
            0 <= i < items.len() ==> Self::of(#[trigger] items.take(i), max_len).can_update(
                evicted(window_of(items.take(i), max_len), max_len),
                items[i],
            )
    }

    /// The fronts of the two deques, if both have one.
    pub open spec fn min_max(self) -> Option<(T, T)> {
        if self.min_deque.len() > 0 && self.max_deque.len() > 0 {
            Some((self.min_deque.first(), self.max_deque.first()))
        } else {
            None
        }
    }

    /// The mean and the variance of `len` values with these sums:
    /// `sum_of_values / len` and `sum_of_squares / len - mean * mean`.
    pub open spec fn average_variance(self, len: usize) -> (T, T) {
        let count = counted::<T>(len as i32);
        let average = self.sum_of_values.div_spec(count);
        (average, self.sum_of_squares.div_spec(count).sub_spec(squared(average)))
    }

    /// `T` can compute `average_variance(len)`: `len` converts, and for a
    /// machine integer `len` is not zero and no step overflows.
    pub open spec fn can_average(self, len: usize) -> bool {
        let count = counted::<T>(len as i32);
        let average = self.sum_of_values.div_spec(count);
        &&& len <= i32::MAX
        &&& self.sum_of_values.div_req(count)
        &&& self.sum_of_squares.div_req(count)
        &&& average.mul_req(average)
        &&& self.sum_of_squares.div_spec(count).sub_req(squared(average))
    }

    /// The state after `old_item` left the window, if one did, and
    /// `new_item` came in.
    pub open spec fn updated(self, old_item: Option<T>, new_item: T) -> StatsView<T> {
        StatsView {
            min_deque: updated(Extremum::Min, self.min_deque, old_item, new_item),
            max_deque: updated(Extremum::Max, self.max_deque, old_item, new_item),
            sum_of_values: replaced(self.sum_of_values, old_item, new_item),
            sum_of_squares: replaced(
                self.sum_of_squares,
                match old_item {
                    Some(value) => Some(squared(value)),
                    None => None,
                },
                squared(new_item),
            ),
        }
    }

    /// `T` can compute `updated(old_item, new_item)`: for a machine integer,
    /// no step overflows.
    pub open spec fn can_update(self, old_item: Option<T>, new_item: T) -> bool {
        &&& new_item.mul_req(new_item)
        &&& can_replace(self.sum_of_values, old_item, new_item)
        &&& match old_item {
            Some(value) => value.mul_req(value) && can_replace(
                self.sum_of_squares,
                Some(squared(value)),
                squared(new_item),
            ),
            None => can_replace(self.sum_of_squares, None, squared(new_item)),
        }
    }
}

/// Stats for a symbol.
pub struct Stats<T: Number> {
    min_deq: MinDeque<T>,
    max_deq: MaxDeque<T>,
    sum_of_values: T,
    sum_of_squares: T,
}

impl<T: Number> View for Stats<T> {
    type V = StatsView<T>;

    closed spec fn view(&self) -> StatsView<T> {
        StatsView {
            min_deque: self.min_deq@,
            max_deque: self.max_deq@,
            sum_of_values: self.sum_of_values,
            sum_of_squares: self.sum_of_squares,
        }
    }
}

impl<T: Number> Default for Stats<T> {
    fn default() -> (stats: Self)
        ensures
            stats@.min_deque.len() == 0,
            stats@.max_deque.len() == 0,
            specified::<T>() ==> stats@ == StatsView::<T>::empty(),
    {
        Stats {
            min_deq: MinDeque::default(),
            max_deq: MaxDeque::default(),
            sum_of_values: T::from(0i32),
            sum_of_squares: T::from(0i32),
        }
    }
}

impl<T: Number> Stats<T> {
    /// Returns the current `(min, max)`.
    pub fn min_max(&self) -> (min_max: Option<(T, T)>)
        ensures
            min_max == self@.min_max(),
    {
        match (self.min_deq.min(), self.max_deq.max()) {
            (Some(min), Some(max)) => Some((*min, *max)),
            _ => None,
        }
    }

    /// Returns the current `(average, variance)`.
    pub fn average_variance(&self, len: usize) -> (average_variance: (T, T))
        requires
            specified::<T>(),
            self@.can_average(len),
        ensures
            average_variance == self@.average_variance(len),
    {
        let average = self.sum_of_values / T::from(len as i32);
        let variance = (self.sum_of_squares / T::from(len as i32)) - (average * average);
        (average, variance)
    }

    /// Updates this `Stats` with `old_item` and `new_item` values.
    pub fn update(&mut self, old_item: Option<T>, new_item: T)
        requires
            specified::<T>(),
            old(self)@.can_update(old_item, new_item),
        ensures
            final(self)@ == old(self)@.updated(old_item, new_item),
            final(self)@.min_deque.len() > 0,
            final(self)@.max_deque.len() > 0,
    {
        self.min_deq.update(old_item, new_item);
        self.max_deq.update(old_item, new_item);
        if let Some(value) = old_item {
            self.sum_of_values = self.sum_of_values - value;
            self.sum_of_squares = self.sum_of_squares - value * value;
        }
        self.sum_of_values = self.sum_of_values + new_item;
        self.sum_of_squares = self.sum_of_squares + new_item * new_item;
    }
}

/// Beside a window of any capacity and after any stream of items, the two
/// deques of a stats are those of the window, and so the minimum and the
/// maximum that the stats reports are the least and the greatest of the
/// items that the window holds.
pub proof fn lemma_stats_hold_extrema<T: Number>(items: Seq<T>, max_len: nat)
    requires
        ordered::<T>(),
        0 < max_len,
    ensures
        StatsView::<T>::of(items, max_len).min_deque == candidates(
            Extremum::Min,
            window_of(items, max_len),
        ),
        StatsView::<T>::of(items, max_len).max_deque == candidates(
            Extremum::Max,
            window_of(items, max_len),
        ),
        items.len() > 0 ==> (StatsView::<T>::of(items, max_len).min_max() matches Some(min_max)
            && is_extremum(Extremum::Min, min_max.0, window_of(items, max_len)) && is_extremum(
            Extremum::Max,
            min_max.1,
            window_of(items, max_len),
        )),
    decreases items.len(),
{
    if items.len() > 0 {
        let before = items.drop_last();
        let window = window_of(before, max_len);
        lemma_stats_hold_extrema(before, max_len);
        lemma_window_of(before, max_len);
        lemma_deque_follows_window(Extremum::Min, window, max_len, items.last());
        lemma_deque_follows_window(Extremum::Max, window, max_len, items.last());
        lemma_front_is_extremum(Extremum::Min, window_of(items, max_len));
        lemma_front_is_extremum(Extremum::Max, window_of(items, max_len));
    }
}

} // verus!
