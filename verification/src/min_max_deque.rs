use crate::order::{above, alike, below, comparable};
use std::collections::VecDeque;
use vstd::prelude::*;

verus! {

/// Which end of the order a monotonic deque keeps at its front.
pub enum Extremum {
    Min,
    Max,
}

/// `a` cannot be the extremum while `b` is around: it is greater than `b`
/// on the `Min` side, less than `b` on the `Max` side.
pub open spec fn beaten<T: PartialOrd>(side: Extremum, a: T, b: T) -> bool {
    match side {
        Extremum::Min => above(a, b),
        Extremum::Max => below(a, b),
    }
}

/// The deque (front first) after `value` is pushed: every item at the back
/// that `value` beats is dropped, then `value` joins at the back. An item
/// equal to `value` stays.
pub open spec fn pushed<T: PartialOrd>(side: Extremum, deque: Seq<T>, value: T) -> Seq<T>
    decreases deque.len(),
{
    if deque.len() > 0 && beaten(side, deque.last(), value) {
        pushed(side, deque.drop_last(), value)
    } else {
        deque.push(value)
    }
}

/// The deque (front first) after `value` left the window: the front is
/// dropped if it equals `value`.
pub open spec fn removed<T: PartialOrd>(deque: Seq<T>, value: T) -> Seq<T> {
    if deque.len() > 0 && alike(value, deque.first()) {
        deque.drop_first()
    } else {
        deque
    }
}

/// The deque (front first) after `old_item` is removed, if there is one,
/// and `new_item` is pushed.
pub open spec fn updated<T: PartialOrd>(
    side: Extremum,
    deque: Seq<T>,
    old_item: Option<T>,
    new_item: T,
) -> Seq<T> {
    match old_item {
        Some(value) => pushed(side, removed(deque, value), new_item),
        None => pushed(side, deque, new_item),
    }
}

/// A monotonic min deque.
pub struct MinDeque<T: PartialOrd>(VecDeque<T>);

impl<T: PartialOrd> View for MinDeque<T> {
    type V = Seq<T>;

    /// The items held, front first.
    closed spec fn view(&self) -> Seq<T> {
        self.0@
    }
}

impl<T: PartialOrd> Default for MinDeque<T> {
    fn default() -> (deque: Self)
        ensures
            deque@ == Seq::<T>::empty(),
    {
        MinDeque(VecDeque::new())
    }
}

impl<T: PartialOrd> MinDeque<T> {
    /// Returns the minimum value.
    pub fn min(&self) -> (front: Option<&T>)
        ensures
            front == if self@.len() > 0 {
                Some(&self@.first())
            } else {
                None
            },
    {
        if self.0.len() > 0 {
            Some(&self.0[0])
        } else {
            None
        }
    }

    /// Removes `old_item` then pushes `new_item`.
    pub fn update(&mut self, old_item: Option<T>, new_item: T)
        ensures
            final(self)@.len() > 0,
            final(self)@.last() == new_item,
            comparable::<T>() ==> final(self)@ == updated(
                Extremum::Min,
                old(self)@,
                old_item,
                new_item,
            ),
    {
        if let Some(value) = old_item {
            self.remove(value);
        }
        self.push(new_item);
    }

    /// Pushes `value`.
    fn push(&mut self, value: T)
        ensures
            final(self)@.len() > 0,
            final(self)@.last() == value,
            comparable::<T>() ==> final(self)@ == pushed(Extremum::Min, old(self)@, value),
    {
        while self.0.len() > 0 && self.0[self.0.len() - 1] > value
            invariant
                comparable::<T>() ==> pushed(Extremum::Min, self.0@, value) == pushed(
                    Extremum::Min,
                    old(self).0@,
                    value,
                ),
            decreases self.0@.len(),
        {
            self.0.pop_back();
        }
        self.0.push_back(value);
    }

    /// Removes `value`.
    fn remove(&mut self, value: T)
        ensures
            comparable::<T>() ==> final(self)@ == removed(old(self)@, value),
    {
        if self.0.len() > 0 && value == self.0[0] {
            self.0.pop_front();
        }
    }
}

/// A monotonic max deque.
pub struct MaxDeque<T: PartialOrd>(VecDeque<T>);

impl<T: PartialOrd> View for MaxDeque<T> {
    type V = Seq<T>;

    /// The items held, front first.
    closed spec fn view(&self) -> Seq<T> {
        self.0@
    }
}

impl<T: PartialOrd> Default for MaxDeque<T> {
    fn default() -> (deque: Self)
        ensures
            deque@ == Seq::<T>::empty(),
    {
        MaxDeque(VecDeque::new())
    }
}

impl<T: PartialOrd> MaxDeque<T> {
    /// Returns the maximum value.
    pub fn max(&self) -> (front: Option<&T>)
        ensures
            front == if self@.len() > 0 {
                Some(&self@.first())
            } else {
                None
            },
    {
        if self.0.len() > 0 {
            Some(&self.0[0])
        } else {
            None
        }
    }

    /// Removes `old_item` then pushes `new_item`.
    pub fn update(&mut self, old_item: Option<T>, new_item: T)
        ensures
            final(self)@.len() > 0,
            final(self)@.last() == new_item,
            comparable::<T>() ==> final(self)@ == updated(
                Extremum::Max,
                old(self)@,
                old_item,
                new_item,
            ),
    {
        if let Some(value) = old_item {
            self.remove(value);
        }
        self.push(new_item);
    }

    /// Pushes `value`.
    fn push(&mut self, value: T)
        ensures
            final(self)@.len() > 0,
            final(self)@.last() == value,
            comparable::<T>() ==> final(self)@ == pushed(Extremum::Max, old(self)@, value),
    {
        while self.0.len() > 0 && self.0[self.0.len() - 1] < value
            invariant
                comparable::<T>() ==> pushed(Extremum::Max, self.0@, value) == pushed(
                    Extremum::Max,
                    old(self).0@,
                    value,
                ),
            decreases self.0@.len(),
        {
            self.0.pop_back();
        }
        self.0.push_back(value);
    }

    /// Removes `value`.
    fn remove(&mut self, value: T)
        ensures
            comparable::<T>() ==> final(self)@ == removed(old(self)@, value),
    {
        if self.0.len() > 0 && value == self.0[0] {
            self.0.pop_front();
        }
    }
}

} // verus!
