use std::collections::VecDeque;
use vstd::prelude::*;

verus! {

/// The item that leaves a window of capacity `max_len` holding `items`
/// (newest first) when one more item is pushed: the oldest, once the window
/// is full.
pub open spec fn evicted<T>(items: Seq<T>, max_len: nat) -> Option<T> {
    if items.len() > 0 && items.len() >= max_len {
        Some(items.last())
    } else {
        None
    }
}

/// The contents (newest first) of a window of capacity `max_len` holding
/// `items` after `item` is pushed.
pub open spec fn slid<T>(items: Seq<T>, max_len: nat, item: T) -> Seq<T> {
    if items.len() > 0 && items.len() >= max_len {
        seq![item] + items.drop_last()
    } else {
        seq![item] + items
    }
}

/// The `n` most recent of `items` (newest first), or all of them if there
/// are fewer.
pub open spec fn recent<T>(items: Seq<T>, n: nat) -> Seq<T> {
    if items.len() <= n {
        items
    } else {
        items.take(n as int)
    }
}

/// What a window of capacity `max_len` holds, newest first, once `items`
/// have been pushed in their order.
pub open spec fn window_of<T>(items: Seq<T>, max_len: nat) -> Seq<T>
    decreases items.len(),
{
    if items.len() == 0 {
        Seq::empty()
    } else {
        slid(window_of(items.drop_last(), max_len), max_len, items.last())
    }
}

/// The most recent items once a newer one stands in front are what a window
/// of their number holds after that item is pushed.
pub proof fn lemma_recent_of_newer<T>(items: Seq<T>, item: T, n: nat)
    requires
        0 < n,
    ensures
        recent(seq![item] + items, n) == slid(recent(items, n), n, item),
{
    if items.len() >= n {
        assert(recent(seq![item] + items, n) =~= seq![item] + recent(items, n).drop_last());
    }
}

/// A window never holds more than its capacity, and what it holds is the
/// most recent of the items pushed, the last first.
pub proof fn lemma_window_of<T>(items: Seq<T>, max_len: nat)
    requires
        0 < max_len,
    ensures
        window_of(items, max_len).len() <= max_len,
        window_of(items, max_len) == recent(items.reverse(), max_len),
    decreases items.len(),
{
    if items.len() == 0 {
        assert(items.reverse() =~= Seq::<T>::empty());
    } else {
        let before = items.drop_last();
        lemma_window_of(before, max_len);
        assert(items.reverse() =~= seq![items.last()] + before.reverse());
        lemma_recent_of_newer(before.reverse(), items.last(), max_len);
    }
}

/// A sliding window with a length limit.
///
/// Items are indexed in reverse chronological order: index 0 is the item
/// pushed last.
pub struct Window<T> {
    max_len: usize,
    items: VecDeque<T>,
}

impl<T> View for Window<T> {
    type V = Seq<T>;

    /// The items held, newest first.
    closed spec fn view(&self) -> Seq<T> {
        self.items@
    }
}

impl<T> Window<T> {
    /// The length limit the window was made with.
    pub closed spec fn max_len(&self) -> nat {
        self.max_len as nat
    }

    /// The limit is positive and the window never holds more items than that.
    pub open spec fn wf(&self) -> bool {
        0 < self.max_len() && self@.len() <= self.max_len()
    }

    /// Creates a new `Window` with (non-zero) `max_len`.
    pub fn new(max_len: usize) -> (window: Self)
        requires
            max_len > 0,
        ensures
            window.wf(),
            window@ == Seq::<T>::empty(),
            window.max_len() == max_len,
    {
        Window { max_len, items: VecDeque::with_capacity(max_len) }
    }

    /// Returns the length of the `Window`.
    pub fn len(&self) -> (len: usize)
        ensures
            len == self@.len(),
    {
        self.items.len()
    }

    /// Returns `true` if the `Window` is empty.
    pub fn is_empty(&self) -> (empty: bool)
        ensures
            empty == (self@.len() == 0),
    {
        self.len() == 0
    }

    /// Returns the item at `index` (in reverse chronological order).
    pub fn get(&self, index: usize) -> (item: Option<&T>)
        ensures
            item == if index < self@.len() {
                Some(&self@[index as int])
            } else {
                None
            },
    {
        if index < self.items.len() {
            Some(&self.items[index])
        } else {
            None
        }
    }

    /// Returns the items (in reverse chronological order).
    pub fn iter(&self) -> (items: Vec<&T>)
        ensures
            items@.len() == self@.len(),
            forall|i: int| 0 <= i < self@.len() ==> *items@[i] == self@[i],
    {
        let mut items: Vec<&T> = Vec::new();
        let mut index: usize = 0;
        while index < self.items.len()
            invariant
                index <= self.items@.len(),
                items@.len() == index,
                forall|i: int| 0 <= i < index ==> *items@[i] == self.items@[i],
            decreases self.items@.len() - index,
        {
            items.push(&self.items[index]);
            index += 1;
        }
        items
    }

    /// Adds `item` to the window, returning the old item at max length.
    pub fn push(&mut self, item: T) -> (old_item: Option<T>)
        requires
            old(self).wf(),
        ensures
            final(self).wf(),
            final(self).max_len() == old(self).max_len(),
            final(self)@.len() <= final(self).max_len(),
            old_item.is_some() <==> old(self)@.len() == old(self).max_len(),
            old_item == evicted(old(self)@, old(self).max_len()),
            final(self)@ == slid(old(self)@, old(self).max_len(), item),
    {
        let old_item = if self.items.len() == self.max_len {
            self.items.pop_back()
        } else {
            None
        };
        self.items.push_front(item);
        old_item
    }
}

} // verus!
