use crate::min_max_deque::{beaten, pushed, removed, updated, Extremum};
use crate::order::{alike, ordered};
use crate::window::{evicted, slid};
use vstd::prelude::*;

verus! {

/// The deque of a window, read from the items (newest first) that the window
/// holds: what pushing them, oldest first, onto an empty deque gives.
pub open spec fn candidates<T: PartialOrd>(side: Extremum, window: Seq<T>) -> Seq<T>
    decreases window.len(),
{
    if window.len() == 0 {
        Seq::empty()
    } else {
        pushed(side, candidates(side, window.drop_first()), window.first())
    }
}

/// `item` is one of `items`, and none of them beats it: on the `Min` side no
/// item is less, on the `Max` side none is greater.
pub open spec fn is_extremum<T: PartialOrd>(side: Extremum, item: T, items: Seq<T>) -> bool {
    &&& items.contains(item)
    &&& forall|i: int| 0 <= i < items.len() ==> !beaten(side, item, #[trigger] items[i])
}

/// No item of `deque` is beaten by one behind it.
pub open spec fn monotonic<T: PartialOrd>(side: Extremum, deque: Seq<T>) -> bool {
    forall|i: int, j: int|
        0 <= i < j < deque.len() ==> !beaten(side, #[trigger] deque[i], #[trigger] deque[j])
}

/// On either side "beaten" is asymmetric, "not beaten" is transitive, and two
/// values are equal exactly when neither beats the other.
proof fn lemma_side_order<T: PartialOrd>(side: Extremum)
    requires
        ordered::<T>(),
    ensures
        forall|a: T, b: T| #[trigger] beaten(side, a, b) ==> !beaten(side, b, a),
        forall|a: T, b: T, c: T|
            !#[trigger] beaten(side, a, b) && !#[trigger] beaten(side, b, c) ==> !beaten(
                side,
                a,
                c,
            ),
        forall|a: T, b: T|
            #![trigger beaten(side, a, b)]
            #![trigger alike(a, b)]
            alike(a, b) <==> !beaten(side, a, b) && !beaten(side, b, a),
{
}

/// What beats the front of a monotonic deque beats all of it.
proof fn lemma_beats_every_item<T: PartialOrd>(side: Extremum, deque: Seq<T>, value: T, i: int)
    requires
        ordered::<T>(),
        monotonic(side, deque),
        0 <= i < deque.len(),
        beaten(side, deque.first(), value),
    ensures
        beaten(side, deque[i], value),
{
    lemma_side_order::<T>(side);
    if i > 0 {
        assert(!beaten(side, deque[0], deque[i]));
    }
}

/// A push leaves alone a front that the value does not beat.
proof fn lemma_pushed_keeps_front<T: PartialOrd>(side: Extremum, deque: Seq<T>, value: T)
    requires
        deque.len() > 0,
        !beaten(side, deque.first(), value),
    ensures
        pushed(side, deque, value) == seq![deque.first()] + pushed(
            side,
            deque.drop_first(),
            value,
        ),
    decreases deque.len(),
{
    let rest = deque.drop_first();
    if deque.len() == 1 {
        assert(rest =~= Seq::<T>::empty());
        assert(deque.push(value) =~= seq![deque.first()] + rest.push(value));
    } else if beaten(side, deque.last(), value) {
        lemma_pushed_keeps_front(side, deque.drop_last(), value);
        assert(deque.drop_last().drop_first() =~= rest.drop_last());
        assert(rest.last() == deque.last());
    } else {
        assert(rest.last() == deque.last());
        assert(deque.push(value) =~= seq![deque.first()] + rest.push(value));
    }
}

/// A push of a value that beats the front of a monotonic deque leaves that
/// value alone.
proof fn lemma_pushed_replaces_all<T: PartialOrd>(side: Extremum, deque: Seq<T>, value: T)
    requires
        ordered::<T>(),
        monotonic(side, deque),
        deque.len() > 0 ==> beaten(side, deque.first(), value),
    ensures
        pushed(side, deque, value) == seq![value],
    decreases deque.len(),
{
    if deque.len() == 0 {
        assert(deque.push(value) =~= seq![value]);
    } else {
        lemma_beats_every_item(side, deque, value, deque.len() - 1);
        let shorter = deque.drop_last();
        assert(monotonic(side, shorter)) by {
            assert forall|i: int, j: int| 0 <= i < j < shorter.len() implies !beaten(
                side,
                #[trigger] shorter[i],
                #[trigger] shorter[j],
            ) by {
                assert(!beaten(side, deque[i], deque[j]));
            }
        }
        lemma_pushed_replaces_all(side, shorter, value);
    }
}

/// A push keeps a deque monotonic.
proof fn lemma_pushed_monotonic<T: PartialOrd>(side: Extremum, deque: Seq<T>, value: T)
    requires
        ordered::<T>(),
        monotonic(side, deque),
    ensures
        monotonic(side, pushed(side, deque, value)),
    decreases deque.len(),
{
    lemma_side_order::<T>(side);
    if deque.len() > 0 && beaten(side, deque.last(), value) {
        let shorter = deque.drop_last();
        assert forall|i: int, j: int| 0 <= i < j < shorter.len() implies !beaten(
            side,
            #[trigger] shorter[i],
            #[trigger] shorter[j],
        ) by {
            assert(!beaten(side, deque[i], deque[j]));
        }
        lemma_pushed_monotonic(side, shorter, value);
    } else {
        let longer = deque.push(value);
        assert forall|i: int, j: int| 0 <= i < j < longer.len() implies !beaten(
            side,
            #[trigger] longer[i],
            #[trigger] longer[j],
        ) by {
            if j < deque.len() {
                assert(!beaten(side, deque[i], deque[j]));
            } else if i < deque.len() - 1 {
                assert(!beaten(side, deque[i], deque[deque.len() - 1]));
                assert(!beaten(side, deque.last(), value));
            }
        }
    }
}

/// The deque of a window is monotonic.
pub proof fn lemma_candidates_monotonic<T: PartialOrd>(side: Extremum, window: Seq<T>)
    requires
        ordered::<T>(),
    ensures
        monotonic(side, candidates(side, window)),
    decreases window.len(),
{
    if window.len() > 0 {
        lemma_candidates_monotonic(side, window.drop_first());
        lemma_pushed_monotonic(side, candidates(side, window.drop_first()), window.first());
    }
}

/// A push adds at most one item, and none but the value pushed.
proof fn lemma_pushed_within<T: PartialOrd>(side: Extremum, deque: Seq<T>, value: T)
    ensures
        pushed(side, deque, value).len() <= deque.len() + 1,
        forall|i: int|
            0 <= i < pushed(side, deque, value).len() ==> {
                ||| #[trigger] pushed(side, deque, value)[i] == value
                ||| deque.contains(pushed(side, deque, value)[i])
            },
    decreases deque.len(),
{
    if deque.len() > 0 && beaten(side, deque.last(), value) {
        let shorter = deque.drop_last();
        lemma_pushed_within(side, shorter, value);
        let after = pushed(side, shorter, value);
        assert forall|i: int| 0 <= i < after.len() implies {
            ||| #[trigger] after[i] == value
            ||| deque.contains(after[i])
        } by {
            if after[i] != value {
                let at = choose|j: int| 0 <= j < shorter.len() && shorter[j] == after[i];
                assert(deque[at] == after[i]);
            }
        }
    } else {
        let after = deque.push(value);
        assert forall|i: int| 0 <= i < after.len() implies {
            ||| #[trigger] after[i] == value
            ||| deque.contains(after[i])
        } by {
            if i < deque.len() {
                assert(deque[i] == after[i]);
            }
        }
    }
}

/// The deque of a window holds items of the window only, and no more of
/// them than the window holds.
pub proof fn lemma_candidates_within<T: PartialOrd>(side: Extremum, window: Seq<T>)
    ensures
        candidates(side, window).len() <= window.len(),
        forall|i: int|
            0 <= i < candidates(side, window).len() ==> window.contains(
                #[trigger] candidates(side, window)[i],
            ),
    decreases window.len(),
{
    if window.len() > 0 {
        let older = window.drop_first();
        lemma_candidates_within(side, older);
        lemma_pushed_within(side, candidates(side, older), window.first());
        let deque = candidates(side, window);
        assert forall|i: int| 0 <= i < deque.len() implies window.contains(
            #[trigger] deque[i],
        ) by {
            if deque[i] == window.first() {
                assert(window[0] == deque[i]);
            } else {
                let place = choose|j: int| 0 <= j < older.len() && older[j] == deque[i];
                assert(window[place + 1] == deque[i]);
            }
        }
    }
}

/// The front of the deque of a window is the extremum of the window: the
/// minimum of its items on the `Min` side, the maximum on the `Max` side.
pub proof fn lemma_front_is_extremum<T: PartialOrd>(side: Extremum, window: Seq<T>)
    requires
        ordered::<T>(),
        window.len() > 0,
    ensures
        candidates(side, window).len() > 0,
        is_extremum(side, candidates(side, window).first(), window),
    decreases window.len(),
{
    lemma_side_order::<T>(side);
    let newest = window.first();
    let older = window.drop_first();
    let deque = candidates(side, older);
    assert(window[0] == newest);
    if older.len() == 0 {
        lemma_pushed_replaces_all(side, deque, newest);
        assert forall|i: int| 0 <= i < window.len() implies !beaten(
            side,
            newest,
            #[trigger] window[i],
        ) by {}
    } else {
        lemma_front_is_extremum(side, older);
        lemma_candidates_monotonic(side, older);
        let front = deque.first();
        if beaten(side, front, newest) {
            lemma_pushed_replaces_all(side, deque, newest);
            assert forall|i: int| 0 <= i < window.len() implies !beaten(
                side,
                newest,
                #[trigger] window[i],
            ) by {
                if i > 0 {
                    assert(window[i] == older[i - 1]);
                    assert(!beaten(side, front, older[i - 1]));
                    assert(!beaten(side, newest, front));
                }
            }
        } else {
            lemma_pushed_keeps_front(side, deque, newest);
            assert(candidates(side, window).first() == front);
            let at = choose|i: int| 0 <= i < older.len() && older[i] == front;
            assert(window[at + 1] == front);
            assert forall|i: int| 0 <= i < window.len() implies !beaten(
                side,
                front,
                #[trigger] window[i],
            ) by {
                if i > 0 {
                    assert(window[i] == older[i - 1]);
                }
            }
        }
    }
}

/// On a monotonic deque whose front the leaving item does not beat, it makes
/// no difference whether the item is removed before a push or after it.
proof fn lemma_removal_commutes<T: PartialOrd>(side: Extremum, deque: Seq<T>, leaving: T, value: T)
    requires
        ordered::<T>(),
        monotonic(side, deque),
        deque.len() > 0,
        !beaten(side, deque.first(), leaving),
    ensures
        removed(pushed(side, deque, value), leaving) == pushed(
            side,
            removed(deque, leaving),
            value,
        ),
{
    lemma_side_order::<T>(side);
    let front = deque.first();
    let rest = deque.drop_first();
    if beaten(side, front, value) {
        lemma_pushed_replaces_all(side, deque, value);
        assert(!alike(leaving, value)) by {
            if alike(leaving, value) {
                assert(!beaten(side, front, leaving));
                assert(!beaten(side, leaving, value));
                assert(!beaten(side, front, value));
            }
        }
        assert(seq![value].first() == value);
        if alike(leaving, front) {
            assert(monotonic(side, rest)) by {
                assert forall|i: int, j: int| 0 <= i < j < rest.len() implies !beaten(
                    side,
                    #[trigger] rest[i],
                    #[trigger] rest[j],
                ) by {
                    assert(!beaten(side, deque[i + 1], deque[j + 1]));
                }
            }
            if rest.len() > 0 {
                lemma_beats_every_item(side, deque, value, 1);
                assert(rest.first() == deque[1]);
            }
            lemma_pushed_replaces_all(side, rest, value);
        }
    } else {
        lemma_pushed_keeps_front(side, deque, value);
        let after = pushed(side, deque, value);
        assert(after.first() == front);
        if alike(leaving, front) {
            assert(after.drop_first() =~= pushed(side, rest, value));
        }
    }
}

/// When the oldest item leaves a window, the deque of the window loses its
/// front, or nothing: the front, if the oldest item equals it.
proof fn lemma_eviction<T: PartialOrd>(side: Extremum, window: Seq<T>)
    requires
        ordered::<T>(),
        window.len() > 0,
    ensures
        removed(candidates(side, window), window.last()) == candidates(
            side,
            window.drop_last(),
        ),
    decreases window.len(),
{
    lemma_side_order::<T>(side);
    let oldest = window.last();
    let newest = window.first();
    let older = window.drop_first();
    if window.len() == 1 {
        lemma_pushed_replaces_all(side, candidates(side, older), newest);
        assert(seq![newest].first() == newest);
        assert(seq![newest].drop_first() =~= Seq::<T>::empty());
        assert(window.drop_last() =~= Seq::<T>::empty());
    } else {
        let deque = candidates(side, older);
        let shorter = window.drop_last();
        assert(older.last() == oldest);
        assert(shorter.first() == newest);
        assert(shorter.drop_first() =~= older.drop_last());
        lemma_eviction(side, older);
        lemma_candidates_monotonic(side, older);
        lemma_front_is_extremum(side, older);
        assert(!beaten(side, deque.first(), older[older.len() - 1]));
        lemma_removal_commutes(side, deque, oldest, newest);
    }
}

/// A deque that holds the deque of a window goes on doing so when the window
/// is pushed and the deque is updated with the item that left the window, if
/// one did, and the item that came in.
pub proof fn lemma_deque_follows_window<T: PartialOrd>(
    side: Extremum,
    window: Seq<T>,
    max_len: nat,
    item: T,
)
    requires
        ordered::<T>(),
        0 < max_len,
        window.len() <= max_len,
    ensures
        updated(side, candidates(side, window), evicted(window, max_len), item) == candidates(
            side,
            slid(window, max_len, item),
        ),
{
    let after = slid(window, max_len, item);
    assert(after.first() == item);
    if window.len() > 0 && window.len() >= max_len {
        assert(after.drop_first() =~= window.drop_last());
        lemma_eviction(side, window);
    } else {
        assert(after.drop_first() =~= window);
    }
}

} // verus!
