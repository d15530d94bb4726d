use neptune::min_max_deque::{MaxDeque, MinDeque};
use neptune::window::Window;

#[test]
fn min_max_deque_test() {
    for items in [
        [0, 0, 1, 1, 2, 2, 3, 4, 5, 4, 3, 3, 2, 2, 1, 1],
        std::array::from_fn::<i16, 16, _>(|_| rand::random()),
    ] {
        for max_len in 1..=items.len() {
            let mut window = Window::new(max_len);
            let mut max_deq = MaxDeque::default();
            let mut min_deq = MinDeque::default();

            assert!(max_deq.max() == None);
            assert!(min_deq.min() == None);

            for item in items {
                let old = window.push(item);
                max_deq.update(old, item);
                min_deq.update(old, item);

                assert!(max_deq.max() == window.iter().into_iter().max());
                assert!(min_deq.min() == window.iter().into_iter().min());
            }
        }
    }
}

#[test]
fn min_deque_keeps_an_equal_item_behind_the_front() {
    let mut deque = MinDeque::default();
    deque.update(None, 3);
    deque.update(None, 3);
    assert_eq!(deque.min(), Some(&3));
    // The older 3 leaves: the newer one is still there.
    deque.update(Some(3), 7);
    assert_eq!(deque.min(), Some(&3));
    deque.update(Some(3), 9);
    assert_eq!(deque.min(), Some(&7));
}

#[test]
fn max_deque_keeps_an_equal_item_behind_the_front() {
    let mut deque = MaxDeque::default();
    deque.update(None, 5);
    deque.update(None, 5);
    assert_eq!(deque.max(), Some(&5));
    deque.update(Some(5), 1);
    assert_eq!(deque.max(), Some(&5));
    deque.update(Some(5), 0);
    assert_eq!(deque.max(), Some(&1));
}

#[test]
fn deque_ignores_a_leaving_item_that_is_not_its_front() {
    let mut min_deq = MinDeque::default();
    let mut max_deq = MaxDeque::default();
    for item in [4, 1, 6] {
        min_deq.update(None, item);
        max_deq.update(None, item);
    }
    // 4 leaves: it is neither the minimum nor the maximum.
    min_deq.update(Some(4), 5);
    max_deq.update(Some(4), 5);
    assert_eq!(min_deq.min(), Some(&1));
    assert_eq!(max_deq.max(), Some(&6));
}

#[test]
fn deques_follow_a_window_of_floats() {
    let items = [1.5f64, -0.25, 3.0, 3.0, -7.125, 2.0, 2.0, 8.5, -1.0, 0.0];
    for max_len in 1..=items.len() {
        let mut window = Window::new(max_len);
        let mut max_deq = MaxDeque::default();
        let mut min_deq = MinDeque::default();
        for item in items {
            let old = window.push(item);
            max_deq.update(old, item);
            min_deq.update(old, item);
            let held = window.iter();
            let min = held.iter().map(|item| **item).fold(f64::INFINITY, f64::min);
            let max = held.iter().map(|item| **item).fold(f64::NEG_INFINITY, f64::max);
            assert_eq!(min_deq.min(), Some(&min));
            assert_eq!(max_deq.max(), Some(&max));
        }
    }
}
