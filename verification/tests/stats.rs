use neptune::stats::Stats;
use neptune::symbol::Symbol;
use neptune::window::Window;
use neptune::{K1, K2, K3, K4};

type Float = f64;

fn eq(a: Float, b: Float) -> bool {
    const EPSILON: Float = 1e-4;

    (a - b).abs() < EPSILON
}

/// Asserts `(min, max, average, variance)` of `stats` against `items`.
fn assert_stats(stats: &Stats<Float>, items: Vec<Float>) {
    let (expected_min, expected_max, expected_average, expected_variance) = {
        let min = items.iter().copied().reduce(Float::min);
        let max = items.iter().copied().reduce(Float::max);
        let average = items.iter().sum::<Float>() / items.len() as Float;
        let variance = items
            .iter()
            .map(|item| (item - average) * (item - average))
            .sum::<Float>()
            / items.len() as Float;

        (min, max, average, variance)
    };

    match (stats.min_max(), expected_min, expected_max) {
        (None, None, None) => {}
        (Some((min, max)), Some(expected_min), Some(expected_max)) => {
            assert!(eq(min, expected_min));
            assert!(eq(max, expected_max));
        }
        _ => panic!(),
    }

    let (average, variance) = stats.average_variance(items.len());
    assert!(eq(average, expected_average));
    assert!(eq(variance, expected_variance));
}

/// The `n` most recent values of `window`, or all of them if it has fewer.
fn recent(window: &Window<Float>, n: usize) -> Vec<Float> {
    (0..n.min(window.len()))
        .map(|index| *window.get(index).unwrap())
        .collect()
}

#[test]
fn stats_test() {
    for items in [
        [0, 0, 1, 1, 2, 2, 3, 4, 5, 4, 3, 3, 2, 2, 1, 1],
        std::array::from_fn::<i16, 16, _>(|_| rand::random()),
    ] {
        let items = items
            .into_iter()
            .map(|item| item as Float)
            .collect::<Vec<_>>();

        for max_len in 1..=items.len() {
            let mut window = Window::new(max_len);
            let mut stats = Stats::default();

            assert!(stats.min_max() == None);

            for &item in &items {
                let old = window.push(item);
                stats.update(old, item);

                assert_stats(&stats, window.iter().into_iter().copied().collect());
            }
        }
    }
}

#[test]
fn symbol_test() {
    let items = std::array::from_fn::<_, K4, _>(|_| rand::random::<i16>() as Float);
    let mut symbol = Symbol::default();

    for k in 1..=8 {
        assert!(symbol.stats(k).is_none());
    }

    for item in items {
        symbol.add_batch(&[item]);

        assert_stats(symbol.window_stats(1), recent(symbol.values(), K1));
        assert_stats(symbol.window_stats(2), recent(symbol.values(), K2));
        assert_stats(symbol.window_stats(3), recent(symbol.values(), K3));
        assert_stats(symbol.window_stats(4), recent(symbol.values(), K4));
    }
}

#[test]
fn stats_of_one_value() {
    let mut stats = Stats::default();
    stats.update(None, 4.0);
    assert_eq!(stats.min_max(), Some((4.0, 4.0)));
    assert_eq!(stats.average_variance(1), (4.0, 0.0));
}

#[test]
fn stats_mean_and_variance_follow_the_raw_moments() {
    // Sum 15, sum of squares 55: mean 3, variance 55 / 5 - 9 = 2.
    let mut stats = Stats::default();
    for item in [1.0, 2.0, 3.0, 4.0, 5.0] {
        stats.update(None, item);
    }
    assert_eq!(stats.min_max(), Some((1.0, 5.0)));
    assert_eq!(stats.average_variance(5), (3.0, 2.0));
}

#[test]
fn stats_forget_the_value_that_left() {
    let mut stats = Stats::default();
    stats.update(None, 10.0);
    stats.update(None, 20.0);
    // 10 leaves, 30 comes: the window is [30, 20].
    stats.update(Some(10.0), 30.0);
    assert_eq!(stats.min_max(), Some((20.0, 30.0)));
    assert_eq!(stats.average_variance(2), (25.0, 25.0));
}

#[test]
fn stats_on_integers_are_exact() {
    let mut stats: Stats<i64> = Stats::default();
    assert_eq!(stats.min_max(), None);
    for item in [-3, 7, 7, 1] {
        stats.update(None, item);
    }
    // Sum 12, sum of squares 108: mean 3, variance 27 - 9 = 18.
    assert_eq!(stats.min_max(), Some((-3, 7)));
    assert_eq!(stats.average_variance(4), (3, 18));
    stats.update(Some(-3), 5);
    // The window is [5, 1, 7, 7]: sum 20, sum of squares 124.
    assert_eq!(stats.min_max(), Some((1, 7)));
    assert_eq!(stats.average_variance(4), (5, 6));
}
