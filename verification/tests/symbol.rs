use neptune::symbol::Symbol;
use neptune::{K1, K2, K8};

#[test]
fn fresh_symbol_has_no_stats_for_any_k() {
    let symbol: Symbol<f64> = Symbol::default();
    for k in 1..=8 {
        assert!(symbol.stats(k).is_none());
    }
    assert!(symbol.values().is_empty());
    for k in 1..=8 {
        assert_eq!(symbol.window_stats(k).min_max(), None);
    }
}

#[test]
fn symbol_of_integers_is_exact() {
    let mut symbol: Symbol<i64> = Symbol::default();
    symbol.add_batch(&[1, 2, 3, 4, 5, 6, 7, 8, 9, 10, 11]);
    // The ten most recent are 2 to 11: sum 65, sum of squares 505.
    assert_eq!(symbol.stats(1), Some([2, 11, 11, 6, 14]));
    // All eleven: sum 66, sum of squares 506.
    assert_eq!(symbol.stats(2), Some([1, 11, 11, 6, 10]));
    assert_eq!(symbol.stats(8), Some([1, 11, 11, 6, 10]));
}

#[test]
fn symbol_of_negative_integers_rounds_toward_zero() {
    let mut symbol: Symbol<i64> = Symbol::default();
    symbol.add_batch(&[-4, -3]);
    // Sum -7, sum of squares 25: mean -3, variance 12 - 9.
    assert_eq!(symbol.stats(1), Some([-4, -3, -3, -3, 3]));
}

#[test]
fn symbol_window_sizes_are_powers_of_ten() {
    let mut symbol: Symbol<i64> = Symbol::default();
    let values: Vec<i64> = (1..=(K2 as i64) + 5).collect();
    symbol.add_batch(&values);
    assert_eq!(symbol.values().len(), K2 + 5);
    assert_eq!(symbol.values().get(0), Some(&105));

    // The window of ten holds 96 to 105.
    let [min, max, last, average, _] = symbol.stats(1).unwrap();
    assert_eq!((min, max, last, average), (96, 105, 105, 100));
    assert_eq!(
        symbol.window_stats(1).average_variance(K1),
        (100, (96..=105).map(|v| v * v).sum::<i64>() / 10 - 100 * 100)
    );

    // The window of a hundred holds 6 to 105.
    let [min, max, last, average, _] = symbol.stats(2).unwrap();
    assert_eq!((min, max, last, average), (6, 105, 105, 55));

    // The larger windows hold all 105: sum 5565.
    for k in 3..=8 {
        let [min, max, last, average, _] = symbol.stats(k).unwrap();
        assert_eq!((min, max, last, average), (1, 105, 105, 53));
    }
}

#[test]
fn symbol_keeps_the_newest_value_first() {
    let mut symbol: Symbol<f64> = Symbol::default();
    symbol.add_batch(&[0.5, 1.5]);
    symbol.add_batch(&[2.5]);
    assert_eq!(symbol.values().len(), 3);
    assert_eq!(symbol.values().get(0), Some(&2.5));
    assert_eq!(symbol.values().get(2), Some(&0.5));
    assert_eq!(symbol.values().get(3), None);
    assert!(symbol.values().len() <= K8);
}
