use neptune::registry::Registry;
use neptune::symbol::Symbol;
use neptune::{ingest, query, selects, AddBatchPayload, QueryError, StatsQuery, StatsResponse};
use std::cell::RefCell;
use std::rc::Rc;

type Float = f64;
type Handle = Rc<RefCell<Symbol<Float>>>;

/// Looks `symbol` up as a server does: shared access first, exclusive access
/// only to make the entry.
fn handle(registry: &mut Registry<Handle>, symbol: &str) -> Handle {
    match registry.get(symbol) {
        Some(handle) => handle,
        None => registry.get_or_create(symbol),
    }
}

fn add_batch(registry: &mut Registry<Handle>, symbol: &str, values: Vec<Float>) {
    let payload = AddBatchPayload {
        symbol: String::from(symbol),
        values,
    };
    let handle = handle(registry, &payload.symbol);
    ingest(&mut handle.borrow_mut(), &payload);
}

fn stats(
    registry: &mut Registry<Handle>,
    symbol: &str,
    k: usize,
) -> Result<StatsResponse<Float>, QueryError> {
    let request = StatsQuery {
        symbol: String::from(symbol),
        k,
    };
    request.check()?;
    let handle = handle(registry, &request.symbol);
    let result = query(&handle.borrow(), &request);
    result
}

fn numbers(response: StatsResponse<Float>) -> [Float; 5] {
    [
        response.min,
        response.max,
        response.last,
        response.avg,
        response.var,
    ]
}

fn eq(a: Float, b: Float) -> bool {
    (a - b).abs() < 1e-4
}

#[test]
fn query_on_a_fresh_registry_is_empty() {
    let mut registry = Registry::default();
    assert_eq!(stats(&mut registry, "X", 3).err(), Some(QueryError::Empty));
}

#[test]
fn query_with_k_zero_is_invalid() {
    let mut registry = Registry::default();
    assert_eq!(
        stats(&mut registry, "X", 0).err(),
        Some(QueryError::InvalidK)
    );
    // The refusal came before the symbol was looked up.
    assert!(registry.get("X").is_none());
}

#[test]
fn query_with_k_nine_is_invalid() {
    let mut registry = Registry::default();
    add_batch(&mut registry, "X", vec![1.0]);
    assert_eq!(
        stats(&mut registry, "X", 9).err(),
        Some(QueryError::InvalidK)
    );
    assert_eq!(
        stats(&mut registry, "X", usize::MAX).err(),
        Some(QueryError::InvalidK)
    );
}

#[test]
fn invalid_k_comes_before_empty() {
    let symbol: Symbol<Float> = Symbol::default();
    let request = StatsQuery {
        symbol: String::from("X"),
        k: 0,
    };
    assert_eq!(query(&symbol, &request).err(), Some(QueryError::InvalidK));
    let request = StatsQuery {
        symbol: String::from("X"),
        k: 8,
    };
    assert_eq!(query(&symbol, &request).err(), Some(QueryError::Empty));
}

#[test]
fn every_k_from_one_to_eight_selects_a_window() {
    assert!(!selects(0));
    for k in 1..=8 {
        assert!(selects(k));
        let request = StatsQuery {
            symbol: String::new(),
            k,
        };
        assert_eq!(request.check(), Ok(()));
    }
    assert!(!selects(9));
    let request = StatsQuery {
        symbol: String::new(),
        k: 9,
    };
    assert_eq!(request.check(), Err(QueryError::InvalidK));
}

#[test]
fn errors_carry_their_message_and_status() {
    assert_eq!(QueryError::InvalidK.message(), "Invalid `k`");
    assert_eq!(QueryError::Empty.message(), "No values for this symbol");
    assert_eq!(QueryError::InvalidK.status(), 418);
    assert_eq!(QueryError::Empty.status(), 418);
}

#[test]
fn five_values_in_the_smallest_window() {
    let mut registry = Registry::default();
    add_batch(&mut registry, "X", vec![1.0, 2.0, 3.0, 4.0, 5.0]);
    let response = stats(&mut registry, "X", 1).unwrap();
    assert_eq!(numbers(response), [1.0, 5.0, 5.0, 3.0, 2.0]);
}

#[test]
fn five_values_in_a_larger_window() {
    let mut registry = Registry::default();
    add_batch(&mut registry, "X", vec![1.0, 2.0, 3.0, 4.0, 5.0]);
    let response = stats(&mut registry, "X", 2).unwrap();
    assert_eq!(numbers(response), [1.0, 5.0, 5.0, 3.0, 2.0]);
    let response = stats(&mut registry, "X", 8).unwrap();
    assert_eq!(numbers(response), [1.0, 5.0, 5.0, 3.0, 2.0]);
}

#[test]
fn eleven_values_one_by_one_slide_the_smallest_window() {
    let mut registry = Registry::default();
    for value in 1..=11 {
        add_batch(&mut registry, "X", vec![value as Float]);
    }
    let response = stats(&mut registry, "X", 1).unwrap();
    assert_eq!(numbers(response), [2.0, 11.0, 11.0, 6.5, 8.25]);
    // The next window still holds all eleven.
    let response = stats(&mut registry, "X", 2).unwrap();
    assert_eq!(numbers(response), [1.0, 11.0, 11.0, 6.0, 10.0]);
}

#[test]
fn one_batch_or_many_lead_to_the_same_stats() {
    let values: Vec<Float> = (0..250).map(|i| ((i * 37) % 101) as Float - 50.0).collect();
    let mut registry = Registry::default();
    add_batch(&mut registry, "whole", values.clone());
    for part in values.chunks(7) {
        add_batch(&mut registry, "parts", part.to_vec());
    }
    add_batch(&mut registry, "parts", Vec::new());
    for k in 1..=8 {
        let whole = numbers(stats(&mut registry, "whole", k).unwrap());
        let parts = numbers(stats(&mut registry, "parts", k).unwrap());
        assert_eq!(whole, parts);
    }
}

#[test]
fn ten_thousand_samples_agree_with_a_recomputation() {
    let values: Vec<Float> = (0..10000)
        .map(|_| rand::random::<i16>() as Float)
        .collect();
    let mut registry = Registry::default();
    add_batch(&mut registry, "Y", values.clone());
    let response = stats(&mut registry, "Y", 4).unwrap();

    let count = values.len() as Float;
    let min = values.iter().copied().reduce(Float::min).unwrap();
    let max = values.iter().copied().reduce(Float::max).unwrap();
    let average = values.iter().sum::<Float>() / count;
    let variance = values
        .iter()
        .map(|value| (value - average) * (value - average))
        .sum::<Float>()
        / count;
    assert!(eq(response.min, min));
    assert!(eq(response.max, max));
    assert!(eq(response.last, values[values.len() - 1]));
    assert!(eq(response.avg, average));
    assert!(eq(response.var, variance));
}

#[test]
fn each_window_covers_its_own_count_of_values() {
    // 1234 values: the windows of 10, 100 and 1000 are full, the others hold
    // them all.
    let values: Vec<Float> = (0..1234)
        .map(|i| ((i * 7919) % 2003) as Float - 1000.0)
        .collect();
    let mut registry = Registry::default();
    add_batch(&mut registry, "Z", values.clone());
    for k in 1..=8u32 {
        let size = 10usize.pow(k).min(values.len());
        let window = &values[values.len() - size..];
        let count = size as Float;
        let min = window.iter().copied().reduce(Float::min).unwrap();
        let max = window.iter().copied().reduce(Float::max).unwrap();
        let average = window.iter().sum::<Float>() / count;
        let variance = window
            .iter()
            .map(|value| (value - average) * (value - average))
            .sum::<Float>()
            / count;
        let response = stats(&mut registry, "Z", k as usize).unwrap();
        assert_eq!(response.min, min);
        assert_eq!(response.max, max);
        assert_eq!(response.last, values[values.len() - 1]);
        assert!(eq(response.avg, average));
        assert!(eq(response.var, variance));
    }
}

#[test]
fn symbols_do_not_share_values() {
    let mut registry = Registry::default();
    add_batch(&mut registry, "A", vec![1.0, 2.0]);
    add_batch(&mut registry, "B", vec![10.0]);
    assert_eq!(
        numbers(stats(&mut registry, "A", 1).unwrap()),
        [1.0, 2.0, 2.0, 1.5, 0.25]
    );
    assert_eq!(
        numbers(stats(&mut registry, "B", 1).unwrap()),
        [10.0, 10.0, 10.0, 10.0, 0.0]
    );
    assert_eq!(stats(&mut registry, "C", 1).err(), Some(QueryError::Empty));
}

#[test]
fn an_empty_batch_changes_nothing() {
    let mut registry = Registry::default();
    add_batch(&mut registry, "X", Vec::new());
    assert_eq!(stats(&mut registry, "X", 1).err(), Some(QueryError::Empty));
    add_batch(&mut registry, "X", vec![3.0]);
    add_batch(&mut registry, "X", Vec::new());
    assert_eq!(
        numbers(stats(&mut registry, "X", 1).unwrap()),
        [3.0, 3.0, 3.0, 3.0, 0.0]
    );
}
