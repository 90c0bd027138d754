use oracle_proxy::history::PriceHistory;

#[test]
fn test_price_history() {
    let mut history = PriceHistory::new(3);
    history.add_price(100.0);
    history.add_price(101.0);
    history.add_price(102.0);
    history.add_price(103.0); // Should remove first

    assert_eq!(history.len(), 3);
    assert_eq!(history.get_prices()[0], 101.0);
}

#[test]
fn history_keeps_last_window_in_order() {
    let mut history: PriceHistory<u64> = PriceHistory::new(2);
    assert!(history.is_empty());
    for p in [1u64, 2, 3, 4, 5] {
        history.add_price(p);
    }
    assert_eq!(history.get_prices(), &[4u64, 5][..]);
    history.clear();
    assert!(history.is_empty());
    assert_eq!(history.len(), 0);
}

#[test]
fn history_of_zero_capacity_stays_empty() {
    let mut history: PriceHistory<u64> = PriceHistory::new(0);
    history.add_price(7);
    assert_eq!(history.len(), 0);
}
