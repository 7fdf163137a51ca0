use orderbook::history::{HistoryData, HISTORY_CAPACITY};
use orderbook::model::{Deal, OrderKind, Timestamp};
use orderbook::price::Price;

fn trade(n: u128) -> Deal {
    Deal::stamped(Price::from_u64(n as u64), n as usize, OrderKind::Buy, n, Timestamp { seconds: n as i64, nanos: 0 })
}

fn ids(deals: &[Deal]) -> Vec<u128> {
    deals.iter().map(|d| d.id).collect()
}

#[test]
fn history_of_three_keeps_the_three_newest_of_four() {
    let mut history = HistoryData::with_capacity(3);
    for n in 1..=4 {
        history.record(trade(n));
    }
    assert_eq!(ids(&history.recent(3)), vec![4, 3, 2]);
    assert_eq!(history.len(), 3);
}

#[test]
fn history_never_exceeds_its_capacity() {
    let mut history = HistoryData::with_capacity(5);
    for n in 1..=20 {
        history.record(trade(n));
        assert!(history.len() <= 5);
    }
    assert_eq!(ids(&history.recent(20)), vec![20, 19, 18, 17, 16]);
}

#[test]
fn recent_is_capped_by_limit_and_by_length() {
    let mut history = HistoryData::with_capacity(10);
    for n in 1..=4 {
        history.record(trade(n));
    }
    assert_eq!(ids(&history.recent(0)), Vec::<u128>::new());
    assert_eq!(ids(&history.recent(2)), vec![4, 3]);
    assert_eq!(ids(&history.recent(4)), vec![4, 3, 2, 1]);
    assert_eq!(ids(&history.recent(9)), vec![4, 3, 2, 1]);
    assert_eq!(history.len(), 4);
}

#[test]
fn history_of_capacity_zero_keeps_nothing() {
    let mut history = HistoryData::with_capacity(0);
    history.record(trade(1));
    assert_eq!(history.len(), 0);
    assert!(history.recent(1).is_empty());
}

#[test]
fn history_of_capacity_one_keeps_the_newest() {
    let mut history = HistoryData::with_capacity(1);
    history.record(trade(1));
    history.record(trade(2));
    assert_eq!(ids(&history.recent(5)), vec![2]);
}

#[test]
fn new_history_has_the_default_capacity() {
    let history = HistoryData::new();
    assert_eq!(history.capacity(), HISTORY_CAPACITY);
    assert_eq!(history.capacity(), 10_000);
    assert_eq!(history.len(), 0);
}

#[test]
fn recorded_trades_keep_their_fields() {
    let mut history = HistoryData::with_capacity(2);
    history.record(trade(7));
    let got = history.recent(1);
    assert_eq!(got[0].quantity, 7);
    assert_eq!(got[0].id, 7);
    assert_eq!(got[0].created_at, Timestamp { seconds: 7, nanos: 0 });
    assert_eq!(got[0].kind, OrderKind::Buy);
    assert!(got[0].price.same(&Price::from_u64(7)));
}
