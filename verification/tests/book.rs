use orderbook::book::{sorted_slice, OrderBook, OrderBookData, DEFAULT_LIMIT};
use orderbook::model::{OrderCommons, OrderKind};
use orderbook::price::Price;
use orderbook::queue::OrderQueue;

fn prices(orders: &[orderbook::model::Order]) -> Vec<u32> {
    orders.iter().map(|o| o.data.price.digits()[0]).collect()
}

#[test]
fn empty_book_has_no_best() {
    let mut book = OrderBook::new();
    assert!(book.best(OrderKind::Buy).is_none());
    assert!(book.best(OrderKind::Sell).is_none());
    assert!(book.pop_best(OrderKind::Buy).is_none());
    assert!(book.snapshot(OrderKind::Sell, 10).is_empty());
    assert_eq!(book.total(OrderKind::Buy), 0);
}

#[test]
fn best_buy_is_the_highest_price() {
    let mut book = OrderBook::new();
    for p in [100u64, 130, 90, 120] {
        book.insert(OrderKind::Buy, Price::from_u64(p), 1);
    }
    let best = book.best(OrderKind::Buy).unwrap();
    assert!(best.data.price.same(&Price::from_u64(130)));
    assert_eq!(prices(&book.snapshot(OrderKind::Buy, 10)), vec![130, 120, 100, 90]);
}

#[test]
fn best_sell_is_the_lowest_price() {
    let mut book = OrderBook::new();
    for p in [100u64, 130, 90, 120] {
        book.insert(OrderKind::Sell, Price::from_u64(p), 1);
    }
    let best = book.best(OrderKind::Sell).unwrap();
    assert!(best.data.price.same(&Price::from_u64(90)));
    assert_eq!(prices(&book.snapshot(OrderKind::Sell, 10)), vec![90, 100, 120, 130]);
}

#[test]
fn pop_best_removes_in_priority_order() {
    let mut book = OrderBook::new();
    for p in [5u64, 7, 6] {
        book.insert(OrderKind::Buy, Price::from_u64(p), 2);
    }
    let mut seen = Vec::new();
    while let Some(o) = book.pop_best(OrderKind::Buy) {
        seen.push(o.data.price.digits()[0]);
    }
    assert_eq!(seen, vec![7, 6, 5]);
    assert_eq!(book.total(OrderKind::Buy), 0);
}

#[test]
fn insert_returns_the_created_order() {
    let mut book = OrderBook::new();
    let a = book.insert(OrderKind::Sell, Price::from_u64(10), 3);
    let b = book.insert(OrderKind::Sell, Price::from_u64(11), 4);
    assert_eq!(a.data.quantity, 3);
    assert_eq!(a.kind, OrderKind::Sell);
    assert!(a.data.price.same(&Price::from_u64(10)));
    assert_ne!(a.id, b.id);
    assert_eq!(book.asks_total(), 2);
    assert_eq!(book.bids_total(), 0);
}

#[test]
fn ids_are_unique_among_residents_of_one_side() {
    let mut book = OrderBook::new();
    let mut ids = Vec::new();
    for p in 0..20u64 {
        ids.push(book.insert(OrderKind::Buy, Price::from_u64(p), 1).id);
    }
    ids.sort();
    ids.dedup();
    assert_eq!(ids.len(), 20);
}

#[test]
fn snapshot_is_capped_and_leaves_the_book_alone() {
    let mut book = OrderBook::new();
    for p in [3u64, 1, 2, 5, 4] {
        book.insert(OrderKind::Sell, Price::from_u64(p), 1);
    }
    let first = book.snapshot(OrderKind::Sell, 3);
    let second = book.snapshot(OrderKind::Sell, 3);
    assert_eq!(prices(&first), vec![1, 2, 3]);
    assert_eq!(prices(&first), prices(&second));
    let first_ids: Vec<usize> = first.iter().map(|o| o.id).collect();
    let second_ids: Vec<usize> = second.iter().map(|o| o.id).collect();
    assert_eq!(first_ids, second_ids);
    assert_eq!(book.total(OrderKind::Sell), 5);
    assert!(book.snapshot(OrderKind::Sell, 0).is_empty());
    assert_eq!(book.snapshot(OrderKind::Sell, 50).len(), 5);
}

#[test]
fn reduce_best_replaces_the_best_under_a_new_id() {
    let mut book = OrderBook::new();
    let old = book.insert(OrderKind::Sell, Price::from_u64(9), 10);
    let (left, arrived) = book.reduce_best(OrderKind::Sell, 4);
    assert_eq!(left.id, old.id);
    assert_eq!(left.data.quantity, 10);
    assert_eq!(arrived.data.quantity, 6);
    assert!(arrived.data.price.same(&Price::from_u64(9)));
    assert_ne!(arrived.id, old.id);
    assert_eq!(book.total(OrderKind::Sell), 1);
}

#[test]
fn sorted_slice_defaults_to_one_hundred() {
    let mut queue = OrderQueue::new(OrderKind::Buy);
    for p in 0..150u64 {
        queue.insert(OrderCommons { quantity: 1, price: Price::from_u64(p) });
    }
    assert_eq!(DEFAULT_LIMIT, 100);
    let all = sorted_slice(&queue, None);
    assert_eq!(all.len(), 100);
    assert_eq!(all[0].data.price.digits()[0], 149);
    assert_eq!(all[99].data.price.digits()[0], 50);
    assert_eq!(sorted_slice(&queue, Some(2)).len(), 2);
    assert_eq!(sorted_slice(&queue, Some(1000)).len(), 150);
}

#[test]
fn new_book_state_is_empty() {
    let state = OrderBookData::new();
    assert_eq!(state.orderbook.bids_total(), 0);
    assert_eq!(state.orderbook.asks_total(), 0);
    assert!(state.orderbook.bids(None).is_empty());
    assert!(state.orderbook.asks(None).is_empty());
}

#[test]
fn queue_slots_are_released_on_pop() {
    let mut queue = OrderQueue::new(OrderKind::Sell);
    let a = queue.insert(OrderCommons { quantity: 1, price: Price::from_u64(1) });
    let popped = queue.pop().unwrap();
    assert_eq!(popped.id, a.id);
    assert_eq!(queue.len(), 0);
    assert!(queue.peek().is_none());
    let b = queue.insert(OrderCommons { quantity: 2, price: Price::from_u64(2) });
    assert_eq!(b.id, a.id);
    assert_eq!(queue.get(0).id, b.id);
    assert_eq!(queue.len(), 1);
}
