use orderbook::broker::{Event, SimpleBroker, Topic};
use orderbook::exchange::{Exchange, Rejection};
use orderbook::model::{Deal, Order, OrderCommons, OrderKind, Timestamp};
use orderbook::price::Price;

fn trade(n: u128) -> Deal {
    Deal::stamped(Price::from_u64(n as u64), n as usize, OrderKind::Sell, n, Timestamp { seconds: 1, nanos: 2 })
}

fn order(id: usize) -> Order {
    Order { id, data: OrderCommons { quantity: 1, price: Price::from_u64(1) }, kind: OrderKind::Buy }
}

fn trade_id(event: Option<Event>) -> Option<u128> {
    match event {
        Some(Event::TradeExecuted(d)) => Some(d.id),
        _ => None,
    }
}

#[test]
fn subscriber_receives_only_what_is_published_after_subscribing() {
    let mut broker = SimpleBroker::new();
    broker.publish(&Event::TradeExecuted(trade(1)));
    let id = broker.subscribe(Topic::TradeExecuted).unwrap();
    assert_eq!(broker.pending(id), 0);
    broker.publish(&Event::TradeExecuted(trade(2)));
    assert_eq!(broker.pending(id), 1);
    assert_eq!(trade_id(broker.take(id)), Some(2));
    assert!(broker.take(id).is_none());
}

#[test]
fn subscriber_to_trades_receives_the_recorded_trade() {
    let mut exchange = Exchange::with_history_capacity(10);
    exchange.submit(OrderKind::Sell, &OrderCommons { quantity: 1, price: Price::from_u64(5) });
    exchange.submit(OrderKind::Buy, &OrderCommons { quantity: 1, price: Price::from_u64(5) });
    let id = exchange.subscribe(Topic::TradeExecuted).unwrap();
    exchange.submit(OrderKind::Sell, &OrderCommons { quantity: 3, price: Price::from_u64(7) });
    let report = exchange.submit(OrderKind::Buy, &OrderCommons { quantity: 2, price: Price::from_u64(8) });
    assert_eq!(report.deals.len(), 1);
    match exchange.take(id) {
        Some(Event::TradeExecuted(d)) => {
            assert_eq!(d.id, report.deals[0].id);
            assert_eq!(d.quantity, 2);
            assert!(d.price.same(&Price::from_u64(7)));
            assert_eq!(d.created_at, report.deals[0].created_at);
        }
        other => panic!("expected a trade, got {:?}", other),
    }
    assert!(exchange.take(id).is_none());
    assert_eq!(exchange.recent(10).len(), 2);
}

#[test]
fn events_reach_only_subscribers_of_their_topic() {
    let mut broker = SimpleBroker::new();
    let added = broker.subscribe(Topic::OrderAdded).unwrap();
    let removed = broker.subscribe(Topic::OrderRemoved).unwrap();
    let trades = broker.subscribe(Topic::TradeExecuted).unwrap();
    broker.publish(&Event::OrderAdded(order(4)));
    assert_eq!(broker.pending(added), 1);
    assert_eq!(broker.pending(removed), 0);
    assert_eq!(broker.pending(trades), 0);
    broker.publish(&Event::OrderRemoved(order(5)));
    broker.publish(&Event::TradeExecuted(trade(6)));
    assert_eq!(broker.pending(added), 1);
    assert_eq!(broker.pending(removed), 1);
    assert_eq!(broker.pending(trades), 1);
    assert!(matches!(broker.take(added), Some(Event::OrderAdded(o)) if o.id == 4));
    assert!(matches!(broker.take(removed), Some(Event::OrderRemoved(o)) if o.id == 5));
    assert_eq!(trade_id(broker.take(trades)), Some(6));
}

#[test]
fn every_subscriber_gets_its_own_copy_in_publish_order() {
    let mut broker = SimpleBroker::new();
    let fast = broker.subscribe(Topic::TradeExecuted).unwrap();
    let slow = broker.subscribe(Topic::TradeExecuted).unwrap();
    assert_ne!(fast, slow);
    for n in 1..=3 {
        broker.publish(&Event::TradeExecuted(trade(n)));
        assert_eq!(trade_id(broker.take(fast)), Some(n));
    }
    assert_eq!(broker.pending(fast), 0);
    assert_eq!(broker.pending(slow), 3);
    assert_eq!(trade_id(broker.take(slow)), Some(1));
    assert_eq!(trade_id(broker.take(slow)), Some(2));
    assert_eq!(trade_id(broker.take(slow)), Some(3));
    assert!(broker.take(slow).is_none());
}

#[test]
fn unsubscribing_closes_the_mailbox() {
    let mut broker = SimpleBroker::new();
    let a = broker.subscribe(Topic::OrderAdded).unwrap();
    let b = broker.subscribe(Topic::OrderAdded).unwrap();
    assert_eq!(broker.subscribers(), 2);
    assert!(broker.unsubscribe(a));
    assert!(!broker.unsubscribe(a));
    assert_eq!(broker.subscribers(), 1);
    broker.publish(&Event::OrderAdded(order(1)));
    assert!(broker.take(a).is_none());
    assert_eq!(broker.pending(a), 0);
    assert_eq!(broker.pending(b), 1);
    let c = broker.subscribe(Topic::OrderAdded).unwrap();
    assert_ne!(c, a);
    assert_ne!(c, b);
}

#[test]
fn taking_from_an_unknown_subscription_gives_nothing() {
    let mut broker = SimpleBroker::new();
    assert!(broker.take(17).is_none());
    assert_eq!(broker.pending(17), 0);
    assert!(!broker.unsubscribe(17));
}

#[test]
fn event_topics() {
    assert_eq!(Event::OrderAdded(order(1)).topic(), Topic::OrderAdded);
    assert_eq!(Event::OrderRemoved(order(1)).topic(), Topic::OrderRemoved);
    assert_eq!(Event::TradeExecuted(trade(1)).topic(), Topic::TradeExecuted);
}

#[test]
fn submit_publishes_removal_then_trade_then_arrival() {
    let mut exchange = Exchange::with_history_capacity(10);
    let added = exchange.subscribe(Topic::OrderAdded).unwrap();
    let removed = exchange.subscribe(Topic::OrderRemoved).unwrap();
    let trades = exchange.subscribe(Topic::TradeExecuted).unwrap();
    let first = exchange.submit(OrderKind::Sell, &OrderCommons { quantity: 20, price: Price::from_u64(90) });
    let resting = first.resting.unwrap();
    assert!(matches!(exchange.take(added), Some(Event::OrderAdded(o)) if o.id == resting.id && o.kind == OrderKind::Sell));
    assert!(exchange.take(removed).is_none());
    assert!(exchange.take(trades).is_none());
    let second = exchange.submit(OrderKind::Buy, &OrderCommons { quantity: 10, price: Price::from_u64(100) });
    assert!(matches!(exchange.take(removed), Some(Event::OrderRemoved(o)) if o.id == resting.id && o.data.quantity == 20));
    assert_eq!(trade_id(exchange.take(trades)), Some(second.deals[0].id));
    assert!(matches!(exchange.take(added), Some(Event::OrderAdded(o)) if o.kind == OrderKind::Sell && o.data.quantity == 10 && o.id != resting.id));
    assert!(exchange.take(added).is_none());
    assert!(exchange.take(removed).is_none());
    assert!(exchange.take(trades).is_none());
    assert_eq!(exchange.snapshot(OrderKind::Sell, 5).len(), 1);
    assert_eq!(exchange.snapshot(OrderKind::Buy, 5).len(), 0);
}

#[test]
fn exchange_history_is_bounded() {
    let mut exchange = Exchange::with_history_capacity(2);
    for _ in 0..5 {
        exchange.submit(OrderKind::Sell, &OrderCommons { quantity: 1, price: Price::from_u64(3) });
        exchange.submit(OrderKind::Buy, &OrderCommons { quantity: 1, price: Price::from_u64(3) });
    }
    assert_eq!(exchange.recent(10).len(), 2);
    assert_eq!(exchange.history.len(), 2);
}

#[test]
fn an_order_for_nothing_is_turned_away() {
    let mut exchange = Exchange::with_history_capacity(10);
    let watcher = exchange.subscribe(Topic::OrderAdded).unwrap();
    let nothing = OrderCommons { quantity: 0, price: Price::from_u64(5) };
    assert!(matches!(exchange.try_submit(OrderKind::Buy, &nothing), Err(Rejection::ZeroQuantity)));
    assert!(matches!(exchange.try_submit(OrderKind::Sell, &nothing), Err(Rejection::ZeroQuantity)));
    assert_eq!(exchange.snapshot(OrderKind::Buy, 5).len(), 0);
    assert_eq!(exchange.snapshot(OrderKind::Sell, 5).len(), 0);
    assert!(exchange.take(watcher).is_none());
    let one = OrderCommons { quantity: 1, price: Price::from_u64(5) };
    let report = exchange.try_submit(OrderKind::Buy, &one).expect("a positive quantity is accepted");
    assert_eq!(report.resting.unwrap().data.quantity, 1);
    assert!(exchange.take(watcher).is_some());
}
