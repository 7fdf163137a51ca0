use orderbook::book::OrderBook;
use orderbook::exchange::Exchange;
use orderbook::model::OrderKind;
use orderbook::price::Price;
use orderbook::reporter::{Reporter, BIDDER_CROWD, MARGIN};

fn value(p: &Price) -> u32 {
    assert_eq!(p.digits()[1], 0);
    p.digits()[0]
}

#[test]
fn a_step_asks_for_one_buy_and_one_sell() {
    let book = OrderBook::new();
    let mut reporter = Reporter::new();
    for _ in 0..50 {
        let step = reporter.step(&book, 200, 200);
        assert_eq!(step.bids.len(), 1);
        assert_eq!(step.asks.len(), 1);
        assert!((1..100).contains(&step.bids[0].quantity));
        assert!((1..100).contains(&step.asks[0].quantity));
        assert_eq!(value(&step.bids[0].price), 201);
        assert_eq!(value(&step.asks[0].price), 201);
    }
}

#[test]
fn law_points_follow_the_step_count() {
    let book = OrderBook::new();
    let mut reporter = Reporter::new();
    assert_eq!(reporter.law_points(), (0, 0));
    reporter.step(&book, 100, 100);
    reporter.step(&book, 100, 100);
    assert_eq!(reporter.law_points(), (2, 2));
    assert_eq!(MARGIN, 6);
    assert_eq!(BIDDER_CROWD, 10);
}

#[test]
fn prices_lean_against_the_imbalance() {
    let mut book = OrderBook::new();
    for _ in 0..3 {
        book.insert(OrderKind::Buy, Price::from_u64(10), 1);
    }
    book.insert(OrderKind::Sell, Price::from_u64(500), 1);
    let step = Reporter::scaffolds(&book, 100, 100, 7, 8);
    assert_eq!(value(&step.bids[0].price), 98);
    assert_eq!(value(&step.asks[0].price), 102);
    assert_eq!(step.bids[0].quantity, 7);
    assert_eq!(step.asks[0].quantity, 8);
}

#[test]
fn leant_prices_never_fall_below_one() {
    let mut book = OrderBook::new();
    for _ in 0..5 {
        book.insert(OrderKind::Buy, Price::from_u64(10), 1);
    }
    let step = Reporter::scaffolds(&book, 3, 3, 1, 1);
    assert_eq!(value(&step.bids[0].price), 1);
    assert_eq!(value(&step.asks[0].price), 8);
    let mut other = OrderBook::new();
    for _ in 0..5 {
        other.insert(OrderKind::Sell, Price::from_u64(10), 1);
    }
    let step = Reporter::scaffolds(&other, 5, 5, 1, 1);
    assert_eq!(value(&step.bids[0].price), 10);
    assert_eq!(value(&step.asks[0].price), 1);
}

#[test]
fn a_crowded_side_is_met_at_its_best_price() {
    let mut book = OrderBook::new();
    for p in 0..50u64 {
        book.insert(OrderKind::Sell, Price::from_u64(1000 + p), 1);
    }
    let step = Reporter::scaffolds(&book, 100, 100, 1, 1);
    assert_eq!(value(&step.bids[0].price), 1000);
    assert_eq!(value(&step.asks[0].price), 50);
    let mut bids = OrderBook::new();
    for p in 0..50u64 {
        bids.insert(OrderKind::Buy, Price::from_u64(10 + p), 1);
    }
    let step = Reporter::scaffolds(&bids, 100, 100, 1, 1);
    assert_eq!(value(&step.asks[0].price), 59);
    assert_eq!(value(&step.bids[0].price), 50);
}

#[test]
fn a_tick_submits_the_buy_then_the_sell() {
    let mut exchange = Exchange::with_history_capacity(10);
    let mut reporter = Reporter::new();
    let (bought, sold) = exchange.tick(&mut reporter, 200, 200);
    assert!(bought.deals.is_empty());
    let bid = bought.resting.expect("the buy rests in an empty book");
    assert_eq!(bid.kind, OrderKind::Buy);
    assert_eq!(value(&bid.data.price), 201);
    assert_eq!(sold.deals.len(), 1);
    assert_eq!(sold.deals[0].kind, OrderKind::Sell);
    assert_eq!(value(&sold.deals[0].price), 201);
    assert_eq!(sold.removed[0].id, bid.id);
    assert_eq!(reporter.law_points(), (1, 1));
    let resting: usize = exchange
        .snapshot(OrderKind::Buy, 10)
        .iter()
        .chain(exchange.snapshot(OrderKind::Sell, 10).iter())
        .map(|o| o.data.quantity)
        .sum();
    let sell_quantity = sold.deals[0].quantity + sold.resting.as_ref().map_or(0, |o| o.data.quantity);
    assert_eq!(resting + 2 * sold.deals[0].quantity, bid.data.quantity + sell_quantity);
}
