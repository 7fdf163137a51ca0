use orderbook::model::{Order, OrderCommons, OrderKind};
use orderbook::price::Price;
use orderbook::slice_display::SliceDisplay;
use orderbook::text::usize_text;

fn order(kind: OrderKind, id: usize, quantity: usize, price: u64) -> Order {
    Order { id, data: OrderCommons { quantity, price: Price::from_u64(price) }, kind }
}

#[test]
fn prices_read_in_decimal() {
    assert_eq!(Price::from_u64(0).to_text(), "0");
    assert_eq!(Price::from_u64(7).to_text(), "7");
    assert_eq!(Price::from_u64(100).to_text(), "100");
    assert_eq!(Price::from_u64(u64::MAX).to_text(), "18446744073709551615");
    assert_eq!(Price::from_digits(vec![0, 0, 1]).to_text(), "18446744073709551616");
    assert_eq!(Price::from_digits(vec![]).to_text(), "0");
    assert_eq!(Price::from_digits(vec![830850304, 26]).to_text(), "112500000000");
}

#[test]
fn numbers_read_in_decimal() {
    assert_eq!(usize_text(0), "0");
    assert_eq!(usize_text(9), "9");
    assert_eq!(usize_text(10), "10");
    assert_eq!(usize_text(4294967296), "4294967296");
}

#[test]
fn sides_read_as_their_names() {
    assert_eq!(OrderKind::Buy.name(), "Buy");
    assert_eq!(OrderKind::Sell.name(), "Sell");
}

#[test]
fn an_order_reads_with_all_its_fields() {
    let o = order(OrderKind::Buy, 3, 10, 100);
    assert_eq!(o.data.to_text(), "OrderCommons { quantity: 10, price: 100 }");
    assert_eq!(o.to_text(), "Order { kind: Buy, id: 3, data: OrderCommons { quantity: 10, price: 100 } }");
}

#[test]
fn a_slice_reads_with_commas_between_items() {
    let orders = vec![order(OrderKind::Sell, 0, 1, 2), order(OrderKind::Sell, 1, 3, 4)];
    assert_eq!(
        SliceDisplay(&orders).to_text(),
        "Order { kind: Sell, id: 0, data: OrderCommons { quantity: 1, price: 2 } }, Order { kind: Sell, id: 1, data: OrderCommons { quantity: 3, price: 4 } }"
    );
    assert_eq!(SliceDisplay(&orders[..1]).to_text(), "Order { kind: Sell, id: 0, data: OrderCommons { quantity: 1, price: 2 } }");
    assert_eq!(SliceDisplay(&orders[..0]).to_text(), "");
}

#[test]
fn orders_of_one_side_rank_by_price() {
    let low = order(OrderKind::Buy, 0, 1, 90);
    let high = order(OrderKind::Buy, 1, 1, 100);
    assert!(high.outranks(&low));
    assert!(!low.outranks(&high));
    assert!(!low.outranks(&low));
    let cheap = order(OrderKind::Sell, 0, 1, 90);
    let dear = order(OrderKind::Sell, 1, 1, 100);
    assert!(cheap.outranks(&dear));
    assert!(!dear.outranks(&cheap));
    assert!(low.same_slot(&order(OrderKind::Buy, 0, 5, 5)));
    assert!(!low.same_slot(&cheap));
    assert!(!low.same_slot(&high));
}
