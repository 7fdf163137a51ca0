use orderbook::matcher::price_crosses;
use orderbook::model::OrderKind;
use orderbook::price::Price;
use orderbook::queue::price_outranks;

#[test]
fn from_u64_splits_into_two_digits() {
    let p = Price::from_u64(0x0000_0002_0000_0001);
    assert_eq!(p.digits(), &vec![1u32, 2u32]);
    assert_eq!(Price::from_u64(0).digits(), &vec![0u32, 0u32]);
    assert_eq!(Price::from_u64(u64::MAX).digits(), &vec![u32::MAX, u32::MAX]);
}

#[test]
fn prices_compare_by_value() {
    let small = Price::from_u64(u32::MAX as u64);
    let big = Price::from_digits(vec![0, 1]);
    assert!(small.at_most(&big));
    assert!(!big.at_most(&small));
    assert!(big.at_least(&small));
    assert!(!small.at_least(&big));
    assert!(small.at_most(&small));
    assert!(small.at_least(&small));
    assert!(!small.same(&big));
}

#[test]
fn high_zero_digits_do_not_change_a_price() {
    let a = Price::from_digits(vec![7]);
    let b = Price::from_digits(vec![7, 0, 0]);
    let zero = Price::from_digits(vec![]);
    assert!(a.same(&b));
    assert!(a.same(&Price::from_u64(7)));
    assert!(zero.same(&Price::from_u64(0)));
    assert!(zero.at_most(&a));
}

#[test]
fn prices_beyond_sixty_four_bits_compare() {
    let a = Price::from_digits(vec![0, 0, 1]);
    let b = Price::from_digits(vec![u32::MAX, u32::MAX]);
    let c = Price::from_digits(vec![1, 0, 1]);
    assert!(b.at_most(&a));
    assert!(!a.at_most(&b));
    assert!(a.at_most(&c));
    assert!(!c.at_most(&a));
    assert!(b.same(&Price::from_u64(u64::MAX)));
}

#[test]
fn a_cloned_price_is_the_same_price() {
    let a = Price::from_digits(vec![5, 6, 7]);
    assert!(a.clone().same(&a));
    assert_eq!(a.clone().digits(), a.digits());
}

#[test]
fn opposite_sides() {
    assert_eq!(OrderKind::Buy.opposite(), OrderKind::Sell);
    assert_eq!(OrderKind::Sell.opposite(), OrderKind::Buy);
}

#[test]
fn outranking_and_crossing_follow_the_side() {
    let low = Price::from_u64(90);
    let high = Price::from_u64(100);
    assert!(price_outranks(OrderKind::Buy, &high, &low));
    assert!(!price_outranks(OrderKind::Buy, &low, &high));
    assert!(!price_outranks(OrderKind::Buy, &low, &low));
    assert!(price_outranks(OrderKind::Sell, &low, &high));
    assert!(!price_outranks(OrderKind::Sell, &high, &low));
    assert!(price_crosses(OrderKind::Buy, &low, &high));
    assert!(!price_crosses(OrderKind::Buy, &high, &low));
    assert!(price_crosses(OrderKind::Sell, &high, &low));
    assert!(!price_crosses(OrderKind::Sell, &low, &high));
    assert!(price_crosses(OrderKind::Buy, &low, &low));
    assert!(price_crosses(OrderKind::Sell, &low, &low));
}
