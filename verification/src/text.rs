//! How orders read as text.

use vstd::prelude::*;
use crate::model::{Order, OrderCommons, OrderKind, OrderView};
use crate::price::{digits_value, Price};

verus! {

/// The character of a decimal digit.
pub open spec fn digit_char(d: nat) -> char {
    ((48 + d) as u8) as char
}

/// A natural number in decimal, without leading zeros.
pub open spec fn decimal(n: nat) -> Seq<char>
    decreases n,
{
    if n < 10 {
        seq![digit_char(n)]
    } else {
        decimal(n / 10).push(digit_char(n % 10))
    }
}

/// The number denoted by base 2^32 digits, in decimal.
///
/// Trusted: `BigUint::from_slice` reads the digits least significant first,
/// and `BigUint::to_str_radix` with radix 10 writes the value in decimal,
/// most significant digit first, `0` for zero and no leading zero otherwise.
#[verifier::external_body]
fn digits_decimal(digits: &Vec<u32>) -> (text: String)
    ensures
        text@ == decimal(digits_value(digits@)),
{
    num_bigint::BigUint::from_slice(digits.as_slice()).to_str_radix(10)
}

/// Appends `more` to `text`.
///
/// Trusted: `String::push_str` appends the given string slice to the end of
/// the string.
#[verifier::external_body]
pub(crate) fn append(text: &mut String, more: &str)
    ensures
        final(text)@ == old(text)@ + more@,
{
    text.push_str(more)
}

/// The name of a side.
pub open spec fn kind_text(kind: OrderKind) -> Seq<char> {
    match kind {
        OrderKind::Buy => "Buy"@,
        OrderKind::Sell => "Sell"@,
    }
}

/// How a quantity at a price reads.
pub open spec fn commons_text(commons: (usize, nat)) -> Seq<char> {
    "OrderCommons { quantity: "@ + decimal(commons.0 as nat) + ", price: "@ + decimal(commons.1) + " }"@
}

/// How a resident order reads.
pub open spec fn order_text(order: OrderView) -> Seq<char> {
    "Order { kind: "@ + kind_text(order.kind) + ", id: "@ + decimal(order.id as nat) + ", data: "@ + commons_text(
        (order.quantity, order.price),
    ) + " }"@
}

/// How a run of orders reads: one after the other, with a comma and a space
/// between neighbours.
pub open spec fn orders_text(orders: Seq<OrderView>) -> Seq<char>
    decreases orders.len(),
{
    if orders.len() == 0 {
        Seq::empty()
    } else if orders.len() == 1 {
        order_text(orders[0])
    } else {
        orders_text(orders.drop_last()) + ", "@ + order_text(orders.last())
    }
}

/// A `usize` in decimal.
pub fn usize_text(n: usize) -> (text: String)
    ensures
        text@ == decimal(n as nat),
{
    Price::from_u64(n as u64).to_text()
}

impl Price {
    /// The price in decimal.
    pub fn to_text(&self) -> (text: String)
        ensures
            text@ == decimal(self@),
    {
        proof {
            self.value_is_digits_value();
        }
        digits_decimal(self.digits())
    }
}

impl OrderKind {
    /// The name of the side.
    pub fn name(self) -> (text: &'static str)
        ensures
            text@ == kind_text(self),
    {
        match self {
            OrderKind::Buy => "Buy",
            OrderKind::Sell => "Sell",
        }
    }
}

impl OrderCommons {
    /// The quantity and price as text.
    pub fn to_text(&self) -> (text: String)
        ensures
            text@ == commons_text(self@),
    {
        let quantity = usize_text(self.quantity);
        let price = self.price.to_text();
        let mut text = String::new();
        append(&mut text, "OrderCommons { quantity: ");
        assert(text@ =~= "OrderCommons { quantity: "@);
        append(&mut text, quantity.as_str());
        append(&mut text, ", price: ");
        append(&mut text, price.as_str());
        append(&mut text, " }");
        text
    }
}

impl Order {
    /// The order as text.
    pub fn to_text(&self) -> (text: String)
        ensures
            text@ == order_text(self@),
    {
        let id = usize_text(self.id);
        let data = self.data.to_text();
        let mut text = String::new();
        append(&mut text, "Order { kind: ");
        assert(text@ =~= "Order { kind: "@);
        append(&mut text, self.kind.name());
        append(&mut text, ", id: ");
        append(&mut text, id.as_str());
        append(&mut text, ", data: ");
        append(&mut text, data.as_str());
        append(&mut text, " }");
        text
    }
}

} // verus!
