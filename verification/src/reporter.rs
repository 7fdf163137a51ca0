//! The synthetic order source: once per step it asks for one buy and one
//! sell, priced by an outside price law and leant against the imbalance of
//! the book.
//!
//! The price law itself is computed by the caller, who hands in its values
//! at the points named by [`Reporter::law_points`].

use vstd::prelude::*;
use crate::book::OrderBook;
use crate::model::OrderKind;
use crate::price::Price;
use crate::queue::ORDERBOOK_CAPACITY;

verus! {

/// The widest random step added to the law's price, before the unit that
/// keeps prices above zero.
pub const MARGIN: usize = 6;

/// How far ahead of the buy the sell reads the price law, per unit drawn.
pub const BIDDER_CROWD: usize = 10;

/// The largest number the source reckons with. A step accepts no base price
/// and no side of the book beyond it.
pub const PRICE_CEILING: u64 = 2_147_483_647;

/// A random number in `low..high`.
///
/// Trusted: `Rng::gen_range` on `rand::thread_rng()` returns a value of the
/// half-open range it is given. It panics on an empty range, which the
/// precondition rules out. Nothing else is claimed of the value.
#[verifier::external_body]
fn draw(low: usize, high: usize) -> (r: usize)
    requires
        low < high,
    ensures
        low <= r < high,
{
    rand::Rng::gen_range(&mut rand::thread_rng(), low..high)
}

/// An order the source asks for.
#[derive(Debug)]
pub struct OrderScaffold {
    pub price: Price,
    pub quantity: usize,
}

/// The orders of one step.
#[derive(Debug)]
pub struct ReportedScaffolds {
    pub bids: Vec<OrderScaffold>,
    pub asks: Vec<OrderScaffold>,
}

/// A price leant by `lean`, and never below one.
pub open spec fn leant(price: int, lean: int) -> int {
    if price - lean >= 1 {
        price - lean
    } else {
        1
    }
}

/// The price a step asks on side `kind`, from the base price `base` and the
/// two sides `bids` and `asks` of the book, as their prices best first.
///
/// The base is leant against the book's imbalance: down for buys and up for
/// sells by the number of bids in excess of asks. Once the other side is
/// crowded, the order instead takes that side's best price, so that it
/// trades.
pub open spec fn asked_price(kind: OrderKind, base: int, bids: Seq<nat>, asks: Seq<nat>) -> int {
    let lean = bids.len() - asks.len();
    match kind {
        OrderKind::Buy => if asks.len() < ORDERBOOK_CAPACITY {
            leant(base, lean)
        } else {
            asks[0] as int
        },
        OrderKind::Sell => if bids.len() < ORDERBOOK_CAPACITY {
            leant(base, -lean)
        } else {
            bids[0] as int
        },
    }
}

/// The prices of the resident orders of side `kind`, best first.
pub open spec fn side_prices(book: OrderBook, kind: OrderKind) -> Seq<nat> {
    Seq::new(book.side(kind).len(), |i: int| book.side(kind)[i].price)
}

/// The synthetic order source.
#[derive(Debug)]
pub struct Reporter {
    n: u64,
}

impl Reporter {
    /// The number of steps taken, modulo 2^64.
    pub closed spec fn steps(&self) -> u64 {
        self.n
    }

    /// A source that has taken no step.
    pub fn new() -> (r: Reporter)
        ensures
            r.steps() == 0,
    {
        Reporter { n: 0 }
    }

    /// The points at which the next step wants the price law: the first for
    /// its buy, the second for its sell.
    pub fn law_points(&self) -> (r: (u64, u64))
        ensures
            r.0 == self.steps(),
            r.1 == self.steps(),
    {
        let ahead: usize = draw(0, 1) * BIDDER_CROWD;
        (self.n, self.n.wrapping_add(ahead as u64))
    }

    /// The orders of a step with the given base prices and quantities,
    /// against `book`.
    pub fn scaffolds(book: &OrderBook, bid_base: u64, ask_base: u64, bid_quantity: usize, ask_quantity: usize) -> (r:
        ReportedScaffolds)
        requires
            book.wf(),
            bid_base <= PRICE_CEILING,
            ask_base <= PRICE_CEILING,
            book.side(OrderKind::Buy).len() <= PRICE_CEILING,
            book.side(OrderKind::Sell).len() <= PRICE_CEILING,
        ensures
            r.bids@.len() == 1,
            r.asks@.len() == 1,
            r.bids@[0].quantity == bid_quantity,
            r.asks@[0].quantity == ask_quantity,
            r.bids@[0].price@ == asked_price(
                OrderKind::Buy,
                bid_base as int,
                side_prices(*book, OrderKind::Buy),
                side_prices(*book, OrderKind::Sell),
            ),
            r.asks@[0].price@ == asked_price(
                OrderKind::Sell,
                ask_base as int,
                side_prices(*book, OrderKind::Buy),
                side_prices(*book, OrderKind::Sell),
            ),
    {
        let bids_total: usize = book.bids_total();
        let asks_total: usize = book.asks_total();
        let lean: i64 = bids_total as i64 - asks_total as i64;
        let bid_price = match book.best(OrderKind::Sell) {
            Some(best) if asks_total >= ORDERBOOK_CAPACITY => best.data.price.clone(),
            _ => Price::from_u64(lean_price(bid_base, lean)),
        };
        let ask_price = match book.best(OrderKind::Buy) {
            Some(best) if bids_total >= ORDERBOOK_CAPACITY => best.data.price.clone(),
            _ => Price::from_u64(lean_price(ask_base, -lean)),
        };
        let mut bids: Vec<OrderScaffold> = Vec::new();
        bids.push(OrderScaffold { price: bid_price, quantity: bid_quantity });
        let mut asks: Vec<OrderScaffold> = Vec::new();
        asks.push(OrderScaffold { price: ask_price, quantity: ask_quantity });
        ReportedScaffolds { bids, asks }
    }

    /// Takes a step: one buy and one sell, each for a random quantity from 1
    /// to 99, priced from the law's values `bid_law` and `ask_law` plus a
    /// fluctuation, against `book`.
    pub fn step(&mut self, book: &OrderBook, bid_law: u64, ask_law: u64) -> (r: ReportedScaffolds)
        requires
            book.wf(),
            bid_law + MARGIN + 1 <= PRICE_CEILING,
            ask_law + MARGIN + 1 <= PRICE_CEILING,
            book.side(OrderKind::Buy).len() <= PRICE_CEILING,
            book.side(OrderKind::Sell).len() <= PRICE_CEILING,
        ensures
            final(self).steps() == if old(self).steps() == u64::MAX {
                0
            } else {
                old(self).steps() + 1
            },
            r.bids@.len() == 1,
            r.asks@.len() == 1,
            1 <= r.bids@[0].quantity < 100,
            1 <= r.asks@[0].quantity < 100,
            r.bids@[0].price@ == asked_price(
                OrderKind::Buy,
                bid_law + 1,
                side_prices(*book, OrderKind::Buy),
                side_prices(*book, OrderKind::Sell),
            ),
            r.asks@[0].price@ == asked_price(
                OrderKind::Sell,
                ask_law + 1,
                side_prices(*book, OrderKind::Buy),
                side_prices(*book, OrderKind::Sell),
            ),
    {
        let bid_base: u64 = bid_law + fluctuation();
        let bid_quantity: usize = draw(1, 100);
        let ask_base: u64 = ask_law + fluctuation();
        let ask_quantity: usize = draw(1, 100);
        self.n = self.n.wrapping_add(1);
        Reporter::scaffolds(book, bid_base, ask_base, bid_quantity, ask_quantity)
    }
}

/// The random step added to the law's price; never zero, so that no price is.
fn fluctuation() -> (r: u64)
    ensures
        r == 1,
{
    (draw(0, 1) * MARGIN + 1) as u64
}

/// `base` leant by `lean`, and never below one.
fn lean_price(base: u64, lean: i64) -> (r: u64)
    requires
        base <= PRICE_CEILING,
        -PRICE_CEILING <= lean <= PRICE_CEILING,
    ensures
        r == leant(base as int, lean as int),
{
    let moved: i64 = base as i64 - lean;
    if moved >= 1 {
        moved as u64
    } else {
        1
    }
}

} // verus!
