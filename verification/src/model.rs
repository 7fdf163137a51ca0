//! The values the engine works on: sides, order intents, resident orders and
//! completed trades, each with the mathematical view its contracts use.

use vstd::prelude::*;
use crate::price::Price;

verus! {

/// The side of an order.
#[derive(Clone, Copy, Debug, PartialEq, Eq, Hash, Structural)]
pub enum OrderKind {
    Buy,
    Sell,
}

impl OrderKind {
    /// The side an order of this side trades against.
    pub open spec fn spec_opposite(self) -> OrderKind {
        match self {
            OrderKind::Buy => OrderKind::Sell,
            OrderKind::Sell => OrderKind::Buy,
        }
    }

    /// The side an order of this side trades against.
    #[verifier::when_used_as_spec(spec_opposite)]
    pub fn opposite(self) -> (r: OrderKind)
        ensures
            r == self.spec_opposite(),
    {
        match self {
            OrderKind::Buy => OrderKind::Sell,
            OrderKind::Sell => OrderKind::Buy,
        }
    }
}

/// Whether `a` has strict priority over `b` among resting orders of side
/// `kind`: the higher price among buys, the lower price among sells.
pub open spec fn outranks(kind: OrderKind, a: nat, b: nat) -> bool {
    match kind {
        OrderKind::Buy => a > b,
        OrderKind::Sell => a < b,
    }
}

/// The crossing condition: whether an incoming order of side `kind` with
/// limit price `limit` may trade against a resting order priced `resting`.
pub open spec fn crosses(kind: OrderKind, resting: nat, limit: nat) -> bool {
    match kind {
        OrderKind::Buy => resting <= limit,
        OrderKind::Sell => resting >= limit,
    }
}

/// What an order asks for: a quantity at a limit price.
#[derive(Debug)]
pub struct OrderCommons {
    pub quantity: usize,
    pub price: Price,
}

impl View for OrderCommons {
    type V = (usize, nat);

    open spec fn view(&self) -> (usize, nat) {
        (self.quantity, self.price@)
    }
}

impl Clone for OrderCommons {
    fn clone(&self) -> (r: Self)
        ensures
            r@ == self@,
    {
        OrderCommons { quantity: self.quantity, price: self.price.clone() }
    }
}

/// The view of a resident order.
pub struct OrderView {
    pub id: usize,
    pub quantity: usize,
    pub price: nat,
    pub kind: OrderKind,
}

/// An order resting in the book. Its `id` is its slot in its side's table:
/// unique among the orders resident on that side at one time, and free to be
/// handed out again once the order has left.
#[derive(Debug)]
pub struct Order {
    pub id: usize,
    pub data: OrderCommons,
    pub kind: OrderKind,
}

impl View for Order {
    type V = OrderView;

    open spec fn view(&self) -> OrderView {
        OrderView { id: self.id, quantity: self.data.quantity, price: self.data.price@, kind: self.kind }
    }
}

impl Clone for Order {
    fn clone(&self) -> (r: Self)
        ensures
            r@ == self@,
    {
        Order { id: self.id, data: self.data.clone(), kind: self.kind }
    }
}

/// A point in time: whole seconds since the Unix epoch and the nanoseconds
/// past that second.
#[derive(Clone, Copy, Debug, PartialEq, Eq, Hash, Structural)]
pub struct Timestamp {
    pub seconds: i64,
    pub nanos: u32,
}

/// What a trade settled: price, quantity and the side of the incoming order
/// that caused it.
pub struct DealTerms {
    pub price: nat,
    pub quantity: usize,
    pub kind: OrderKind,
}

/// The view of a completed trade.
pub struct DealView {
    pub terms: DealTerms,
    pub id: u128,
    pub created_at: Timestamp,
}

/// A completed trade. `kind` is the side of the incoming order.
#[derive(Debug)]
pub struct Deal {
    pub price: Price,
    pub quantity: usize,
    pub id: u128,
    pub created_at: Timestamp,
    pub kind: OrderKind,
}

impl View for Deal {
    type V = DealView;

    open spec fn view(&self) -> DealView {
        DealView {
            terms: DealTerms { price: self.price@, quantity: self.quantity, kind: self.kind },
            id: self.id,
            created_at: self.created_at,
        }
    }
}

impl Clone for Deal {
    fn clone(&self) -> (r: Self)
        ensures
            r@ == self@,
    {
        Deal {
            price: self.price.clone(),
            quantity: self.quantity,
            id: self.id,
            created_at: self.created_at,
            kind: self.kind,
        }
    }
}

/// A fresh random identifier.
///
/// Trusted: calls `uuid::Uuid::new_v4` and hands out its 128 bits. Nothing is
/// claimed of the value.
#[verifier::external_body]
fn fresh_id() -> (id: u128) {
    uuid::Uuid::new_v4().as_u128()
}

/// The current time.
///
/// Trusted: calls `chrono::Utc::now` and hands out its seconds and subsecond
/// nanoseconds. Nothing is claimed of the value. `Utc::now` aborts on a
/// machine whose clock reads before the Unix epoch.
#[verifier::external_body]
fn current_time() -> (now: Timestamp) {
    let now = chrono::Utc::now();
    Timestamp { seconds: now.timestamp(), nanos: now.timestamp_subsec_nanos() }
}

impl Deal {
    /// The trade with exactly these fields.
    pub fn stamped(price: Price, quantity: usize, kind: OrderKind, id: u128, created_at: Timestamp) -> (r: Deal)
        ensures
            r@.terms == (DealTerms { price: price@, quantity, kind }),
            r@.id == id,
            r@.created_at == created_at,
    {
        Deal { price, quantity, id, created_at, kind }
    }

    /// A trade on the given terms, identified by a fresh random id and
    /// stamped with the current time.
    pub fn new(price: Price, quantity: usize, kind: OrderKind) -> (r: Deal)
        ensures
            r@.terms == (DealTerms { price: price@, quantity, kind }),
    {
        let id: u128 = fresh_id();
        let created_at = current_time();
        Deal::stamped(price, quantity, kind, id, created_at)
    }
}

} // verus!
