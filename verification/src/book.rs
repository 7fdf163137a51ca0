//! The order book: the resting buy orders and the resting sell orders, each
//! side a queue in priority order with its own slot table.

use vstd::prelude::*;
use crate::model::{outranks, Order, OrderCommons, OrderKind, OrderView};
use crate::price::Price;
use crate::queue::{arrival_index, holds_id, ranked, views, OrderQueue};

verus! {

/// How many orders a snapshot holds where the reader names no limit.
pub const DEFAULT_LIMIT: usize = 100;

/// The first `limit` entries of `queue`, or all of it where it is shorter.
pub open spec fn leading(queue: Seq<OrderView>, limit: usize) -> Seq<OrderView> {
    queue.take(if limit <= queue.len() { limit as int } else { queue.len() as int })
}

/// Copies of the leading orders of a queue, best first: at most `limit` of
/// them, or at most [`DEFAULT_LIMIT`] where no limit is given.
pub fn sorted_slice(h: &OrderQueue, limit: Option<usize>) -> (r: Vec<Order>)
    ensures
        views(r@) == leading(
            h@,
            match limit {
                Some(n) => n,
                None => DEFAULT_LIMIT,
            },
        ),
{
    match limit {
        Some(n) => h.snapshot(n),
        None => h.snapshot(DEFAULT_LIMIT),
    }
}

/// Both sides of the book.
pub struct OrderBook {
    bids: OrderQueue,
    asks: OrderQueue,
}

impl OrderBook {
    /// The queue of side `kind`.
    pub closed spec fn queue(&self, kind: OrderKind) -> OrderQueue {
        match kind {
            OrderKind::Buy => self.bids,
            OrderKind::Sell => self.asks,
        }
    }

    /// The resident orders of side `kind`, best first.
    pub open spec fn side(&self, kind: OrderKind) -> Seq<OrderView> {
        self.queue(kind)@
    }

    /// The book's invariant: each side is a well-formed queue of its own side.
    pub open spec fn wf(&self) -> bool {
        &&& self.queue(OrderKind::Buy).wf()
        &&& self.queue(OrderKind::Buy).kind() == OrderKind::Buy
        &&& self.queue(OrderKind::Sell).wf()
        &&& self.queue(OrderKind::Sell).kind() == OrderKind::Sell
    }

    /// An empty book.
    pub fn new() -> (r: OrderBook)
        ensures
            r.wf(),
            r.side(OrderKind::Buy) == Seq::<OrderView>::empty(),
            r.side(OrderKind::Sell) == Seq::<OrderView>::empty(),
    {
        OrderBook {
            bids: OrderQueue::new(OrderKind::Buy),
            asks: OrderQueue::new(OrderKind::Sell),
        }
    }

    /// The number of resident orders of side `kind`.
    pub fn total(&self, kind: OrderKind) -> (n: usize)
        ensures
            n == self.side(kind).len(),
    {
        match kind {
            OrderKind::Buy => self.bids.len(),
            OrderKind::Sell => self.asks.len(),
        }
    }

    /// The top-priority order of side `kind`, left in place; `None` where the
    /// side is empty. No resident order of that side outranks it.
    pub fn best(&self, kind: OrderKind) -> (r: Option<&Order>)
        requires
            self.wf(),
        ensures
            self.side(kind).len() == 0 ==> r.is_none(),
            self.side(kind).len() > 0 ==> r.is_some() && r.unwrap()@ == self.side(kind)[0],
            r.is_some() ==> forall|i: int|
                0 <= i < self.side(kind).len() ==> !outranks(
                    kind,
                    (#[trigger] self.side(kind)[i]).price,
                    r.unwrap()@.price,
                ),
    {
        match kind {
            OrderKind::Buy => self.bids.peek(),
            OrderKind::Sell => self.asks.peek(),
        }
    }

    /// Removes and returns the top-priority order of side `kind`, releasing
    /// its slot; `None`, and nothing changed, where the side is empty.
    pub fn pop_best(&mut self, kind: OrderKind) -> (r: Option<Order>)
        requires
            old(self).wf(),
        ensures
            final(self).wf(),
            final(self).queue(kind.opposite()) == old(self).queue(kind.opposite()),
            old(self).side(kind).len() == 0 ==> r.is_none() && final(self).side(kind) == old(self).side(kind),
            old(self).side(kind).len() > 0 ==> r.is_some() && r.unwrap()@ == old(self).side(kind)[0]
                && final(self).side(kind) == old(self).side(kind).skip(1),
    {
        match kind {
            OrderKind::Buy => self.bids.pop(),
            OrderKind::Sell => self.asks.pop(),
        }
    }

    /// Rests a new order of side `kind`: takes a vacant slot of that side for
    /// it and places it behind every resident order it does not outrank.
    /// Returns the order, with its id.
    pub fn insert(&mut self, kind: OrderKind, price: Price, quantity: usize) -> (r: Order)
        requires
            old(self).wf(),
            quantity > 0,
        ensures
            final(self).wf(),
            final(self).queue(kind.opposite()) == old(self).queue(kind.opposite()),
            r@.quantity == quantity,
            r@.price == price@,
            r@.kind == kind,
            !holds_id(old(self).side(kind), r@.id),
            final(self).side(kind) == old(self).side(kind).insert(
                arrival_index(kind, old(self).side(kind), price@),
                r@,
            ),
    {
        let data = OrderCommons { quantity, price };
        match kind {
            OrderKind::Buy => self.bids.insert(data),
            OrderKind::Sell => self.asks.insert(data),
        }
    }

    /// Takes `quantity` off the top-priority order of side `kind`, which is
    /// larger: that order leaves, and a new order for what is left of it
    /// arrives at the same price under an id of its own. Returns the order
    /// that left and the order that arrived.
    pub fn reduce_best(&mut self, kind: OrderKind, quantity: usize) -> (r: (Order, Order))
        requires
            old(self).wf(),
            old(self).side(kind).len() > 0,
            0 < quantity < old(self).side(kind)[0].quantity,
        ensures
            final(self).wf(),
            final(self).queue(kind.opposite()) == old(self).queue(kind.opposite()),
            r.0@ == old(self).side(kind)[0],
            r.1@.quantity == old(self).side(kind)[0].quantity - quantity,
            r.1@.price == old(self).side(kind)[0].price,
            r.1@.kind == kind,
            !holds_id(old(self).side(kind), r.1@.id),
            final(self).side(kind) == old(self).side(kind).skip(1).insert(
                arrival_index(kind, old(self).side(kind).skip(1), old(self).side(kind)[0].price),
                r.1@,
            ),
    {
        match kind {
            OrderKind::Buy => self.bids.reduce_best(quantity),
            OrderKind::Sell => self.asks.reduce_best(quantity),
        }
    }

    /// Copies of the first `limit` resident orders of side `kind`, best first,
    /// or of all of them where the side holds fewer. The book is not changed.
    pub fn snapshot(&self, kind: OrderKind, limit: usize) -> (r: Vec<Order>)
        ensures
            views(r@) == leading(self.side(kind), limit),
    {
        match kind {
            OrderKind::Buy => sorted_slice(&self.bids, Some(limit)),
            OrderKind::Sell => sorted_slice(&self.asks, Some(limit)),
        }
    }

    /// The number of resting buy orders.
    pub fn bids_total(&self) -> (n: usize)
        ensures
            n == self.side(OrderKind::Buy).len(),
    {
        self.bids.len()
    }

    /// The leading resting buy orders, best first.
    pub fn bids(&self, limit: Option<usize>) -> (r: Vec<Order>)
        ensures
            views(r@) == leading(
                self.side(OrderKind::Buy),
                match limit {
                    Some(n) => n,
                    None => DEFAULT_LIMIT,
                },
            ),
    {
        sorted_slice(&self.bids, limit)
    }

    /// The number of resting sell orders.
    pub fn asks_total(&self) -> (n: usize)
        ensures
            n == self.side(OrderKind::Sell).len(),
    {
        self.asks.len()
    }

    /// The leading resting sell orders, best first.
    pub fn asks(&self, limit: Option<usize>) -> (r: Vec<Order>)
        ensures
            views(r@) == leading(
                self.side(OrderKind::Sell),
                match limit {
                    Some(n) => n,
                    None => DEFAULT_LIMIT,
                },
            ),
    {
        sorted_slice(&self.asks, limit)
    }
}

/// The state of the order book, as the engine owns it.
pub struct OrderBookData {
    pub orderbook: OrderBook,
}

impl OrderBookData {
    /// The state of an empty book.
    pub fn new() -> (r: OrderBookData)
        ensures
            r.orderbook.wf(),
            r.orderbook.side(OrderKind::Buy) == Seq::<OrderView>::empty(),
            r.orderbook.side(OrderKind::Sell) == Seq::<OrderView>::empty(),
    {
        OrderBookData { orderbook: OrderBook::new() }
    }
}

/// Reading a side twice from one book gives the same orders: a snapshot is
/// determined by the book's state and the limit.
pub proof fn snapshot_is_repeatable(
    book: OrderBook,
    kind: OrderKind,
    limit: usize,
    first: Seq<Order>,
    second: Seq<Order>,
)
    requires
        views(first) == leading(book.side(kind), limit),
        views(second) == leading(book.side(kind), limit),
    ensures
        views(first) == views(second),
        first.len() == second.len(),
        forall|i: int| 0 <= i < first.len() ==> (#[trigger] first[i])@ == second[i]@,
{
    assert(views(first).len() == first.len());
    assert(views(second).len() == second.len());
    assert forall|i: int| 0 <= i < first.len() implies (#[trigger] first[i])@ == second[i]@ by {
        assert(views(first)[i] == first[i]@);
        assert(views(second)[i] == second[i]@);
    }
}

/// The best order of a ranked side is outranked by none of that side.
pub proof fn best_is_unrivalled(kind: OrderKind, side: Seq<OrderView>)
    requires
        ranked(kind, side),
        side.len() > 0,
    ensures
        forall|i: int| 0 <= i < side.len() ==> !outranks(kind, (#[trigger] side[i]).price, side[0].price),
        kind == OrderKind::Buy ==> forall|i: int| 0 <= i < side.len() ==> side[0].price >= (#[trigger] side[i]).price,
        kind == OrderKind::Sell ==> forall|i: int| 0 <= i < side.len() ==> side[0].price <= (#[trigger] side[i]).price,
{
}

} // verus!
