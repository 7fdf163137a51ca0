//! One side of the book: its resident orders in priority order, and the slot
//! table that names them.
//!
//! The queue is kept best first. Among orders of equal price the one that
//! arrived earlier stands nearer the front, so priority is price first and
//! arrival second.

use vstd::prelude::*;
use slab::Slab;
use crate::model::{outranks, Order, OrderCommons, OrderKind, OrderView};
use crate::price::Price;
use crate::slots::{empty_slots, occupy_slot, release_slot, slot_entries};

verus! {

/// The number of orders a side has room for before it grows.
pub const ORDERBOOK_CAPACITY: usize = 50;

/// The views of a run of orders, in the same order.
pub open spec fn views(orders: Seq<Order>) -> Seq<OrderView> {
    orders.map_values(|o: Order| o@)
}

/// Whether some order in `queue` carries the id `id`.
pub open spec fn holds_id(queue: Seq<OrderView>, id: usize) -> bool {
    exists|i: int| 0 <= i < queue.len() && (#[trigger] queue[i]).id == id
}

/// What holds of the resident orders of side `kind`, read best first: each is
/// of that side and asks for a positive quantity, none outranks one that
/// stands before it, and no id occurs twice.
pub open spec fn ranked(kind: OrderKind, queue: Seq<OrderView>) -> bool {
    &&& forall|i: int| 0 <= i < queue.len() ==> (#[trigger] queue[i]).kind == kind && queue[i].quantity > 0
    &&& forall|i: int, j: int|
        0 <= i < j < queue.len() ==> !outranks(kind, (#[trigger] queue[j]).price, (#[trigger] queue[i]).price)
    &&& forall|i: int, j: int|
        0 <= i < j < queue.len() ==> (#[trigger] queue[i]).id != (#[trigger] queue[j]).id
}

/// The place a newcomer priced `price` takes in a best-first queue of side
/// `kind`: in front of the first order it outranks, behind all others.
pub open spec fn arrival_index(kind: OrderKind, queue: Seq<OrderView>, price: nat) -> int
    decreases queue.len(),
{
    if queue.len() == 0 || outranks(kind, price, queue[0].price) {
        0
    } else {
        1 + arrival_index(kind, queue.skip(1), price)
    }
}

/// The sum of the quantities of the orders in `queue`.
pub open spec fn resting_quantity(queue: Seq<OrderView>) -> int
    decreases queue.len(),
{
    if queue.len() == 0 {
        0
    } else {
        queue[0].quantity + resting_quantity(queue.skip(1))
    }
}

/// The arrival index lies within the queue's bounds, the newcomer outranks
/// nobody in front of it, and it outranks the order it displaces.
pub proof fn lemma_arrival_index(kind: OrderKind, queue: Seq<OrderView>, price: nat)
    ensures
        0 <= arrival_index(kind, queue, price) <= queue.len(),
        forall|j: int|
            0 <= j < arrival_index(kind, queue, price) ==> !outranks(kind, price, (#[trigger] queue[j]).price),
        arrival_index(kind, queue, price) < queue.len() ==> outranks(
            kind,
            price,
            queue[arrival_index(kind, queue, price)].price,
        ),
    decreases queue.len(),
{
    if queue.len() == 0 || outranks(kind, price, queue[0].price) {
    } else {
        let rest = queue.skip(1);
        lemma_arrival_index(kind, rest, price);
        let at = arrival_index(kind, rest, price);
        assert forall|j: int| 0 <= j < at + 1 implies !outranks(kind, price, (#[trigger] queue[j]).price) by {
            if j > 0 {
                assert(queue[j] == rest[j - 1]);
            }
        }
        if at + 1 < queue.len() {
            assert(queue[at + 1] == rest[at]);
        }
    }
}

/// Putting a newcomer at its arrival index keeps a ranked queue ranked,
/// provided its id is new to the queue.
pub proof fn lemma_arrival_keeps_ranked(kind: OrderKind, queue: Seq<OrderView>, order: OrderView)
    requires
        ranked(kind, queue),
        order.kind == kind,
        order.quantity > 0,
        !holds_id(queue, order.id),
    ensures
        ranked(kind, queue.insert(arrival_index(kind, queue, order.price), order)),
{
    let at = arrival_index(kind, queue, order.price);
    lemma_arrival_index(kind, queue, order.price);
    let after = queue.insert(at, order);
    assert forall|i: int| 0 <= i < after.len() implies (#[trigger] after[i]).kind == kind && after[i].quantity
        > 0 by {
        if i < at {
            assert(after[i] == queue[i]);
        } else if i > at {
            assert(after[i] == queue[i - 1]);
        }
    }
    assert forall|i: int, j: int| 0 <= i < j < after.len() implies !outranks(
        kind,
        (#[trigger] after[j]).price,
        (#[trigger] after[i]).price,
    ) && after[i].id != after[j].id by {
        let a = if i < at { i } else { i - 1 };
        let b = if j < at { j } else { j - 1 };
        if i != at {
            assert(after[i] == queue[a]);
        }
        if j != at {
            assert(after[j] == queue[b]);
        }
        if i == at {
            // The displaced order is outranked by the newcomer, and so is
            // everything behind it.
            assert(at < queue.len());
            if b > at {
                assert(!outranks(kind, queue[b].price, queue[at].price));
            }
        }
    }
}

/// Dropping the front of a ranked queue leaves a ranked queue.
pub proof fn lemma_rest_is_ranked(kind: OrderKind, queue: Seq<OrderView>)
    requires
        ranked(kind, queue),
        queue.len() > 0,
    ensures
        ranked(kind, queue.skip(1)),
        !holds_id(queue.skip(1), queue[0].id),
{
    let rest = queue.skip(1);
    assert forall|i: int| 0 <= i < rest.len() implies (#[trigger] rest[i]).kind == kind && rest[i].quantity
        > 0 by {
        assert(rest[i] == queue[i + 1]);
    }
    assert forall|i: int, j: int| 0 <= i < j < rest.len() implies !outranks(
        kind,
        (#[trigger] rest[j]).price,
        (#[trigger] rest[i]).price,
    ) && rest[i].id != rest[j].id by {
        assert(rest[i] == queue[i + 1]);
        assert(rest[j] == queue[j + 1]);
    }
    assert forall|i: int| 0 <= i < rest.len() implies (#[trigger] rest[i]).id != queue[0].id by {
        assert(rest[i] == queue[i + 1]);
    }
}

/// Whether price `a` has strict priority over price `b` on side `kind`.
pub fn price_outranks(kind: OrderKind, a: &Price, b: &Price) -> (r: bool)
    ensures
        r == outranks(kind, a@, b@),
{
    match kind {
        OrderKind::Buy => !a.at_most(b),
        OrderKind::Sell => !a.at_least(b),
    }
}

impl Order {
    /// Whether this order has strict priority over `other`, an order of the
    /// same side: the higher price among buys, the lower among sells. Orders
    /// of different sides are not compared.
    pub fn outranks(&self, other: &Order) -> (r: bool)
        requires
            self.kind == other.kind,
        ensures
            r == outranks(self.kind, self@.price, other@.price),
    {
        price_outranks(self.kind, &self.data.price, &other.data.price)
    }

    /// Whether the two orders name the same slot of the same side.
    pub fn same_slot(&self, other: &Order) -> (r: bool)
        ensures
            r == (self@.id == other@.id && self@.kind == other@.kind),
    {
        self.id == other.id && self.kind == other.kind
    }
}

/// The resident orders of one side, best first, with their slot table.
pub struct OrderQueue {
    kind: OrderKind,
    orders: Vec<Order>,
    slots: Slab<OrderCommons>,
}

impl View for OrderQueue {
    type V = Seq<OrderView>;

    closed spec fn view(&self) -> Seq<OrderView> {
        views(self.orders@)
    }
}

impl OrderQueue {
    /// The side whose orders this queue holds.
    pub closed spec fn kind(&self) -> OrderKind {
        self.kind
    }

    /// The slot table holds exactly the resident orders: each under its id,
    /// with its quantity and price, and nothing else.
    pub closed spec fn slots_agree(&self) -> bool {
        let entries = slot_entries(self.slots);
        &&& forall|i: int|
            0 <= i < self@.len() ==> entries.contains_key((#[trigger] self@[i]).id) && entries[self@[i].id] == (
                self@[i].quantity,
                self@[i].price,
            )
        &&& forall|key: usize| #[trigger] entries.contains_key(key) ==> holds_id(self@, key)
    }

    /// The queue's invariant.
    pub open spec fn wf(&self) -> bool {
        &&& ranked(self.kind(), self@)
        &&& self.slots_agree()
    }

    /// An empty queue for side `kind`, with room for [`ORDERBOOK_CAPACITY`]
    /// orders before it grows.
    pub fn new(kind: OrderKind) -> (r: OrderQueue)
        ensures
            r.wf(),
            r.kind() == kind,
            r@ == Seq::<OrderView>::empty(),
    {
        let r = OrderQueue {
            kind,
            orders: Vec::with_capacity(ORDERBOOK_CAPACITY),
            slots: empty_slots(ORDERBOOK_CAPACITY),
        };
        assert(r@ =~= Seq::<OrderView>::empty());
        r
    }

    /// The number of resident orders.
    pub fn len(&self) -> (n: usize)
        ensures
            n == self@.len(),
    {
        self.orders.len()
    }

    /// The top-priority order, if any, left in place.
    pub fn peek(&self) -> (r: Option<&Order>)
        ensures
            self@.len() == 0 ==> r.is_none(),
            self@.len() > 0 ==> r.is_some() && r.unwrap()@ == self@[0],
    {
        if self.orders.len() == 0 {
            None
        } else {
            Some(&self.orders[0])
        }
    }

    /// The order at position `i` counted from the best.
    pub fn get(&self, i: usize) -> (r: &Order)
        requires
            i < self@.len(),
        ensures
            r@ == self@[i as int],
    {
        &self.orders[i]
    }

    /// Removes and returns the top-priority order, releasing its slot.
    pub fn pop(&mut self) -> (r: Option<Order>)
        requires
            old(self).wf(),
        ensures
            final(self).wf(),
            final(self).kind() == old(self).kind(),
            old(self)@.len() == 0 ==> r.is_none() && final(self)@ == old(self)@,
            old(self)@.len() > 0 ==> r.is_some() && r.unwrap()@ == old(self)@[0] && final(self)@ == old(self)@.skip(1),
    {
        if self.orders.len() == 0 {
            return None;
        }
        let ghost before = self@;
        assert(slot_entries(self.slots).contains_key(before[0].id));
        let order = self.orders.remove(0);
        let _ = release_slot(&mut self.slots, order.id);
        proof {
            assert(self@ =~= before.skip(1));
            lemma_rest_is_ranked(self.kind, before);
            let entries = slot_entries(self.slots);
            assert forall|i: int| 0 <= i < self@.len() implies entries.contains_key((#[trigger] self@[i]).id)
                && entries[self@[i].id] == (self@[i].quantity, self@[i].price) by {
                assert(self@[i] == before[i + 1]);
            }
            assert forall|key: usize| #[trigger] entries.contains_key(key) implies holds_id(self@, key) by {
                assert(holds_id(before, key));
                let i = choose|i: int| 0 <= i < before.len() && (#[trigger] before[i]).id == key;
                assert(self@[i - 1] == before[i]);
            }
        }
        Some(order)
    }

    /// Rests a new order for `data` on this side: takes a vacant slot for it
    /// and places it behind every resident order it does not outrank.
    pub fn insert(&mut self, data: OrderCommons) -> (r: Order)
        requires
            old(self).wf(),
            data.quantity > 0,
        ensures
            final(self).wf(),
            final(self).kind() == old(self).kind(),
            r@.quantity == data.quantity,
            r@.price == data.price@,
            r@.kind == old(self).kind(),
            !holds_id(old(self)@, r@.id),
            final(self)@ == old(self)@.insert(arrival_index(old(self).kind(), old(self)@, data.price@), r@),
    {
        let ghost before = self@;
        let ghost old_entries = slot_entries(self.slots);
        let kind = self.kind;
        let mut at: usize = 0;
        assert(before.skip(0) =~= before);
        while at < self.orders.len() && !price_outranks(kind, &data.price, &self.orders[at].data.price)
            invariant
                at <= self.orders.len(),
                self@ == before,
                kind == self.kind,
                arrival_index(kind, before, data.price@) == at + arrival_index(
                    kind,
                    before.skip(at as int),
                    data.price@,
                ),
            decreases self.orders.len() - at,
        {
            proof {
                let tail = before.skip(at as int);
                assert(tail[0] == before[at as int]);
                assert(tail.skip(1) =~= before.skip(at + 1));
            }
            at += 1;
        }
        proof {
            let tail = before.skip(at as int);
            if at < before.len() {
                assert(tail[0] == before[at as int]);
            }
            assert(arrival_index(kind, before, data.price@) == at);
        }
        let id: usize = occupy_slot(&mut self.slots, data.clone());
        let resident = Order { id, data, kind };
        self.orders.insert(at, resident.clone());
        proof {
            assert(self@ =~= before.insert(at as int, resident@));
            if holds_id(before, id) {
                let i = choose|i: int| 0 <= i < before.len() && (#[trigger] before[i]).id == id;
                assert(old_entries.contains_key(before[i].id));
            }
            lemma_arrival_keeps_ranked(kind, before, resident@);
            let entries = slot_entries(self.slots);
            assert forall|i: int| 0 <= i < self@.len() implies entries.contains_key((#[trigger] self@[i]).id)
                && entries[self@[i].id] == (self@[i].quantity, self@[i].price) by {
                if i < at {
                    assert(self@[i] == before[i]);
                } else if i > at {
                    assert(self@[i] == before[i - 1]);
                }
            }
            assert forall|key: usize| #[trigger] entries.contains_key(key) implies holds_id(self@, key) by {
                if key == id {
                    assert(self@[at as int].id == key);
                } else {
                    assert(holds_id(before, key));
                    let i = choose|i: int| 0 <= i < before.len() && (#[trigger] before[i]).id == key;
                    if i < at {
                        assert(self@[i] == before[i]);
                    } else {
                        assert(self@[i + 1] == before[i]);
                    }
                }
            }
        }
        resident
    }

    /// Takes `quantity` off the top-priority order, which is larger: that
    /// order leaves the queue, and a new order for what is left of it arrives
    /// at the same price. The new order takes its slot before the old one is
    /// released, so it never carries the id of the order it stems from.
    /// Returns the order that left and the order that arrived.
    pub fn reduce_best(&mut self, quantity: usize) -> (r: (Order, Order))
        requires
            old(self).wf(),
            old(self)@.len() > 0,
            0 < quantity < old(self)@[0].quantity,
        ensures
            final(self).wf(),
            final(self).kind() == old(self).kind(),
            r.0@ == old(self)@[0],
            r.1@.quantity == old(self)@[0].quantity - quantity,
            r.1@.price == old(self)@[0].price,
            r.1@.kind == old(self).kind(),
            !holds_id(old(self)@, r.1@.id),
            final(self)@ == old(self)@.skip(1).insert(
                arrival_index(old(self).kind(), old(self)@.skip(1), old(self)@[0].price),
                r.1@,
            ),
    {
        let ghost before = self@;
        let leftover = OrderCommons {
            quantity: self.orders[0].data.quantity - quantity,
            price: self.orders[0].data.price.clone(),
        };
        let arrived = self.insert(leftover);
        proof {
            lemma_arrival_index(self.kind, before.skip(1), before[0].price);
        }
        let ghost between = self@;
        let left = self.pop();
        proof {
            let at = arrival_index(self.kind, before.skip(1), before[0].price);
            assert(between[0] == before[0]);
            assert(self@ =~= before.skip(1).insert(at, arrived@));
        }
        (left.unwrap(), arrived)
    }

    /// Copies of the first `limit` orders, best first, or of all of them where
    /// the queue holds fewer.
    pub fn snapshot(&self, limit: usize) -> (r: Vec<Order>)
        ensures
            views(r@) == self@.take(if limit <= self@.len() { limit as int } else { self@.len() as int }),
    {
        let count: usize = if limit <= self.orders.len() { limit } else { self.orders.len() };
        let mut out: Vec<Order> = Vec::with_capacity(count);
        let mut i: usize = 0;
        while i < count
            invariant
                i <= count <= self.orders.len(),
                out@.len() == i,
                views(out@) == self@.take(i as int),
            decreases count - i,
        {
            let ghost earlier = out@;
            out.push(self.orders[i].clone());
            proof {
                assert forall|j: int| 0 <= j < i + 1 implies views(out@)[j] == self@.take(i + 1)[j] by {
                    if j < i {
                        assert(views(out@)[j] == views(earlier)[j]);
                        assert(self@.take(i as int)[j] == self@[j]);
                    }
                }
                assert(views(out@) =~= self@.take(i + 1));
            }
            i += 1;
        }
        out
    }
}

} // verus!
