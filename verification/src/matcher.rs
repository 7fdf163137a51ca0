//! The matching algorithm: an incoming order trades against the best resting
//! orders of the other side for as long as prices cross, and what is left of
//! it, or of the last resting order it met, comes to rest in the book.
//!
//! Every trade is priced at the resting order's price.

use vstd::prelude::*;
use crate::book::OrderBookData;
use crate::history::{deal_views, lemma_recorded_all_push, recorded_all, HistoryData};
use crate::model::{crosses, Deal, DealTerms, Order, OrderCommons, OrderKind, OrderView};
use crate::price::Price;
use crate::queue::{arrival_index, holds_id, views};

verus! {

/// What matching an incoming order against a queue of resting orders comes
/// to: the trades in the order they happen, what is left of the incoming
/// quantity, and what is left of the last resting order that traded.
pub struct MatchPlan {
    pub fills: Seq<DealTerms>,
    pub unfilled: usize,
    pub leftover: usize,
}

/// The plan for an incoming order of side `kind` for `quantity` at limit
/// `limit`, met by the resting orders `resting` (best first).
///
/// While the best resting order crosses the limit it trades, at its own
/// price whichever side the incoming order is on, for the smaller of the
/// two quantities. A resting order that is
/// larger than what the incoming order still asks for ends the match with a
/// leftover; one that is equal ends it with none; a smaller one is used up
/// and the match goes on with the next.
pub open spec fn match_plan(resting: Seq<OrderView>, kind: OrderKind, quantity: usize, limit: nat) -> MatchPlan
    decreases resting.len(),
{
    if resting.len() == 0 || !crosses(kind, resting[0].price, limit) {
        MatchPlan { fills: Seq::empty(), unfilled: quantity, leftover: 0 }
    } else if quantity <= resting[0].quantity {
        MatchPlan {
            fills: seq![DealTerms { price: resting[0].price, quantity, kind }],
            unfilled: 0,
            leftover: (resting[0].quantity - quantity) as usize,
        }
    } else {
        let rest = match_plan(resting.skip(1), kind, (quantity - resting[0].quantity) as usize, limit);
        MatchPlan {
            fills: seq![DealTerms { price: resting[0].price, quantity: resting[0].quantity, kind }] + rest.fills,
            unfilled: rest.unfilled,
            leftover: rest.leftover,
        }
    }
}

/// A queue after `order` has come to rest in it.
pub open spec fn rested(kind: OrderKind, queue: Seq<OrderView>, order: OrderView) -> Seq<OrderView> {
    queue.insert(arrival_index(kind, queue, order.price), order)
}

/// The terms of a run of trades, in the same order.
pub open spec fn deal_terms(deals: Seq<Deal>) -> Seq<DealTerms> {
    deals.map_values(|d: Deal| d@.terms)
}

/// The sum of the quantities of a run of trades.
pub open spec fn traded_quantity(fills: Seq<DealTerms>) -> int
    decreases fills.len(),
{
    if fills.len() == 0 {
        0
    } else {
        fills[0].quantity + traded_quantity(fills.skip(1))
    }
}

/// What one run of the matcher did, as the change events it gives rise to.
#[derive(Debug)]
pub struct MatchReport {
    /// The trades, in the order they happened.
    pub deals: Vec<Deal>,
    /// The resting orders taken off the book, in the order they left.
    pub removed: Vec<Order>,
    /// The orders that came to rest: none or one.
    pub added: Vec<Order>,
    /// The incoming order's remainder, where it came to rest.
    pub resting: Option<Order>,
}

/// The view of a [`MatchReport`].
pub struct Outcome {
    pub deals: Seq<DealTerms>,
    pub removed: Seq<OrderView>,
    pub added: Seq<OrderView>,
    pub resting: Option<OrderView>,
}

impl MatchReport {
    /// The report with trade ids and time stamps left out.
    pub open spec fn outcome(&self) -> Outcome {
        Outcome {
            deals: deal_terms(self.deals@),
            removed: views(self.removed@),
            added: views(self.added@),
            resting: match self.resting {
                Some(o) => Some(o@),
                None => None,
            },
        }
    }
}

/// Whether `outcome` and the book's two sides after the run are what matching
/// an incoming order of side `kind` for `quantity` at `limit` makes of the two
/// sides before it.
///
/// The trades are those of the plan, and the resting orders that traded have
/// left the front of the opposite side. Where the last of them was larger
/// than the incoming order's need, a new order for its leftover has come to
/// rest on the opposite side at its price, under an id that no order resident
/// on that side at that moment carried, the one it stems from included. Where
/// instead the incoming order was not filled, a new order for the unfilled
/// quantity has come to rest on its own side at the limit price.
pub open spec fn settles(
    kind: OrderKind,
    quantity: usize,
    limit: nat,
    opposite_before: Seq<OrderView>,
    own_before: Seq<OrderView>,
    opposite_after: Seq<OrderView>,
    own_after: Seq<OrderView>,
    outcome: Outcome,
) -> bool {
    let plan = match_plan(opposite_before, kind, quantity, limit);
    let n = plan.fills.len() as int;
    &&& outcome.deals == plan.fills
    &&& outcome.removed == opposite_before.take(n)
    &&& if plan.leftover > 0 {
        &&& outcome.added.len() == 1
        &&& outcome.added[0].quantity == plan.leftover
        &&& outcome.added[0].price == opposite_before[n - 1].price
        &&& outcome.added[0].kind == kind.opposite()
        &&& !holds_id(opposite_before.skip(n - 1), outcome.added[0].id)
        &&& outcome.resting.is_none()
        &&& opposite_after == rested(kind.opposite(), opposite_before.skip(n), outcome.added[0])
        &&& own_after == own_before
    } else if plan.unfilled > 0 {
        &&& outcome.added.len() == 1
        &&& outcome.added[0].quantity == plan.unfilled
        &&& outcome.added[0].price == limit
        &&& outcome.added[0].kind == kind
        &&& !holds_id(own_before, outcome.added[0].id)
        &&& outcome.resting == Some(outcome.added[0])
        &&& opposite_after == opposite_before.skip(n)
        &&& own_after == rested(kind, own_before, outcome.added[0])
    } else {
        &&& outcome.added.len() == 0
        &&& outcome.resting.is_none()
        &&& opposite_after == opposite_before.skip(n)
        &&& own_after == own_before
    }
}

/// Whether an incoming order of side `kind` at `limit` may trade against a
/// resting order priced `resting`.
pub fn price_crosses(kind: OrderKind, resting: &Price, limit: &Price) -> (r: bool)
    ensures
        r == crosses(kind, resting@, limit@),
{
    match kind {
        OrderKind::Buy => resting.at_most(limit),
        OrderKind::Sell => resting.at_least(limit),
    }
}

/// The matching engine's entry point.
pub struct Matcher {}

impl Matcher {
    /// Matches an incoming order of side `kind` for `data` against the book.
    ///
    /// Each trade is recorded in `history` as it happens. The report lists
    /// the trades, the orders that left the book and the order that came to
    /// rest, for the caller to publish. A well-formed order is never turned
    /// away: it is filled, or rests, or both.
    pub fn run(state: &mut OrderBookData, history: &mut HistoryData, kind: OrderKind, data: &OrderCommons) -> (report:
        MatchReport)
        requires
            old(state).orderbook.wf(),
            data.quantity > 0,
        ensures
            final(state).orderbook.wf(),
            settles(
                kind,
                data.quantity,
                data.price@,
                old(state).orderbook.side(kind.opposite()),
                old(state).orderbook.side(kind),
                final(state).orderbook.side(kind.opposite()),
                final(state).orderbook.side(kind),
                report.outcome(),
            ),
            final(history).spec_capacity() == old(history).spec_capacity(),
            final(history)@ == recorded_all(old(history)@, deal_views(report.deals@), old(history).spec_capacity()),
    {
        let other = kind.opposite();
        let ghost before = state.orderbook.side(other);
        let ghost own_before = state.orderbook.side(kind);
        let ghost own_queue = state.orderbook.queue(kind);
        let ghost history_before = history@;
        let ghost capacity = history.spec_capacity();
        let ghost limit = data.price@;
        let ghost plan = match_plan(before, kind, data.quantity, limit);
        let mut remaining: usize = data.quantity;
        let mut deals: Vec<Deal> = Vec::new();
        let mut removed: Vec<Order> = Vec::new();
        let mut added: Vec<Order> = Vec::new();
        proof {
            assert(before.skip(0) =~= before);
            assert(before.take(0) =~= views(removed@));
            assert(deal_terms(deals@) + plan.fills =~= plan.fills);
            assert(deal_views(deals@) =~= Seq::empty());
        }
        loop
            invariant
                other == kind.opposite(),
                limit == data.price@,
                before == old(state).orderbook.side(other),
                own_before == old(state).orderbook.side(kind),
                history_before == old(history)@,
                capacity == old(history).spec_capacity(),
                plan == match_plan(before, kind, data.quantity, limit),
                state.orderbook.wf(),
                state.orderbook.queue(kind) == own_queue,
                own_queue@ == own_before,
                remaining > 0,
                added@.len() == 0,
                deals@.len() <= before.len(),
                removed@.len() == deals@.len(),
                state.orderbook.side(other) == before.skip(deals@.len() as int),
                views(removed@) == before.take(deals@.len() as int),
                plan.fills == deal_terms(deals@) + match_plan(
                    before.skip(deals@.len() as int),
                    kind,
                    remaining,
                    limit,
                ).fills,
                plan.unfilled == match_plan(before.skip(deals@.len() as int), kind, remaining, limit).unfilled,
                plan.leftover == match_plan(before.skip(deals@.len() as int), kind, remaining, limit).leftover,
                history.spec_capacity() == capacity,
                history@ == recorded_all(history_before, deal_views(deals@), capacity),
            decreases before.len() - deals@.len(),
        {
            let ghost n = deals@.len() as int;
            let ghost facing = before.skip(n);
            let ghost deals_so_far = deals@;
            let top_quantity: Option<usize> = match state.orderbook.best(other) {
                None => None,
                Some(top) => if price_crosses(kind, &top.data.price, &data.price) {
                    Some(top.data.quantity)
                } else {
                    None
                },
            };
            proof {
                if facing.len() > 0 {
                    assert(facing[0] == before[n]);
                    assert(facing.skip(1) =~= before.skip(n + 1));
                }
            }
            match top_quantity {
                None => {
                    let order = state.orderbook.insert(kind, data.price.clone(), remaining);
                    added.push(order.clone());
                    proof {
                        assert(plan.fills =~= deal_terms(deals@));
                        assert(views(added@) =~= seq![order@]);
                    }
                    return MatchReport { deals, removed, added, resting: Some(order) };
                },
                Some(quantity) => {
                    if remaining < quantity {
                        let (left, arrived) = state.orderbook.reduce_best(other, remaining);
                        let d = Deal::new(left.data.price.clone(), remaining, kind);
                        history.record(d.clone());
                        deals.push(d);
                        removed.push(left);
                        added.push(arrived);
                        proof {
                            lemma_recorded_all_push(history_before, deal_views(deals_so_far), d@, capacity);
                            assert(deal_views(deals@) =~= deal_views(deals_so_far).push(d@));
                            assert(deal_terms(deals@) =~= deal_terms(deals_so_far).push(d@.terms));
                            assert(plan.fills =~= deal_terms(deals@));
                            assert(views(removed@) =~= before.take(n + 1));
                            assert(views(added@) =~= seq![arrived@]);
                        }
                        return MatchReport { deals, removed, added, resting: None };
                    } else {
                        let left = state.orderbook.pop_best(other).unwrap();
                        let d = Deal::new(left.data.price.clone(), quantity, kind);
                        history.record(d.clone());
                        deals.push(d);
                        removed.push(left);
                        remaining = remaining - quantity;
                        proof {
                            lemma_recorded_all_push(history_before, deal_views(deals_so_far), d@, capacity);
                            assert(deal_views(deals@) =~= deal_views(deals_so_far).push(d@));
                            assert(deal_terms(deals@) =~= deal_terms(deals_so_far).push(d@.terms));
                            assert(views(removed@) =~= before.take(n + 1));
                        }
                        if remaining == 0 {
                            proof {
                                assert(plan.fills =~= deal_terms(deals@));
                                assert(views(added@) =~= Seq::empty());
                            }
                            return MatchReport { deals, removed, added, resting: None };
                        }
                        proof {
                            let rest = match_plan(before.skip(n + 1), kind, remaining, limit);
                            assert(plan.fills =~= deal_terms(deals@) + rest.fills);
                        }
                    }
                },
            }
        }
    }
}

} // verus!
