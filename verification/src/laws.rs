//! What holds of every match, proved from the matcher's contract.

use vstd::prelude::*;
use crate::exchange::{submitted, Exchange};
use crate::matcher::{match_plan, settles, traded_quantity, MatchReport, Outcome};
use crate::model::{crosses, OrderKind, OrderView};
use crate::queue::{arrival_index, lemma_arrival_index, resting_quantity};

verus! {

/// The quantity resting in a queue is that of its front part plus that of
/// the rest.
pub proof fn lemma_resting_quantity_split(queue: Seq<OrderView>, n: int)
    requires
        0 <= n <= queue.len(),
    ensures
        resting_quantity(queue) == resting_quantity(queue.take(n)) + resting_quantity(queue.skip(n)),
    decreases n,
{
    if n == 0 {
        assert(queue.skip(0) =~= queue);
    } else {
        lemma_resting_quantity_split(queue.skip(1), n - 1);
        assert(queue.take(n).skip(1) =~= queue.skip(1).take(n - 1));
        assert(queue.skip(1).skip(n - 1) =~= queue.skip(n));
    }
}

/// An order that comes to rest adds its quantity to the queue's.
pub proof fn lemma_resting_quantity_insert(queue: Seq<OrderView>, at: int, order: OrderView)
    requires
        0 <= at <= queue.len(),
    ensures
        resting_quantity(queue.insert(at, order)) == resting_quantity(queue) + order.quantity,
    decreases at,
{
    let after = queue.insert(at, order);
    if at == 0 {
        assert(after.skip(1) =~= queue);
    } else {
        lemma_resting_quantity_insert(queue.skip(1), at - 1, order);
        assert(after.skip(1) =~= queue.skip(1).insert(at - 1, order));
    }
}

/// The shape of a plan: its trades meet the leading resting orders one for
/// one, each at that order's price and for no more than either party has;
/// what is traded and what is left add up on both sides.
pub proof fn lemma_plan(resting: Seq<OrderView>, kind: OrderKind, quantity: usize, limit: nat)
    ensures
        match_plan(resting, kind, quantity, limit).fills.len() <= resting.len(),
        forall|i: int|
            0 <= i < match_plan(resting, kind, quantity, limit).fills.len() ==> {
                let fill = #[trigger] match_plan(resting, kind, quantity, limit).fills[i];
                &&& fill.kind == kind
                &&& fill.price == resting[i].price
                &&& crosses(kind, resting[i].price, limit)
                &&& fill.quantity <= resting[i].quantity
                &&& fill.quantity <= quantity
            },
        match_plan(resting, kind, quantity, limit).leftover > 0 ==> match_plan(
            resting,
            kind,
            quantity,
            limit,
        ).unfilled == 0 && match_plan(resting, kind, quantity, limit).fills.len() > 0,
        traded_quantity(match_plan(resting, kind, quantity, limit).fills) + match_plan(
            resting,
            kind,
            quantity,
            limit,
        ).unfilled == quantity,
        resting_quantity(resting.take(match_plan(resting, kind, quantity, limit).fills.len() as int))
            == traded_quantity(match_plan(resting, kind, quantity, limit).fills) + match_plan(
            resting,
            kind,
            quantity,
            limit,
        ).leftover,
    decreases resting.len(),
{
    let plan = match_plan(resting, kind, quantity, limit);
    let n = plan.fills.len() as int;
    if resting.len() == 0 || !crosses(kind, resting[0].price, limit) {
        assert(resting.take(0).len() == 0);
    } else if quantity <= resting[0].quantity {
        assert(traded_quantity(plan.fills.skip(1)) == 0);
        assert(resting_quantity(resting.take(1).skip(1)) == 0);
        assert(resting.take(1)[0] == resting[0]);
    } else {
        let less = (quantity - resting[0].quantity) as usize;
        lemma_plan(resting.skip(1), kind, less, limit);
        let rest = match_plan(resting.skip(1), kind, less, limit);
        assert(plan.fills.skip(1) =~= rest.fills);
        assert(resting.take(n).skip(1) =~= resting.skip(1).take(n - 1));
        assert forall|i: int| 0 <= i < n implies {
            let fill = #[trigger] plan.fills[i];
            &&& fill.kind == kind
            &&& fill.price == resting[i].price
            &&& crosses(kind, resting[i].price, limit)
            &&& fill.quantity <= resting[i].quantity
            &&& fill.quantity <= quantity
        } by {
            if i > 0 {
                assert(plan.fills[i] == rest.fills[i - 1]);
                assert(resting[i] == resting.skip(1)[i - 1]);
            }
        }
    }
}

/// No trade is for more than the incoming order asked for, nor for more than
/// the resting order it was made against held when they met; and each is made
/// at that resting order's price.
pub proof fn trades_are_bounded(
    kind: OrderKind,
    quantity: usize,
    limit: nat,
    opposite_before: Seq<OrderView>,
    own_before: Seq<OrderView>,
    opposite_after: Seq<OrderView>,
    own_after: Seq<OrderView>,
    outcome: Outcome,
)
    requires
        settles(kind, quantity, limit, opposite_before, own_before, opposite_after, own_after, outcome),
    ensures
        outcome.deals.len() == outcome.removed.len(),
        outcome.deals.len() <= opposite_before.len(),
        forall|i: int|
            0 <= i < outcome.deals.len() ==> {
                let deal = #[trigger] outcome.deals[i];
                &&& outcome.removed[i] == opposite_before[i]
                &&& deal.quantity <= quantity
                &&& deal.quantity <= outcome.removed[i].quantity
                &&& deal.price == outcome.removed[i].price
                &&& deal.kind == kind
            },
{
    lemma_plan(opposite_before, kind, quantity, limit);
}

/// Quantity is conserved by a match. What rests in the book afterwards,
/// together with what was traded away from the two parties of each trade,
/// is what rested before together with what the incoming order brought.
pub proof fn quantity_is_conserved(
    kind: OrderKind,
    quantity: usize,
    limit: nat,
    opposite_before: Seq<OrderView>,
    own_before: Seq<OrderView>,
    opposite_after: Seq<OrderView>,
    own_after: Seq<OrderView>,
    outcome: Outcome,
)
    requires
        settles(kind, quantity, limit, opposite_before, own_before, opposite_after, own_after, outcome),
    ensures
        resting_quantity(opposite_after) + resting_quantity(own_after) + 2 * traded_quantity(outcome.deals)
            == resting_quantity(opposite_before) + resting_quantity(own_before) + quantity,
{
    let plan = match_plan(opposite_before, kind, quantity, limit);
    let n = plan.fills.len() as int;
    lemma_plan(opposite_before, kind, quantity, limit);
    lemma_resting_quantity_split(opposite_before, n);
    if plan.leftover > 0 {
        let kept = opposite_before.skip(n);
        lemma_arrival_index(kind.opposite(), kept, outcome.added[0].price);
        lemma_resting_quantity_insert(
            kept,
            arrival_index(kind.opposite(), kept, outcome.added[0].price),
            outcome.added[0],
        );
    } else if plan.unfilled > 0 {
        lemma_arrival_index(kind, own_before, outcome.added[0].price);
        lemma_resting_quantity_insert(
            own_before,
            arrival_index(kind, own_before, outcome.added[0].price),
            outcome.added[0],
        );
    }
}

/// The quantity resting in the whole book of an engine.
pub open spec fn book_quantity(exchange: Exchange) -> int {
    resting_quantity(exchange.state.orderbook.side(OrderKind::Buy)) + resting_quantity(
        exchange.state.orderbook.side(OrderKind::Sell),
    )
}

/// Submitting an order conserves quantity: what rests in the book
/// afterwards, together with what its trades took from both of their
/// parties, is what rested before together with what the order asked for.
pub proof fn submit_conserves_quantity(
    before: Exchange,
    after: Exchange,
    kind: OrderKind,
    quantity: usize,
    limit: nat,
    report: MatchReport,
)
    requires
        submitted(before, after, kind, quantity, limit, report),
    ensures
        book_quantity(after) + 2 * traded_quantity(report.outcome().deals) == book_quantity(before) + quantity,
{
    quantity_is_conserved(
        kind,
        quantity,
        limit,
        before.state.orderbook.side(kind.opposite()),
        before.state.orderbook.side(kind),
        after.state.orderbook.side(kind.opposite()),
        after.state.orderbook.side(kind),
        report.outcome(),
    );
}

/// Quantity is conserved over any run of matches. Let `resting[i]` be the
/// quantity resting in the whole book before the `i`-th match and
/// `resting[i + 1]` after it, `submitted[i]` what that match's incoming order
/// asked for and `traded[i]` the quantity of its trades. Where each match
/// conserves quantity, the book at the end holds what it held at the start,
/// plus all that was submitted, less what the trades took from both parties.
pub proof fn quantity_is_conserved_over_run(resting: Seq<int>, submitted: Seq<int>, traded: Seq<int>)
    requires
        resting.len() == submitted.len() + 1,
        traded.len() == submitted.len(),
        forall|i: int|
            0 <= i < submitted.len() ==> #[trigger] resting[i + 1] + 2 * traded[i] == resting[i] + submitted[i],
    ensures
        resting.last() + 2 * total(traded) == resting[0] + total(submitted),
    decreases submitted.len(),
{
    if submitted.len() > 0 {
        let k = submitted.len() - 1;
        assert(resting[k + 1] + 2 * traded[k] == resting[k] + submitted[k]);
        let earlier = resting.drop_last();
        assert forall|i: int| 0 <= i < k implies #[trigger] earlier[i + 1] + 2 * traded.drop_last()[i] == earlier[i]
            + submitted.drop_last()[i] by {
            assert(resting[i + 1] + 2 * traded[i] == resting[i] + submitted[i]);
        }
        quantity_is_conserved_over_run(earlier, submitted.drop_last(), traded.drop_last());
    }
}

/// The sum of a run of quantities.
pub open spec fn total(quantities: Seq<int>) -> int
    decreases quantities.len(),
{
    if quantities.len() == 0 {
        0
    } else {
        total(quantities.drop_last()) + quantities.last()
    }
}

} // verus!
