//! The engine: one book, its trade history and its broker, owned together.
//! Orders come in through [`Exchange::submit`]; everything else reads, or
//! manages subscriptions.

use vstd::prelude::*;
use crate::book::{leading, OrderBookData};
use crate::broker::{
    delivered_all, is_subscribed, lemma_delivered_all_push, position_of, Event, EventView, SimpleBroker,
    SubscriptionView, Topic,
};
use crate::history::{deal_views, newest, recorded_all, HistoryData};
use crate::laws::trades_are_bounded;
use crate::matcher::{settles, MatchReport, Matcher};
use crate::model::{Deal, DealView, Order, OrderCommons, OrderKind, OrderView};
use crate::queue::views;
use crate::reporter::{asked_price, side_prices, Reporter, MARGIN, PRICE_CEILING};

verus! {

/// The events of the trades of one match, in publishing order: for each
/// trade, first the resting order that left the book, then the trade.
pub open spec fn trade_events(removed: Seq<OrderView>, deals: Seq<DealView>) -> Seq<EventView>
    decreases deals.len(),
{
    if deals.len() == 0 || removed.len() == 0 {
        Seq::empty()
    } else {
        trade_events(removed.drop_last(), deals.drop_last()).push(EventView::OrderRemoved(removed.last())).push(
            EventView::TradeExecuted(deals.last()),
        )
    }
}

/// The events of the orders that came to rest.
pub open spec fn added_events(added: Seq<OrderView>) -> Seq<EventView> {
    added.map_values(|o: OrderView| EventView::OrderAdded(o))
}

/// All events of one match, in publishing order: those of its trades, then
/// those of the orders that came to rest.
pub open spec fn report_events(report: MatchReport) -> Seq<EventView> {
    trade_events(views(report.removed@), deal_views(report.deals@)) + added_events(views(report.added@))
}

/// A matching engine with its state.
pub struct Exchange {
    pub state: OrderBookData,
    pub history: HistoryData,
    pub broker: SimpleBroker,
}

/// Why an order was turned away before matching.
#[derive(Clone, Copy, Debug, PartialEq, Eq, Structural)]
pub enum Rejection {
    /// The order asks for nothing.
    ZeroQuantity,
}

/// Whether `after` and `report` are what submitting an order of side `kind`
/// for `quantity` at `limit` makes of the engine `before`: the book is
/// settled, the trades are recorded first to last, and the report's events
/// are published in order.
pub open spec fn submitted(
    before: Exchange,
    after: Exchange,
    kind: OrderKind,
    quantity: usize,
    limit: nat,
    report: MatchReport,
) -> bool {
    &&& settles(
        kind,
        quantity,
        limit,
        before.state.orderbook.side(kind.opposite()),
        before.state.orderbook.side(kind),
        after.state.orderbook.side(kind.opposite()),
        after.state.orderbook.side(kind),
        report.outcome(),
    )
    &&& after.history.spec_capacity() == before.history.spec_capacity()
    &&& after.history@ == recorded_all(before.history@, deal_views(report.deals@), before.history.spec_capacity())
    &&& after.broker.issued() == before.broker.issued()
    &&& after.broker@ == delivered_all(before.broker@, report_events(report))
}

/// Whether `after` and `reports` are what a step of the synthetic order source
/// makes of the engine `before`, by way of `between`. The step asks for a buy
/// and a sell, each given as its quantity and its base price; both are
/// priced against the book of `before`, and the buy is submitted first.
pub open spec fn ticked(
    before: Exchange,
    between: Exchange,
    after: Exchange,
    bid: (usize, int),
    ask: (usize, int),
    reports: (MatchReport, MatchReport),
) -> bool {
    let bids = side_prices(before.state.orderbook, OrderKind::Buy);
    let asks = side_prices(before.state.orderbook, OrderKind::Sell);
    &&& submitted(
        before,
        between,
        OrderKind::Buy,
        bid.0,
        asked_price(OrderKind::Buy, bid.1, bids, asks) as nat,
        reports.0,
    )
    &&& submitted(
        between,
        after,
        OrderKind::Sell,
        ask.0,
        asked_price(OrderKind::Sell, ask.1, bids, asks) as nat,
        reports.1,
    )
}

impl Exchange {
    /// The engine's invariant: that of its book and that of its broker.
    pub open spec fn wf(&self) -> bool {
        &&& self.state.orderbook.wf()
        &&& self.broker.wf()
    }

    /// An engine with an empty book, an empty history that keeps at most
    /// `capacity` trades, and no subscribers.
    pub fn with_history_capacity(capacity: usize) -> (r: Exchange)
        ensures
            r.wf(),
            r.state.orderbook.side(OrderKind::Buy) == Seq::<OrderView>::empty(),
            r.state.orderbook.side(OrderKind::Sell) == Seq::<OrderView>::empty(),
            r.history@ == Seq::<DealView>::empty(),
            r.history.spec_capacity() == capacity,
            r.broker@ == Seq::<SubscriptionView>::empty(),
    {
        Exchange {
            state: OrderBookData::new(),
            history: HistoryData::with_capacity(capacity),
            broker: SimpleBroker::new(),
        }
    }

    /// Submits an incoming order of side `kind` for `data`: matches it
    /// against the book, records its trades, and publishes what happened.
    ///
    /// Per trade the resting order's removal is published, then the trade;
    /// last comes the order that came to rest, if any.
    pub fn submit(&mut self, kind: OrderKind, data: &OrderCommons) -> (report: MatchReport)
        requires
            old(self).wf(),
            data.quantity > 0,
        ensures
            final(self).wf(),
            submitted(*old(self), *final(self), kind, data.quantity, data.price@, report),
    {
        let ghost subscribers = self.broker@;
        let report = Matcher::run(&mut self.state, &mut self.history, kind, data);
        let ghost state = self.state;
        let ghost history = self.history;
        let ghost removed = views(report.removed@);
        let ghost deals = deal_views(report.deals@);
        let ghost added = views(report.added@);
        proof {
            trades_are_bounded(
                kind,
                data.quantity,
                data.price@,
                old(self).state.orderbook.side(kind.opposite()),
                old(self).state.orderbook.side(kind),
                state.orderbook.side(kind.opposite()),
                state.orderbook.side(kind),
                report.outcome(),
            );
        }
        let mut i: usize = 0;
        while i < report.deals.len()
            invariant
                i <= report.deals@.len(),
                report.removed@.len() == report.deals@.len(),
                removed == views(report.removed@),
                deals == deal_views(report.deals@),
                self.state == state,
                self.history == history,
                self.broker.wf(),
                self.broker.issued() == old(self).broker.issued(),
                self.broker@ == delivered_all(subscribers, trade_events(removed.take(i as int), deals.take(i as int))),
            decreases report.deals@.len() - i,
        {
            let left = Event::OrderRemoved(report.removed[i].clone());
            let made = Event::TradeExecuted(report.deals[i].clone());
            self.broker.publish(&left);
            self.broker.publish(&made);
            proof {
                let sofar = trade_events(removed.take(i as int), deals.take(i as int));
                assert(removed.take(i + 1).drop_last() =~= removed.take(i as int));
                assert(deals.take(i + 1).drop_last() =~= deals.take(i as int));
                assert(trade_events(removed.take(i + 1), deals.take(i + 1)) == sofar.push(left@).push(made@));
                lemma_delivered_all_push(subscribers, sofar, left@);
                lemma_delivered_all_push(subscribers, sofar.push(left@), made@);
            }
            i += 1;
        }
        proof {
            assert(removed.take(i as int) =~= removed);
            assert(deals.take(i as int) =~= deals);
        }
        let ghost traded = trade_events(removed, deals);
        let mut j: usize = 0;
        while j < report.added.len()
            invariant
                j <= report.added@.len(),
                added == views(report.added@),
                self.state == state,
                self.history == history,
                self.broker.wf(),
                self.broker.issued() == old(self).broker.issued(),
                self.broker@ == delivered_all(subscribers, traded + added_events(added.take(j as int))),
            decreases report.added@.len() - j,
        {
            let came = Event::OrderAdded(report.added[j].clone());
            self.broker.publish(&came);
            proof {
                let sofar = traded + added_events(added.take(j as int));
                assert(traded + added_events(added.take(j + 1)) =~= sofar.push(came@));
                lemma_delivered_all_push(subscribers, sofar, came@);
            }
            j += 1;
        }
        proof {
            assert(added.take(j as int) =~= added);
        }
        report
    }

    /// Submits an order as [`Exchange::submit`] does, unless it asks for
    /// nothing: such an order is turned away and the engine is left as it
    /// was.
    pub fn try_submit(&mut self, kind: OrderKind, data: &OrderCommons) -> (r: Result<MatchReport, Rejection>)
        requires
            old(self).wf(),
        ensures
            final(self).wf(),
            data.quantity == 0 ==> r == Err::<MatchReport, Rejection>(Rejection::ZeroQuantity) && *final(self)
                == *old(self),
            data.quantity > 0 ==> r.is_ok() && submitted(
                *old(self),
                *final(self),
                kind,
                data.quantity,
                data.price@,
                r.unwrap(),
            ),
    {
        if data.quantity == 0 {
            Err(Rejection::ZeroQuantity)
        } else {
            Ok(self.submit(kind, data))
        }
    }

    /// Lets the synthetic order source take a step and submits its orders:
    /// first the buy, then the sell. Both are priced against the book as it
    /// stands before either is submitted. `bid_law` and `ask_law` are the
    /// price law's values at the source's [`Reporter::law_points`].
    pub fn tick(&mut self, reporter: &mut Reporter, bid_law: u64, ask_law: u64) -> (r: (MatchReport, MatchReport))
        requires
            old(self).wf(),
            bid_law + MARGIN + 1 <= PRICE_CEILING,
            ask_law + MARGIN + 1 <= PRICE_CEILING,
            old(self).state.orderbook.side(OrderKind::Buy).len() <= PRICE_CEILING,
            old(self).state.orderbook.side(OrderKind::Sell).len() <= PRICE_CEILING,
        ensures
            final(self).wf(),
            final(reporter).steps() == if old(reporter).steps() == u64::MAX {
                0
            } else {
                old(reporter).steps() + 1
            },
            exists|between: Exchange, bid_quantity: usize, ask_quantity: usize|
                1 <= bid_quantity < 100 && 1 <= ask_quantity < 100 && #[trigger] ticked(
                    *old(self),
                    between,
                    *final(self),
                    (bid_quantity, bid_law + 1),
                    (ask_quantity, ask_law + 1),
                    r,
                ),
    {
        let step = reporter.step(&self.state.orderbook, bid_law, ask_law);
        let bid = OrderCommons { quantity: step.bids[0].quantity, price: step.bids[0].price.clone() };
        let ask = OrderCommons { quantity: step.asks[0].quantity, price: step.asks[0].price.clone() };
        let bought = self.submit(OrderKind::Buy, &bid);
        let ghost between = *self;
        let sold = self.submit(OrderKind::Sell, &ask);
        assert(ticked(
            *old(self),
            between,
            *self,
            (bid.quantity, bid_law + 1),
            (ask.quantity, ask_law + 1),
            (bought, sold),
        ));
        (bought, sold)
    }

    /// Copies of the first `limit` resident orders of side `kind`, best
    /// first. Nothing is changed.
    pub fn snapshot(&self, kind: OrderKind, limit: usize) -> (r: Vec<Order>)
        ensures
            views(r@) == leading(self.state.orderbook.side(kind), limit),
    {
        self.state.orderbook.snapshot(kind, limit)
    }

    /// Copies of the newest `limit` trades, newest first. Nothing is changed.
    pub fn recent(&self, limit: usize) -> (r: Vec<Deal>)
        ensures
            deal_views(r@) == newest(self.history@, limit),
    {
        self.history.recent(limit)
    }

    /// Opens a subscription on `topic`; see [`SimpleBroker::subscribe`].
    pub fn subscribe(&mut self, topic: Topic) -> (r: Option<u64>)
        requires
            old(self).wf(),
        ensures
            final(self).wf(),
            final(self).state == old(self).state,
            final(self).history == old(self).history,
            old(self).broker.issued() == u64::MAX ==> r.is_none() && final(self).broker@ == old(self).broker@,
            old(self).broker.issued() < u64::MAX ==> r == Some(old(self).broker.issued()) && !is_subscribed(
                old(self).broker@,
                r.unwrap(),
            ) && final(self).broker@ == old(self).broker@.push(
                SubscriptionView { id: r.unwrap(), topic, pending: Seq::empty() },
            ),
    {
        self.broker.subscribe(topic)
    }

    /// Takes the oldest event waiting for subscription `id`; see
    /// [`SimpleBroker::take`].
    pub fn take(&mut self, id: u64) -> (r: Option<Event>)
        requires
            old(self).wf(),
        ensures
            final(self).wf(),
            final(self).state == old(self).state,
            final(self).history == old(self).history,
            ({
                let at = position_of(old(self).broker@, id);
                if is_subscribed(old(self).broker@, id) && old(self).broker@[at].pending.len() > 0 {
                    &&& r.is_some()
                    &&& r.unwrap()@ == old(self).broker@[at].pending[0]
                    &&& final(self).broker@ == old(self).broker@.update(
                        at,
                        SubscriptionView {
                            id,
                            topic: old(self).broker@[at].topic,
                            pending: old(self).broker@[at].pending.skip(1),
                        },
                    )
                } else {
                    r.is_none() && final(self).broker@ == old(self).broker@
                }
            }),
    {
        self.broker.take(id)
    }

    /// Closes subscription `id`; see [`SimpleBroker::unsubscribe`].
    pub fn unsubscribe(&mut self, id: u64) -> (r: bool)
        requires
            old(self).wf(),
        ensures
            final(self).wf(),
            final(self).state == old(self).state,
            final(self).history == old(self).history,
            r == is_subscribed(old(self).broker@, id),
            r ==> final(self).broker@ == old(self).broker@.remove(position_of(old(self).broker@, id)),
            !r ==> final(self).broker@ == old(self).broker@,
    {
        self.broker.unsubscribe(id)
    }
}

} // verus!
