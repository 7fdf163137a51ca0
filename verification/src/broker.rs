//! The change-event broker: fan-out of committed facts to subscribers.
//!
//! A subscription is a mailbox on one topic. Publishing an event puts a copy
//! of it at the back of every mailbox on the event's topic; a subscriber
//! takes events from the front of its own. A mailbox starts empty, so a
//! subscriber never sees what was published before it subscribed, and no
//! subscriber's pace touches another's.

use vstd::prelude::*;
use std::collections::VecDeque;
use crate::model::{Deal, DealView, Order, OrderView};

verus! {

/// What an event is about.
#[derive(Clone, Copy, Debug, PartialEq, Eq, Hash, Structural)]
pub enum Topic {
    OrderAdded,
    OrderRemoved,
    TradeExecuted,
}

/// A committed fact: an order came to rest, an order left the book, or a
/// trade was made.
#[derive(Debug)]
pub enum Event {
    OrderAdded(Order),
    OrderRemoved(Order),
    TradeExecuted(Deal),
}

/// The view of an [`Event`].
pub enum EventView {
    OrderAdded(OrderView),
    OrderRemoved(OrderView),
    TradeExecuted(DealView),
}

impl EventView {
    /// The topic the event is published on.
    pub open spec fn topic(self) -> Topic {
        match self {
            EventView::OrderAdded(_) => Topic::OrderAdded,
            EventView::OrderRemoved(_) => Topic::OrderRemoved,
            EventView::TradeExecuted(_) => Topic::TradeExecuted,
        }
    }
}

impl View for Event {
    type V = EventView;

    open spec fn view(&self) -> EventView {
        match self {
            Event::OrderAdded(o) => EventView::OrderAdded(o@),
            Event::OrderRemoved(o) => EventView::OrderRemoved(o@),
            Event::TradeExecuted(d) => EventView::TradeExecuted(d@),
        }
    }
}

impl Clone for Event {
    fn clone(&self) -> (r: Self)
        ensures
            r@ == self@,
    {
        match self {
            Event::OrderAdded(o) => Event::OrderAdded(o.clone()),
            Event::OrderRemoved(o) => Event::OrderRemoved(o.clone()),
            Event::TradeExecuted(d) => Event::TradeExecuted(d.clone()),
        }
    }
}

impl Event {
    /// The topic the event is published on.
    pub fn topic(&self) -> (r: Topic)
        ensures
            r == self@.topic(),
    {
        match self {
            Event::OrderAdded(_) => Topic::OrderAdded,
            Event::OrderRemoved(_) => Topic::OrderRemoved,
            Event::TradeExecuted(_) => Topic::TradeExecuted,
        }
    }
}

/// The view of a subscription: its id, its topic, and the events published
/// to it that it has not taken yet, oldest first.
pub struct SubscriptionView {
    pub id: u64,
    pub topic: Topic,
    pub pending: Seq<EventView>,
}

/// The views of a run of events, in the same order.
pub open spec fn event_views(events: Seq<Event>) -> Seq<EventView> {
    events.map_values(|e: Event| e@)
}

/// A subscription after `event` has been published.
pub open spec fn delivered_to(subscription: SubscriptionView, event: EventView) -> SubscriptionView {
    if subscription.topic == event.topic() {
        SubscriptionView {
            id: subscription.id,
            topic: subscription.topic,
            pending: subscription.pending.push(event),
        }
    } else {
        subscription
    }
}

/// The subscriptions after `event` has been published.
pub open spec fn delivered(subscriptions: Seq<SubscriptionView>, event: EventView) -> Seq<SubscriptionView> {
    subscriptions.map_values(|s: SubscriptionView| delivered_to(s, event))
}

/// The subscriptions after `events` have been published one by one, first to
/// last.
pub open spec fn delivered_all(subscriptions: Seq<SubscriptionView>, events: Seq<EventView>) -> Seq<
    SubscriptionView,
>
    decreases events.len(),
{
    if events.len() == 0 {
        subscriptions
    } else {
        delivered(delivered_all(subscriptions, events.drop_last()), events.last())
    }
}

/// The events of `events` that are on `topic`, in the same order.
pub open spec fn on_topic(events: Seq<EventView>, topic: Topic) -> Seq<EventView>
    decreases events.len(),
{
    if events.len() == 0 {
        Seq::empty()
    } else if events.last().topic() == topic {
        on_topic(events.drop_last(), topic).push(events.last())
    } else {
        on_topic(events.drop_last(), topic)
    }
}

/// The position of the subscription with id `id`, or the number of
/// subscriptions where there is none.
pub open spec fn position_of(subscriptions: Seq<SubscriptionView>, id: u64) -> int
    decreases subscriptions.len(),
{
    if subscriptions.len() == 0 || subscriptions[0].id == id {
        0
    } else {
        1 + position_of(subscriptions.skip(1), id)
    }
}

/// Whether some subscription carries the id `id`.
pub open spec fn is_subscribed(subscriptions: Seq<SubscriptionView>, id: u64) -> bool {
    0 <= position_of(subscriptions, id) < subscriptions.len()
}

/// Publishing one more event after a run of them is publishing the longer
/// run.
pub proof fn lemma_delivered_all_push(subscriptions: Seq<SubscriptionView>, events: Seq<EventView>, event: EventView)
    ensures
        delivered_all(subscriptions, events.push(event)) == delivered(delivered_all(subscriptions, events), event),
{
    assert(events.push(event).drop_last() =~= events);
}

/// Publishing reaches each subscription by itself. After a run of events
/// every subscription is still there, with its id and topic, and its mailbox
/// has grown by exactly the events on its topic, in publishing order:
/// whatever the other subscriptions are, and whatever they hold.
pub proof fn each_mailbox_grows_by_its_topic(subscriptions: Seq<SubscriptionView>, events: Seq<EventView>)
    ensures
        delivered_all(subscriptions, events).len() == subscriptions.len(),
        forall|i: int|
            0 <= i < subscriptions.len() ==> #[trigger] delivered_all(subscriptions, events)[i] == (
            SubscriptionView {
                id: subscriptions[i].id,
                topic: subscriptions[i].topic,
                pending: subscriptions[i].pending + on_topic(events, subscriptions[i].topic),
            }),
    decreases events.len(),
{
    if events.len() == 0 {
        assert forall|i: int| 0 <= i < subscriptions.len() implies subscriptions[i].pending + on_topic(
            events,
            subscriptions[i].topic,
        ) == subscriptions[i].pending by {
            assert(subscriptions[i].pending + Seq::<EventView>::empty() =~= subscriptions[i].pending);
        }
    } else {
        let earlier = events.drop_last();
        let event = events.last();
        each_mailbox_grows_by_its_topic(subscriptions, earlier);
        let mid = delivered_all(subscriptions, earlier);
        assert forall|i: int| 0 <= i < subscriptions.len() implies #[trigger] delivered_all(subscriptions, events)[i]
            == (SubscriptionView {
            id: subscriptions[i].id,
            topic: subscriptions[i].topic,
            pending: subscriptions[i].pending + on_topic(events, subscriptions[i].topic),
        }) by {
            let topic = subscriptions[i].topic;
            assert(delivered_all(subscriptions, events)[i] == delivered_to(mid[i], event));
            if topic == event.topic() {
                assert((subscriptions[i].pending + on_topic(earlier, topic)).push(event)
                    =~= subscriptions[i].pending + on_topic(events, topic));
            }
        }
    }
}

/// A new subscriber sees what is published after it subscribed and nothing
/// else: its mailbox then holds exactly the later events on its topic.
pub proof fn a_new_subscriber_sees_only_later_events(
    subscriptions: Seq<SubscriptionView>,
    id: u64,
    topic: Topic,
    later: Seq<EventView>,
)
    ensures
        delivered_all(
            subscriptions.push(SubscriptionView { id, topic, pending: Seq::empty() }),
            later,
        )[subscriptions.len() as int] == (SubscriptionView { id, topic, pending: on_topic(later, topic) }),
{
    let joined = subscriptions.push(SubscriptionView { id, topic, pending: Seq::empty() });
    each_mailbox_grows_by_its_topic(joined, later);
    assert(joined[subscriptions.len() as int].pending + on_topic(later, topic) =~= on_topic(later, topic));
}

/// The position of an id lies within bounds, the subscription there carries
/// the id where it lies inside, and none before it does.
pub proof fn lemma_position_of(subscriptions: Seq<SubscriptionView>, id: u64)
    ensures
        0 <= position_of(subscriptions, id) <= subscriptions.len(),
        position_of(subscriptions, id) < subscriptions.len() ==> subscriptions[position_of(subscriptions, id)].id
            == id,
        forall|j: int| 0 <= j < position_of(subscriptions, id) ==> (#[trigger] subscriptions[j]).id != id,
    decreases subscriptions.len(),
{
    if subscriptions.len() == 0 || subscriptions[0].id == id {
    } else {
        let rest = subscriptions.skip(1);
        lemma_position_of(rest, id);
        let at = position_of(rest, id);
        assert forall|j: int| 0 <= j < at + 1 implies (#[trigger] subscriptions[j]).id != id by {
            if j > 0 {
                assert(subscriptions[j] == rest[j - 1]);
            }
        }
        if at < rest.len() {
            assert(subscriptions[at + 1] == rest[at]);
        }
    }
}

struct Subscription {
    id: u64,
    topic: Topic,
    pending: VecDeque<Event>,
}

impl View for Subscription {
    type V = SubscriptionView;

    closed spec fn view(&self) -> SubscriptionView {
        SubscriptionView { id: self.id, topic: self.topic, pending: event_views(self.pending@) }
    }
}

/// The broker: its subscriptions, in the order they were made.
pub struct SimpleBroker {
    subscriptions: Vec<Subscription>,
    next_id: u64,
}

impl View for SimpleBroker {
    type V = Seq<SubscriptionView>;

    closed spec fn view(&self) -> Seq<SubscriptionView> {
        self.subscriptions@.map_values(|s: Subscription| s@)
    }
}

impl SimpleBroker {
    /// The number of ids handed out so far.
    pub closed spec fn issued(&self) -> u64 {
        self.next_id
    }

    /// The broker's invariant: no id occurs twice, and every id in use has
    /// been handed out.
    pub open spec fn wf(&self) -> bool {
        &&& forall|i: int| 0 <= i < self@.len() ==> (#[trigger] self@[i]).id < self.issued()
        &&& forall|i: int, j: int| 0 <= i < j < self@.len() ==> (#[trigger] self@[i]).id != (#[trigger] self@[j]).id
    }

    /// A broker without subscriptions.
    pub fn new() -> (r: SimpleBroker)
        ensures
            r.wf(),
            r@ == Seq::<SubscriptionView>::empty(),
            r.issued() == 0,
    {
        let r = SimpleBroker { subscriptions: Vec::new(), next_id: 0 };
        assert(r@ =~= Seq::<SubscriptionView>::empty());
        r
    }

    /// The number of subscriptions.
    pub fn subscribers(&self) -> (n: usize)
        ensures
            n == self@.len(),
    {
        self.subscriptions.len()
    }

    /// Opens a subscription on `topic` and returns its id. Its mailbox starts
    /// empty: nothing published earlier is replayed. Returns `None`, and
    /// changes nothing, only once every id has been handed out.
    pub fn subscribe(&mut self, topic: Topic) -> (r: Option<u64>)
        requires
            old(self).wf(),
        ensures
            final(self).wf(),
            old(self).issued() == u64::MAX ==> r.is_none() && final(self)@ == old(self)@ && final(self).issued()
                == old(self).issued(),
            old(self).issued() < u64::MAX ==> r == Some(old(self).issued()) && final(self).issued() == old(
                self,
            ).issued() + 1 && !is_subscribed(old(self)@, r.unwrap()) && final(self)@ == old(self)@.push(
                SubscriptionView { id: r.unwrap(), topic, pending: Seq::empty() },
            ),
    {
        if self.next_id == u64::MAX {
            return None;
        }
        let ghost before = self@;
        let id: u64 = self.next_id;
        let subscription = Subscription { id, topic, pending: VecDeque::new() };
        proof {
            assert(subscription@.pending =~= Seq::empty());
            lemma_position_of(before, id);
        }
        self.subscriptions.push(subscription);
        self.next_id = id + 1;
        assert(self@ =~= before.push(SubscriptionView { id, topic, pending: Seq::empty() }));
        Some(id)
    }

    /// Publishes `event`: a copy goes to the back of the mailbox of every
    /// subscription on the event's topic. Other mailboxes are left alone.
    pub fn publish(&mut self, event: &Event)
        requires
            old(self).wf(),
        ensures
            final(self).wf(),
            final(self).issued() == old(self).issued(),
            final(self)@ == delivered(old(self)@, event@),
    {
        let ghost before = self@;
        let topic = event.topic();
        let mut i: usize = 0;
        while i < self.subscriptions.len()
            invariant
                i <= self.subscriptions.len(),
                self@.len() == before.len(),
                self.next_id == old(self).next_id,
                before == old(self)@,
                topic == event@.topic(),
                forall|j: int| 0 <= j < i ==> #[trigger] self@[j] == delivered_to(before[j], event@),
                forall|j: int| i <= j < before.len() ==> #[trigger] self@[j] == before[j],
            decreases self.subscriptions.len() - i,
        {
            let ghost earlier = self@;
            if self.subscriptions[i].topic == topic {
                let copy = event.clone();
                self.subscriptions[i].pending.push_back(copy);
                proof {
                    assert(self@[i as int].pending =~= earlier[i as int].pending.push(event@));
                    assert forall|j: int| 0 <= j < self@.len() && j != i implies #[trigger] self@[j]
                        == earlier[j] by {}
                    assert(self@[i as int] == delivered_to(before[i as int], event@));
                }
            }
            proof {
                assert forall|j: int| 0 <= j < i + 1 implies #[trigger] self@[j] == delivered_to(
                    before[j],
                    event@,
                ) by {
                    if j < i {
                        assert(self@[j] == earlier[j]);
                    } else {
                        assert(earlier[j] == before[j]);
                    }
                }
                assert forall|j: int| i + 1 <= j < before.len() implies #[trigger] self@[j] == before[j] by {
                    assert(self@[j] == earlier[j]);
                }
            }
            i += 1;
        }
        assert(self@ =~= delivered(before, event@));
    }

    /// Takes the oldest event out of the mailbox of subscription `id`.
    /// Returns `None`, and changes nothing, where that mailbox is empty or
    /// there is no such subscription.
    pub fn take(&mut self, id: u64) -> (r: Option<Event>)
        requires
            old(self).wf(),
        ensures
            final(self).wf(),
            final(self).issued() == old(self).issued(),
            ({
                let at = position_of(old(self)@, id);
                if is_subscribed(old(self)@, id) && old(self)@[at].pending.len() > 0 {
                    &&& r.is_some()
                    &&& r.unwrap()@ == old(self)@[at].pending[0]
                    &&& final(self)@ == old(self)@.update(
                        at,
                        SubscriptionView {
                            id,
                            topic: old(self)@[at].topic,
                            pending: old(self)@[at].pending.skip(1),
                        },
                    )
                } else {
                    r.is_none() && final(self)@ == old(self)@
                }
            }),
    {
        let ghost before = self@;
        let at = self.find(id);
        if at >= self.subscriptions.len() {
            return None;
        }
        proof {
            lemma_position_of(before, id);
        }
        let event = self.subscriptions[at].pending.pop_front();
        proof {
            let taken = before[at as int];
            assert forall|j: int| 0 <= j < self@.len() && j != at implies #[trigger] self@[j] == before[j] by {}
            if event.is_some() {
                assert(self@[at as int].pending =~= taken.pending.skip(1));
                assert(event.unwrap()@ == taken.pending[0]);
                assert(self@ =~= before.update(
                    at as int,
                    SubscriptionView {
                        id,
                        topic: before[at as int].topic,
                        pending: before[at as int].pending.skip(1),
                    },
                ));
            } else {
                assert(taken.pending.len() == 0);
                assert(self@[at as int].pending =~= taken.pending);
                assert(self@ =~= before);
            }
        }
        event
    }

    /// The number of events waiting in the mailbox of subscription `id`;
    /// zero where there is no such subscription.
    pub fn pending(&self, id: u64) -> (n: usize)
        ensures
            is_subscribed(self@, id) ==> n == self@[position_of(self@, id)].pending.len(),
            !is_subscribed(self@, id) ==> n == 0,
    {
        let at = self.find(id);
        if at >= self.subscriptions.len() {
            0
        } else {
            self.subscriptions[at].pending.len()
        }
    }

    /// Closes subscription `id` and drops what its mailbox still holds.
    /// Returns whether there was such a subscription.
    pub fn unsubscribe(&mut self, id: u64) -> (r: bool)
        requires
            old(self).wf(),
        ensures
            final(self).wf(),
            final(self).issued() == old(self).issued(),
            r == is_subscribed(old(self)@, id),
            r ==> final(self)@ == old(self)@.remove(position_of(old(self)@, id)),
            !r ==> final(self)@ == old(self)@,
    {
        let ghost before = self@;
        let at = self.find(id);
        if at >= self.subscriptions.len() {
            return false;
        }
        let _ = self.subscriptions.remove(at);
        assert(self@ =~= before.remove(at as int));
        true
    }

    /// The position of subscription `id`, or the number of subscriptions
    /// where there is none.
    fn find(&self, id: u64) -> (at: usize)
        ensures
            at == position_of(self@, id),
            at <= self@.len(),
    {
        let mut at: usize = 0;
        assert(self@.skip(0) =~= self@);
        while at < self.subscriptions.len() && self.subscriptions[at].id != id
            invariant
                at <= self.subscriptions.len(),
                position_of(self@, id) == at + position_of(self@.skip(at as int), id),
            decreases self.subscriptions.len() - at,
        {
            proof {
                let tail = self@.skip(at as int);
                assert(tail[0] == self@[at as int]);
                assert(tail.skip(1) =~= self@.skip(at + 1));
            }
            at += 1;
        }
        proof {
            let tail = self@.skip(at as int);
            if at < self@.len() {
                assert(tail[0] == self@[at as int]);
            }
        }
        at
    }
}

} // verus!
