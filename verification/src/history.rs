//! The trade history: a bounded record of completed trades, newest first.

use vstd::prelude::*;
use std::collections::VecDeque;
use crate::model::{Deal, DealView};

verus! {

/// The number of trades a history keeps unless told otherwise.
pub const HISTORY_CAPACITY: usize = 10_000;

/// The views of a run of trades, in the same order.
pub open spec fn deal_views(deals: Seq<Deal>) -> Seq<DealView> {
    deals.map_values(|d: Deal| d@)
}

/// The newest `limit` entries of a newest-first history, or all of it where
/// it holds fewer.
pub open spec fn newest(entries: Seq<DealView>, limit: usize) -> Seq<DealView> {
    entries.take(
        if limit <= entries.len() {
            limit as int
        } else {
            entries.len() as int
        },
    )
}

/// A newest-first history of capacity `capacity` after one more trade has
/// been recorded: the trade in front of the entries, cut to the capacity by
/// dropping from the old end.
pub open spec fn recorded(entries: Seq<DealView>, deal: DealView, capacity: usize) -> Seq<DealView> {
    newest(seq![deal] + entries, capacity)
}

/// A history after the trades of `deals` have been recorded one by one, first
/// to last.
pub open spec fn recorded_all(entries: Seq<DealView>, deals: Seq<DealView>, capacity: usize) -> Seq<DealView>
    decreases deals.len(),
{
    if deals.len() == 0 {
        entries
    } else {
        recorded(recorded_all(entries, deals.drop_last(), capacity), deals.last(), capacity)
    }
}

/// The completed trades, newest first, never more than the capacity.
pub struct HistoryData {
    deals_history: VecDeque<Deal>,
    capacity: usize,
}

impl View for HistoryData {
    type V = Seq<DealView>;

    closed spec fn view(&self) -> Seq<DealView> {
        deal_views(self.deals_history@)
    }
}

impl HistoryData {
    /// The most trades this history keeps.
    pub closed spec fn spec_capacity(&self) -> usize {
        self.capacity
    }

    /// An empty history of capacity [`HISTORY_CAPACITY`].
    pub fn new() -> (r: HistoryData)
        ensures
            r@ == Seq::<DealView>::empty(),
            r.spec_capacity() == HISTORY_CAPACITY,
    {
        HistoryData::with_capacity(HISTORY_CAPACITY)
    }

    /// An empty history that keeps at most `capacity` trades.
    pub fn with_capacity(capacity: usize) -> (r: HistoryData)
        ensures
            r@ == Seq::<DealView>::empty(),
            r.spec_capacity() == capacity,
    {
        let r = HistoryData { deals_history: VecDeque::new(), capacity };
        assert(r@ =~= Seq::<DealView>::empty());
        r
    }

    /// The most trades this history keeps.
    #[verifier::when_used_as_spec(spec_capacity)]
    pub fn capacity(&self) -> (c: usize)
        ensures
            c == self.spec_capacity(),
    {
        self.capacity
    }

    /// The number of trades held.
    pub fn len(&self) -> (n: usize)
        ensures
            n == self@.len(),
    {
        self.deals_history.len()
    }

    /// Records a trade as the newest entry. First the oldest entries are
    /// dropped, as many as it takes to make room for it within the capacity;
    /// a history of capacity zero keeps nothing.
    pub fn record(&mut self, d: Deal)
        ensures
            final(self).spec_capacity() == old(self).spec_capacity(),
            final(self)@ == recorded(old(self)@, d@, old(self).spec_capacity()),
            final(self)@.len() <= final(self).spec_capacity(),
    {
        let ghost before = self@;
        if self.capacity == 0 {
            self.deals_history.truncate(0);
            assert(self@ =~= recorded(before, d@, 0));
        } else {
            self.deals_history.truncate(self.capacity - 1);
            self.deals_history.push_front(d);
            assert(self@ =~= recorded(before, d@, self.capacity));
        }
    }

    /// Copies of the newest `limit` trades, newest first, or of all of them
    /// where fewer are held. The history is not changed.
    pub fn recent(&self, limit: usize) -> (r: Vec<Deal>)
        ensures
            deal_views(r@) == newest(self@, limit),
    {
        let count: usize = if limit <= self.deals_history.len() { limit } else { self.deals_history.len() };
        let mut out: Vec<Deal> = Vec::with_capacity(count);
        let mut i: usize = 0;
        while i < count
            invariant
                i <= count <= self.deals_history.len(),
                out@.len() == i,
                deal_views(out@) == self@.take(i as int),
            decreases count - i,
        {
            let ghost earlier = out@;
            out.push(self.deals_history[i].clone());
            proof {
                assert forall|j: int| 0 <= j < i + 1 implies deal_views(out@)[j] == self@.take(i + 1)[j] by {
                    if j < i {
                        assert(deal_views(out@)[j] == deal_views(earlier)[j]);
                        assert(self@.take(i as int)[j] == self@[j]);
                    }
                }
                assert(deal_views(out@) =~= self@.take(i + 1));
            }
            i += 1;
        }
        out
    }
}

/// Recording one more trade after a run of them is recording the longer run.
pub proof fn lemma_recorded_all_push(entries: Seq<DealView>, deals: Seq<DealView>, deal: DealView, capacity: usize)
    ensures
        recorded_all(entries, deals.push(deal), capacity) == recorded(
            recorded_all(entries, deals, capacity),
            deal,
            capacity,
        ),
{
    assert(deals.push(deal).drop_last() =~= deals);
}

/// After a run of trades has been recorded, the history holds those trades
/// newest first, then the entries it held before, cut to the capacity. (With
/// no trade recorded, entries beyond the capacity are still there.)
pub proof fn lemma_recorded_all(entries: Seq<DealView>, deals: Seq<DealView>, capacity: usize)
    requires
        deals.len() > 0 || entries.len() <= capacity,
    ensures
        recorded_all(entries, deals, capacity) == newest(deals.reverse() + entries, capacity),
        recorded_all(entries, deals, capacity).len() <= capacity,
    decreases deals.len(),
{
    if deals.len() == 0 {
        assert((deals.reverse() + entries).take(entries.len() as int) =~= entries);
    } else {
        let front = deals.drop_last();
        if front.len() > 0 {
            lemma_recorded_all(entries, front, capacity);
        }
        let mid = recorded_all(entries, front, capacity);
        let got = recorded(mid, deals.last(), capacity);
        let want = newest(deals.reverse() + entries, capacity);
        assert(got.len() == want.len());
        assert forall|i: int| 0 <= i < got.len() implies got[i] == want[i] by {
            if i > 0 {
                assert(got[i] == mid[i - 1]);
                if i - 1 < front.len() {
                    assert(front.reverse()[i - 1] == front[front.len() - 1 - (i - 1)]);
                }
            }
        }
        assert(got =~= want);
    }
}

/// Once trades have been recorded, at least as many as the capacity allows,
/// then whatever the history held before, it holds exactly the newest `capacity`
/// of them, newest first, and reading that many or more returns just those.
pub proof fn lemma_history_keeps_newest(entries: Seq<DealView>, deals: Seq<DealView>, capacity: usize, limit: usize)
    requires
        deals.len() > 0,
        deals.len() >= capacity,
        limit >= capacity,
    ensures
        recorded_all(entries, deals, capacity) == deals.reverse().take(capacity as int),
        newest(recorded_all(entries, deals, capacity), limit) == deals.reverse().take(capacity as int),
        forall|i: int|
            0 <= i < capacity ==> (#[trigger] recorded_all(entries, deals, capacity)[i]) == deals[deals.len() - 1 - i],
{
    lemma_recorded_all(entries, deals, capacity);
    let all = recorded_all(entries, deals, capacity);
    assert(all =~= deals.reverse().take(capacity as int));
    assert(newest(all, limit) =~= all);
}

} // verus!
