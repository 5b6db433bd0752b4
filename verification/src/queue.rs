use vstd::prelude::*;

use crate::data::PrimaryKey;
use crate::id::Id;
use crate::sink::SinkId;

verus! {

/// Marks the ids of tracks.
#[derive(Debug, Hash)]
pub struct TrackKind;

pub type TrackId = Id<TrackKind>;

/// An entry of a [LinearQueue]: who queued which track, and the sink
/// registered for the track, if any.
#[derive(Debug, Clone, Copy)]
pub struct LinearQueueItem {
    pub user_id: PrimaryKey,
    pub track_id: TrackId,
    pub sink_id: Option<SinkId>,
}

/// The entry holds the given sink.
pub open spec fn holds_sink(item: LinearQueueItem, sink_id: SinkId) -> bool {
    item.sink_id matches Some(id) && id.spec_value() == sink_id.spec_value()
}

/// The entry after registering `sink_id` for the track `track_id`.
pub open spec fn registered(item: LinearQueueItem, track_id: u64, sink_id: SinkId) -> LinearQueueItem {
    if item.track_id.spec_value() == track_id {
        LinearQueueItem { sink_id: Some(sink_id), ..item }
    } else {
        item
    }
}

/// The items and history after advancing by one item.
pub open spec fn advanced(
    items: Seq<LinearQueueItem>,
    history: Seq<LinearQueueItem>,
) -> (Seq<LinearQueueItem>, Seq<LinearQueueItem>) {
    if items.len() == 0 {
        (items, history)
    } else {
        (items.drop_first(), history.push(items[0]))
    }
}

/// The items and history after backtracking by one item.
pub open spec fn backtracked(
    items: Seq<LinearQueueItem>,
    history: Seq<LinearQueueItem>,
) -> (Seq<LinearQueueItem>, Seq<LinearQueueItem>) {
    if history.len() == 0 {
        (items, history)
    } else {
        (seq![history.last()] + items, history.drop_last())
    }
}

/// Going back after advancing restores the queue, when there was an item to advance past.
pub proof fn lemma_backtrack_undoes_advance(items: Seq<LinearQueueItem>, history: Seq<LinearQueueItem>)
    requires
        items.len() > 0,
    ensures
        ({
            let next = advanced(items, history);
            backtracked(next.0, next.1) == (items, history)
        }),
{
    let next = advanced(items, history);
    assert(next.1.drop_last() =~= history);
    assert(seq![next.1.last()] + next.0 =~= items);
}

/// Advancing after going back restores the queue, when there was an item to go back to.
pub proof fn lemma_advance_undoes_backtrack(items: Seq<LinearQueueItem>, history: Seq<LinearQueueItem>)
    requires
        history.len() > 0,
    ensures
        ({
            let previous = backtracked(items, history);
            advanced(previous.0, previous.1) == (items, history)
        }),
{
    let previous = backtracked(items, history);
    assert(previous.0.drop_first() =~= items);
    assert(previous.1.push(previous.0[0]) =~= history);
}

/// The items and history after going back through the whole history.
pub open spec fn backtracked_all(items: Seq<LinearQueueItem>, history: Seq<LinearQueueItem>) -> (
    Seq<LinearQueueItem>,
    Seq<LinearQueueItem>,
)
    decreases history.len(),
{
    if history.len() == 0 {
        (items, history)
    } else {
        let previous = backtracked(items, history);
        backtracked_all(previous.0, previous.1)
    }
}

/// Going back through the whole history puts it, in the order it was played,
/// in front of the items: the queue is back at its beginning, as `reset` leaves it.
pub proof fn lemma_backtracking_all_resets(items: Seq<LinearQueueItem>, history: Seq<LinearQueueItem>)
    ensures
        backtracked_all(items, history) == (history + items, Seq::<LinearQueueItem>::empty()),
    decreases history.len(),
{
    if history.len() > 0 {
        let previous = backtracked(items, history);
        lemma_backtracking_all_resets(previous.0, previous.1);
        assert(history.drop_last() + (seq![history.last()] + items) =~= history + items);
    } else {
        assert(history + items =~= items);
        assert(history =~= Seq::<LinearQueueItem>::empty());
    }
}

/// No operation of the queue loses or invents an item: advancing and going back
/// keep the items and history together the same multiset of entries.
pub proof fn lemma_moves_keep_entries(items: Seq<LinearQueueItem>, history: Seq<LinearQueueItem>)
    ensures
        ({
            let next = advanced(items, history);
            let previous = backtracked(items, history);
            &&& (next.0 + next.1).to_multiset() == (items + history).to_multiset()
            &&& (previous.0 + previous.1).to_multiset() == (items + history).to_multiset()
        }),
{
    broadcast use vstd::seq_lib::group_to_multiset_ensures;
    let next = advanced(items, history);
    let previous = backtracked(items, history);
    if items.len() > 0 {
        assert(items =~= seq![items[0]] + items.drop_first());
        vstd::seq_lib::lemma_multiset_commutative(seq![items[0]] + items.drop_first(), history);
        vstd::seq_lib::lemma_multiset_commutative(items.drop_first(), history.push(items[0]));
        assert(history.push(items[0]) =~= history + seq![items[0]]);
        vstd::seq_lib::lemma_multiset_commutative(history, seq![items[0]]);
        vstd::seq_lib::lemma_multiset_commutative(seq![items[0]], items.drop_first());
        assert((items + history).to_multiset() =~= (next.0 + next.1).to_multiset());
    }
    if history.len() > 0 {
        assert(history =~= history.drop_last().push(history.last()));
        vstd::seq_lib::lemma_multiset_commutative(seq![history.last()] + items, history.drop_last());
        vstd::seq_lib::lemma_multiset_commutative(seq![history.last()], items);
        vstd::seq_lib::lemma_multiset_commutative(items, history);
        assert(history.drop_last().push(history.last()) =~= history.drop_last() + seq![history.last()]);
        vstd::seq_lib::lemma_multiset_commutative(history.drop_last(), seq![history.last()]);
        assert((items + history).to_multiset() =~= (previous.0 + previous.1).to_multiset());
    }
}

/// A linear queue of items: the items still to play, the first one playing, and
/// the history of the items played before, the last one played most recently.
pub struct LinearQueue {
    history: Vec<LinearQueueItem>,
    items: Vec<LinearQueueItem>,
}

impl LinearQueue {
    pub closed spec fn spec_items(&self) -> Seq<LinearQueueItem> {
        self.items@
    }

    pub closed spec fn spec_history(&self) -> Seq<LinearQueueItem> {
        self.history@
    }

    pub fn new() -> (queue: Self)
        ensures
            queue.spec_items() == Seq::<LinearQueueItem>::empty(),
            queue.spec_history() == Seq::<LinearQueueItem>::empty(),
    {
        LinearQueue { history: Vec::new(), items: Vec::new() }
    }

    /// Queues a track at the end of the queue.
    pub fn push(&mut self, track_id: TrackId, user_id: PrimaryKey)
        ensures
            final(self).spec_items() == old(self).spec_items().push(
                LinearQueueItem { user_id, track_id, sink_id: None },
            ),
            final(self).spec_history() == old(self).spec_history(),
    {
        let item = LinearQueueItem { user_id, track_id, sink_id: None };
        self.items.push(item);
    }

    /// Get a track by sink id, if it exists
    pub fn get_by_sink_id(&self, sink_id: SinkId) -> (found: Option<LinearQueueItem>)
        ensures
            match found {
                Some(item) => exists|i: int|
                    0 <= i < self.spec_items().len() && self.spec_items()[i] == item && holds_sink(item, sink_id)
                        && forall|j: int| 0 <= j < i ==> !holds_sink(#[trigger] self.spec_items()[j], sink_id),
                None => forall|j: int|
                    0 <= j < self.spec_items().len() ==> !holds_sink(#[trigger] self.spec_items()[j], sink_id),
            },
    {
        let mut index: usize = 0;
        while index < self.items.len()
            invariant
                index <= self.items@.len(),
                forall|j: int| 0 <= j < index ==> !holds_sink(#[trigger] self.items@[j], sink_id),
            decreases self.items@.len() - index,
        {
            let item = self.items[index];
            match item.sink_id {
                Some(id) => {
                    if id.value() == sink_id.value() {
                        assert(holds_sink(self.items@[index as int], sink_id));
                        assert(self.spec_items()[index as int] == item);
                        assert(forall|j: int| 0 <= j < index ==> !holds_sink(#[trigger] self.spec_items()[j], sink_id));
                        return Some(item);
                    }
                },
                None => {},
            }
            index = index + 1;
        }
        None
    }

    /// Gets all the tracks + history
    pub fn tracks(&self) -> (tracks: (Vec<LinearQueueItem>, Vec<LinearQueueItem>))
        ensures
            tracks.0@ == self.spec_items(),
            tracks.1@ == self.spec_history(),
    {
        (copy_items(&self.items), copy_items(&self.history))
    }

    /// Returns the current and next items in the queue.
    pub fn peek(&self) -> (items: Vec<LinearQueueItem>)
        ensures
            items@ == self.spec_items(),
    {
        copy_items(&self.items)
    }

    /// Advances the queue forward by one item.
    pub fn next(&mut self)
        ensures
            (final(self).spec_items(), final(self).spec_history()) == advanced(
                old(self).spec_items(),
                old(self).spec_history(),
            ),
    {
        if self.items.len() > 0 {
            let item = self.items.remove(0);
            self.history.push(item);
        }
    }

    /// Backtracks the queue by one item.
    pub fn previous(&mut self)
        ensures
            (final(self).spec_items(), final(self).spec_history()) == backtracked(
                old(self).spec_items(),
                old(self).spec_history(),
            ),
    {
        match self.history.pop() {
            Some(item) => {
                self.items.insert(0, item);
                assert(self.items@ =~= seq![item] + old(self).spec_items());
            },
            None => {},
        }
    }

    /// Resets the queue back to the beginning: the history, in the order it was
    /// played, goes back in front of the items.
    pub fn reset(&mut self)
        ensures
            final(self).spec_items() == old(self).spec_history() + old(self).spec_items(),
            final(self).spec_history() == Seq::<LinearQueueItem>::empty(),
    {
        let mut index: usize = 0;
        let length = self.history.len();
        while index < length
            invariant
                index <= length,
                length == self.history@.len(),
                self.history@ == old(self).spec_history(),
                self.items@ == self.history@.skip(length - index) + old(self).spec_items(),
            decreases length - index,
        {
            let item = self.history[length - 1 - index];
            let ghost before = self.items@;
            self.items.insert(0, item);
            index = index + 1;
            proof {
                let kept = self.history@.skip(length - index);
                assert(kept =~= seq![item] + self.history@.skip(length - (index - 1)));
                assert(self.items@ =~= seq![item] + before);
                assert(self.items@ =~= kept + old(self).spec_items());
            }
        }
        proof {
            assert(self.history@.skip(0) =~= self.history@);
        }
        self.history = Vec::new();
    }

    /// Removes the items of the given track from the queue. The history is kept.
    pub fn skip(&mut self, track_id: u64)
        ensures
            final(self).spec_items() == old(self).spec_items().filter(
                |item: LinearQueueItem| item.track_id.spec_value() != track_id,
            ),
            final(self).spec_history() == old(self).spec_history(),
    {
        let ghost keep = |item: LinearQueueItem| item.track_id.spec_value() != track_id;
        let mut kept: Vec<LinearQueueItem> = Vec::new();
        let mut index: usize = 0;
        while index < self.items.len()
            invariant
                index <= self.items@.len(),
                self.items@ == old(self).spec_items(),
                self.history@ == old(self).spec_history(),
                keep == (|item: LinearQueueItem| item.track_id.spec_value() != track_id),
                kept@ == self.items@.take(index as int).filter(keep),
            decreases self.items@.len() - index,
        {
            let item = self.items[index];
            proof {
                assert(self.items@.take(index + 1) =~= self.items@.take(index as int).push(item));
                self.items@.take(index as int).lemma_filter_push(item, keep);
            }
            if item.track_id.value() != track_id {
                kept.push(item);
            }
            index = index + 1;
        }
        proof {
            assert(self.items@.take(self.items@.len() as int) =~= self.items@);
        }
        self.items = kept;
    }

    /// Registers a sink for a track, wherever the track is in the queue or its history.
    pub fn register_sink(&mut self, track_id: u64, sink_id: SinkId)
        ensures
            final(self).spec_items() == old(self).spec_items().map_values(
                |item: LinearQueueItem| registered(item, track_id, sink_id),
            ),
            final(self).spec_history() == old(self).spec_history().map_values(
                |item: LinearQueueItem| registered(item, track_id, sink_id),
            ),
    {
        register_in(&mut self.items, track_id, sink_id);
        register_in(&mut self.history, track_id, sink_id);
    }
}

fn copy_items(items: &Vec<LinearQueueItem>) -> (copy: Vec<LinearQueueItem>)
    ensures
        copy@ == items@,
{
    let mut copy: Vec<LinearQueueItem> = Vec::new();
    let mut index: usize = 0;
    while index < items.len()
        invariant
            index <= items@.len(),
            copy@ == items@.take(index as int),
        decreases items@.len() - index,
    {
        copy.push(items[index]);
        index = index + 1;
        assert(copy@ =~= items@.take(index as int));
    }
    assert(items@.take(items@.len() as int) =~= items@);
    copy
}

fn register_in(items: &mut Vec<LinearQueueItem>, track_id: u64, sink_id: SinkId)
    ensures
        final(items)@ == old(items)@.map_values(|item: LinearQueueItem| registered(item, track_id, sink_id)),
{
    let mut index: usize = 0;
    while index < items.len()
        invariant
            index <= items@.len(),
            items@.len() == old(items)@.len(),
            forall|j: int| 0 <= j < index ==> items@[j] == registered(old(items)@[j], track_id, sink_id),
            forall|j: int| index <= j < items@.len() ==> items@[j] == old(items)@[j],
        decreases items@.len() - index,
    {
        let item = items[index];
        if item.track_id.value() == track_id {
            items.set(index, LinearQueueItem { user_id: item.user_id, track_id: item.track_id, sink_id: Some(sink_id) });
        }
        index = index + 1;
    }
    assert(items@ =~= old(items)@.map_values(|item: LinearQueueItem| registered(item, track_id, sink_id)));
}

} // verus!
