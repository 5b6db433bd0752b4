use vstd::prelude::*;

use crate::queue::{registered, LinearQueue, LinearQueueItem};
use crate::sink::SinkId;
use crate::store::SinkStore;

verus! {

/// The item's sink, where it has one registered that is still stored.
pub open spec fn kept_sink<T>(store: &SinkStore<T>, item: LinearQueueItem) -> Option<SinkId> {
    match item.sink_id {
        Some(id) => if store.contains(id) {
            Some(id)
        } else {
            None
        },
        None => None,
    }
}

/// No two items are of the same track.
pub open spec fn distinct_tracks(items: Seq<LinearQueueItem>) -> bool {
    forall|i: int, j: int|
        0 <= i < items.len() && 0 <= j < items.len() && i != j ==> (#[trigger] items[i]).track_id.spec_value()
            != (#[trigger] items[j]).track_id.spec_value()
}

/// Ensures that all the items of the queue have an associated sink before
/// activation: an item keeps the sink registered for it if it is still stored,
/// and otherwise gets a new, inactive sink, registered for its track. Returns
/// the sinks of the items, in the order of the items.
pub fn ensure_sinks_for_items<T>(queue: &mut LinearQueue, store: &mut SinkStore<T>, now: u64) -> (sinks: Vec<SinkId>)
    ensures
        sinks@.len() == old(queue).spec_items().len(),
        forall|i: int|
            0 <= i < sinks@.len() ==> (#[trigger] kept_sink(old(store), old(queue).spec_items()[i]) matches Some(id)
                ==> sinks@[i] == id),
        forall|i: int|
            0 <= i < sinks@.len() ==> kept_sink(old(store), old(queue).spec_items()[i]) is None
                ==> (#[trigger] final(store).sink(sinks@[i])).activation() is Inactive,
        forall|i: int| 0 <= i < sinks@.len() ==> final(store).contains(#[trigger] sinks@[i]),
        forall|key: u64| #[trigger] old(store)@.dom().contains(key) ==> final(store)@.dom().contains(key),
        final(queue).spec_history().len() == old(queue).spec_history().len(),
        final(queue).spec_items().len() == old(queue).spec_items().len(),
        forall|i: int|
            0 <= i < sinks@.len() ==> (#[trigger] final(queue).spec_items()[i]).track_id == old(queue).spec_items()[i].track_id
                && final(queue).spec_items()[i].user_id == old(queue).spec_items()[i].user_id,
        distinct_tracks(old(queue).spec_items()) ==> forall|i: int|
            0 <= i < sinks@.len() ==> (#[trigger] final(queue).spec_items()[i]).sink_id == Some(sinks@[i]),
{
    let items = queue.peek();
    let ghost before = old(store)@;
    let mut sinks: Vec<SinkId> = Vec::new();
    let mut index: usize = 0;
    while index < items.len()
        invariant
            index <= items@.len(),
            items@ == old(queue).spec_items(),
            sinks@.len() == index,
            forall|i: int|
                0 <= i < index ==> (#[trigger] kept_sink(old(store), items@[i]) matches Some(id) ==> sinks@[i] == id),
            forall|i: int|
                0 <= i < index ==> kept_sink(old(store), items@[i]) is None ==> (#[trigger] store.sink(
                    sinks@[i],
                )).activation() is Inactive,
            forall|i: int| 0 <= i < index ==> store.contains(#[trigger] sinks@[i]),
            forall|key: u64| #[trigger] before.dom().contains(key) ==> store@.dom().contains(key),
            forall|key: u64|
                store@.dom().contains(key) && !before.dom().contains(key) ==> (#[trigger] store@[key]).activation() is Inactive,
            before == old(store)@,
            queue.spec_history().len() == old(queue).spec_history().len(),
            queue.spec_items().len() == items@.len(),
            forall|j: int|
                0 <= j < items@.len() ==> (#[trigger] queue.spec_items()[j]).track_id == items@[j].track_id
                    && queue.spec_items()[j].user_id == items@[j].user_id,
            distinct_tracks(items@) ==> forall|j: int|
                0 <= j < index ==> (#[trigger] queue.spec_items()[j]).sink_id == Some(sinks@[j]),
            distinct_tracks(items@) ==> forall|j: int|
                index <= j < items@.len() ==> (#[trigger] queue.spec_items()[j]).sink_id == items@[j].sink_id,
        decreases items@.len() - index,
    {
        let item = items[index];
        let existing = match item.sink_id {
            Some(id) => if store.has(id) {
                Some(id)
            } else {
                None
            },
            None => None,
        };
        proof {
            match item.sink_id {
                Some(id) => {
                    if old(store).contains(id) {
                        assert(store@.dom().contains(id.spec_value()));
                    }
                },
                None => {},
            }
        }
        let ghost queue_before = queue.spec_items();
        let ghost map_before = store@;
        let ghost store_before: SinkStore<T> = *store;
        let ghost sinks_before = sinks@;
        let id = match existing {
            Some(id) => id,
            None => {
                let id = store.prepare(now);
                queue.register_sink(item.track_id.value(), id);
                proof {
                    assert forall|j: int| 0 <= j < items@.len() implies (#[trigger] queue.spec_items()[j]).track_id
                        == items@[j].track_id && queue.spec_items()[j].user_id == items@[j].user_id by {
                        assert(queue.spec_items()[j] == registered(queue_before[j], item.track_id.spec_value(), id));
                    }
                    if distinct_tracks(items@) {
                        assert forall|j: int| 0 <= j < items@.len() && j != index implies #[trigger] queue.spec_items()[j]
                            == queue_before[j] by {
                            assert(queue.spec_items()[j] == registered(queue_before[j], item.track_id.spec_value(), id));
                            assert(items@[j].track_id.spec_value() != items@[index as int].track_id.spec_value());
                        }
                        assert(queue.spec_items()[index as int] == registered(
                            queue_before[index as int],
                            item.track_id.spec_value(),
                            id,
                        ));
                    }
                }
                id
            },
        };
        sinks.push(id);
        proof {
            assert(store@.dom().contains(id.spec_value()));
            if kept_sink(old(store), items@[index as int]) is None {
                if existing is Some {
                    assert(!before.dom().contains(id.spec_value()));
                }
                assert(store.sink(id).activation() is Inactive);
            }
            assert forall|i: int|
                0 <= i < index + 1 && kept_sink(old(store), items@[i]) is None implies (#[trigger] store.sink(
                sinks@[i])).activation() is Inactive by {
                if i < index {
                    assert(sinks@[i] == sinks_before[i]);
                    assert(store_before.sink(sinks_before[i]).activation() is Inactive);
                    let key = sinks@[i].spec_value();
                    if existing is Some {
                        assert(store@ == map_before);
                    } else if key != id.spec_value() {
                        assert(store@[key] == map_before[key]);
                    } else {
                        assert(store.sink(sinks@[i]) == store.sink(id));
                    }
                } else {
                    assert(sinks@[i] == id);
                }
            }
        }
        index = index + 1;
    }
    sinks
}

} // verus!
