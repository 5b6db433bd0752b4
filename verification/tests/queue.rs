use turntable::id::Id;
use turntable::queue::{LinearQueue, TrackId};
use turntable::sink::SinkId;

fn track(value: u64) -> TrackId {
    Id::from_value(value)
}

fn ids(items: &[turntable::queue::LinearQueueItem]) -> Vec<u64> {
    items.iter().map(|item| item.track_id.value()).collect()
}

#[test]
fn next_and_previous_move_between_items_and_history() {
    let mut queue = LinearQueue::new();
    queue.push(track(1), 7);
    queue.push(track(2), 7);
    queue.push(track(3), 8);

    queue.next();
    let (items, history) = queue.tracks();
    assert_eq!(ids(&items), vec![2, 3]);
    assert_eq!(ids(&history), vec![1]);

    queue.previous();
    let (items, history) = queue.tracks();
    assert_eq!(ids(&items), vec![1, 2, 3]);
    assert!(history.is_empty());

    // Going back with an empty history does nothing.
    queue.previous();
    assert_eq!(ids(&queue.peek()), vec![1, 2, 3]);
}

#[test]
fn next_on_empty_queue_does_nothing() {
    let mut queue = LinearQueue::new();
    queue.next();
    let (items, history) = queue.tracks();
    assert!(items.is_empty());
    assert!(history.is_empty());
}

#[test]
fn reset_goes_back_to_the_beginning() {
    let mut queue = LinearQueue::new();
    for value in 1..=4 {
        queue.push(track(value), 1);
    }
    queue.next();
    queue.next();
    queue.next();
    queue.reset();
    let (items, history) = queue.tracks();
    assert_eq!(ids(&items), vec![1, 2, 3, 4]);
    assert!(history.is_empty());
}

#[test]
fn skip_removes_only_the_track() {
    let mut queue = LinearQueue::new();
    queue.push(track(1), 1);
    queue.push(track(2), 1);
    queue.push(track(1), 2);
    queue.next();
    queue.skip(1);
    let (items, history) = queue.tracks();
    assert_eq!(ids(&items), vec![2]);
    assert_eq!(ids(&history), vec![1]);
}

#[test]
fn sinks_are_found_after_registration() {
    let mut queue = LinearQueue::new();
    queue.push(track(1), 1);
    queue.push(track(2), 3);
    let sink: SinkId = Id::from_value(42);
    assert!(queue.get_by_sink_id(sink).is_none());

    queue.register_sink(2, sink);
    let found = queue.get_by_sink_id(sink).expect("registered");
    assert_eq!(found.track_id.value(), 2);
    assert_eq!(found.user_id, 3);
}
