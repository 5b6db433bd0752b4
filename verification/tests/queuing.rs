use turntable::id::Id;
use turntable::queue::LinearQueue;
use turntable::queuing::ensure_sinks_for_items;
use turntable::store::SinkStore;

#[test]
fn items_get_new_inactive_sinks_once() {
    let mut store: SinkStore<f32> = SinkStore::new();
    let mut queue = LinearQueue::new();
    queue.push(Id::from_value(1), 7);
    queue.push(Id::from_value(2), 8);

    let sinks = ensure_sinks_for_items(&mut queue, &mut store, 5);
    assert_eq!(sinks.len(), 2);
    for sink in sinks.iter() {
        let stored = store.get(*sink).expect("sink is stored");
        assert!(stored.is_activatable());
    }
    let items = queue.peek();
    assert!(items[0].sink_id.unwrap() == sinks[0]);
    assert!(items[1].sink_id.unwrap() == sinks[1]);
    assert_eq!(items[0].user_id, 7);
    assert_eq!(items[1].track_id.value(), 2);

    let again = ensure_sinks_for_items(&mut queue, &mut store, 6);
    assert!(again[0] == sinks[0] && again[1] == sinks[1]);
}

#[test]
fn cleared_sinks_are_replaced() {
    let mut store: SinkStore<f32> = SinkStore::new();
    let mut queue = LinearQueue::new();
    queue.push(Id::from_value(1), 7);

    let first = ensure_sinks_for_items(&mut queue, &mut store, 0);
    let cleared = store.clear_inactive(1000);
    assert_eq!(cleared.len(), 1);
    assert!(cleared[0] == first[0]);

    let second = ensure_sinks_for_items(&mut queue, &mut store, 1000);
    assert!(second[0] != first[0]);
    assert!(store.has(second[0]));
    assert!(queue.peek()[0].sink_id.unwrap() == second[0]);
}
