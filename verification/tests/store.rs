use turntable::buffer::BufferReadEnd;
use turntable::sink::{Sink, SinkLoadState};
use turntable::store::SinkStore;

#[test]
fn activation_lifecycle() {
    let mut store: SinkStore<f32> = SinkStore::new();
    let id = store.prepare(0);
    assert!(store.get(id).unwrap().is_activatable());

    store.begin_activation(id, 1);
    assert!(store.get(id).unwrap().has_activation_guard());
    assert!(!store.get(id).unwrap().is_activated());

    store.finish_activation(id, Some(4), 2);
    let sink = store.get(id).unwrap();
    assert!(sink.is_activated());
    assert!(!sink.has_activation_guard());
    assert_eq!(sink.expected_length(), Some(4));
}

#[test]
fn failed_activation_can_be_retried() {
    let mut store: SinkStore<f32> = SinkStore::new();
    let id = store.prepare(0);
    store.begin_activation(id, 0);
    store.fail_activation(id, "no stream", 0);
    assert!(!store.get(id).unwrap().is_activated());
    store.begin_activation(id, 0);
    store.finish_activation(id, None, 0);
    assert!(store.get(id).unwrap().is_activated());
}

#[test]
fn loading_lifecycle_reports_state_updates() {
    let mut store: SinkStore<f32> = SinkStore::new();
    let sink = Sink::with_activation(Some(4), 0);
    let id = sink.id();
    store.insert(sink);

    let update = store.take_write_ref(id, 0).expect("state changed");
    assert_eq!(update.sink_id, id);
    assert_eq!(update.new_state, SinkLoadState::Loading);
    store.write(id, 0, &[1.0, 2.0]);
    let update = store.release_write_ref(id, 0).expect("state changed");
    assert_eq!(update.new_state, SinkLoadState::Idle);

    let mut buf = [0.0; 2];
    let read = store.get(id).unwrap().read(0, &mut buf);
    assert_eq!(read.amount, 2);
    assert_eq!(read.end, BufferReadEnd::Gap);
    assert_eq!(buf, [1.0, 2.0]);

    assert!(store.seal(id).is_some());
    assert!(store.seal(id).is_none(), "sealing twice changes nothing");
    assert_eq!(store.get(id).unwrap().load_state(), SinkLoadState::Sealed);
    assert!(store.error(id, "broken".to_string()).is_some());
    assert_eq!(store.get(id).unwrap().load_state(), SinkLoadState::Error("broken".to_string()));
}

#[test]
fn only_idle_sinks_are_cleared() {
    let mut store: SinkStore<f32> = SinkStore::new();
    let held = store.prepare(0);
    let idle = store.prepare(0);
    let recent = store.prepare(500);
    let mut sink = store.take(held).unwrap();
    sink.guard(0);
    store.insert(sink);

    let cleared = store.clear_inactive(600);
    assert_eq!(cleared, vec![idle]);
    assert!(store.has(held));
    assert!(store.has(recent));
    assert!(!store.has(idle));
}

#[test]
fn take_and_insert() {
    let mut store: SinkStore<f32> = SinkStore::new();
    let id = store.prepare(0);
    let sink = store.take(id).expect("stored");
    assert!(store.take(id).is_none());
    assert!(store.get(id).is_none());
    store.insert(sink);
    assert!(store.get(id).is_some());
}

#[test]
fn prepared_sinks_get_fresh_ids() {
    let mut store: SinkStore<f32> = SinkStore::new();
    assert_eq!(store.len(), 0);
    let mut ids = Vec::new();
    for _ in 0..50 {
        let id = store.prepare(0);
        assert!(id.value() != 0);
        assert!(!ids.contains(&id.value()));
        ids.push(id.value());
    }
    assert_eq!(store.len(), 50);
}
