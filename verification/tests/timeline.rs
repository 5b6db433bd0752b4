use turntable::sink::SinkId;
use turntable::store::SinkStore;
use turntable::timeline::Timeline;

// Thresholds of the default configuration: 44100 Hz, two channels.
const DEFAULT_PRELOAD_THRESHOLD: usize = 180 * 88200;
const DEFAULT_WINDOW: usize = 300 * 88200;

fn add_sink(store: &mut SinkStore<f32>, expected_length: Option<usize>) -> SinkId {
    let id = store.prepare(0);
    store.finish_activation(id, expected_length, 0);
    id
}

/// Takes the write reference of a sink, writes the samples, and releases it.
fn write_to(store: &mut SinkStore<f32>, id: SinkId, offset: usize, samples: &[f32]) {
    let mut sink = store.take(id).expect("sink exists");
    sink.write(0);
    sink.write_samples(offset, samples);
    sink.clear_write_ref(0);
    store.insert(sink);
}

fn seal(store: &mut SinkStore<f32>, id: SinkId) {
    let mut sink = store.take(id).expect("sink exists");
    sink.seal();
    store.insert(sink);
}

#[test]
fn test_advancement() {
    let mut store = SinkStore::new();
    let mut timeline = Timeline::new(DEFAULT_PRELOAD_THRESHOLD, DEFAULT_WINDOW, 2);

    // Set up our sinks.
    let first = add_sink(&mut store, Some(10));
    let second = add_sink(&mut store, Some(10));

    timeline.set_sinks(&mut store, vec![first, second], 0);

    // First is fully loaded.
    write_to(&mut store, first, 0, &[1., 2., 3., 4., 5., 6., 7., 8., 9., 10.]);
    seal(&mut store, first);

    // Second has a gap after first range.
    write_to(&mut store, second, 0, &[1., 2., 3., 4., 5.]);

    // Request 5 samples from the timeline.
    let reads = timeline.advance(&store, 5);

    assert_eq!(reads.len(), 1, "only one sink needs to be read");
    assert_eq!(reads[0].offset, 0, "we are at the start of the first sink");
    assert_eq!(reads[0].amount, 5, "five samples should be read");

    // Request 4 samples from the timeline.
    let reads = timeline.advance(&store, 4);
    assert_eq!(reads.len(), 1, "only one sink needs to be read");
    assert_eq!(reads[0].offset, 5, "we are at offset 5 of the first sink");

    // Request 5 samples from the timeline: one is left in the first sink, four come from the second.
    let reads = timeline.advance(&store, 5);
    assert_eq!(reads.len(), 2, "returns reads for both sinks");
    assert_eq!(reads[0].offset, 9, "offset for first is correct");
    assert_eq!(reads[1].offset, 0, "next should start at the beginning");
    assert_eq!(reads[1].amount, 4, "samples requested is correct");

    // Swallow the last sample from the second sink.
    timeline.advance(&store, 1);

    // Should return no reads since we're at the end of the timeline.
    let read = timeline.advance(&store, 5);
    assert_eq!(read.len(), 0, "no reads should be returned");
}

#[test]
fn test_preload() {
    // Makes the threshold amount in samples 3.
    let mut store = SinkStore::new();
    let mut timeline = Timeline::new(3, 300, 1);

    // Set up our sinks.
    let first = add_sink(&mut store, Some(10));
    let second = add_sink(&mut store, Some(10));

    timeline.set_sinks(&mut store, vec![first, second], 0);

    // Should return the first sink to preload.
    let preload = timeline.preload(&store);
    assert_eq!(preload[0].sink_id, first, "returns the first sink");

    // We have 3 samples ahead, so we shouldn't need to preload anything.
    write_to(&mut store, first, 0, &[0., 0., 0.]);
    let preload = timeline.preload(&store);
    assert!(preload.is_empty());

    // Advance by 2 samples.
    timeline.seek(2);

    // We don't have any samples, and the offset is now 2, so we need to preload again.
    let preload = timeline.preload(&store);
    assert_eq!(preload[0].offset, 3, "returns the correct offset");

    // Seal the first sink, so we have to preload the second sink.
    seal(&mut store, first);

    // Should return the second sink to preload.
    let preload = timeline.preload(&store);
    assert_eq!(preload[0].sink_id, second, "returns the second sink");

    // Set up case where two should be preloaded at once, since they are below the threshold.
    let first = add_sink(&mut store, Some(2));
    let second = add_sink(&mut store, Some(2));

    timeline.reset();
    timeline.set_sinks(&mut store, vec![first, second], 0);

    let preload = timeline.preload(&store);
    assert_eq!(preload.len(), 2, "returns two preloads");
}

#[test]
fn test_set_sinks_guards_and_releases() {
    let mut store: SinkStore<f32> = SinkStore::new();
    let mut timeline = Timeline::new(3, 300, 1);
    let first = add_sink(&mut store, Some(4));
    let second = add_sink(&mut store, Some(4));

    timeline.set_sinks(&mut store, vec![first, second], 0);
    assert!(store.get(first).unwrap().is_guarded());
    assert!(store.get(second).unwrap().is_guarded());
    assert_eq!(timeline.current_sink(), Some(first));

    // Keeping the first sink keeps the offset.
    timeline.seek(3);
    timeline.set_sinks(&mut store, vec![first], 0);
    assert_eq!(timeline.current_offset(), 3);
    assert!(!store.get(second).unwrap().is_guarded());

    // A different first sink resets the offset.
    timeline.set_sinks(&mut store, vec![second], 0);
    assert_eq!(timeline.current_offset(), 0);
    assert!(!store.get(first).unwrap().is_guarded());
    assert!(store.get(second).unwrap().is_guarded());
}

#[test]
fn test_total_offset_accumulates() {
    let mut store = SinkStore::new();
    let mut timeline = Timeline::new(3, 300, 1);
    let first = add_sink(&mut store, Some(4));
    timeline.set_sinks(&mut store, vec![first], 0);
    write_to(&mut store, first, 0, &[1., 2., 3., 4.]);

    timeline.advance(&store, 3);
    assert_eq!(timeline.total_offset(), 3);
    // The sink can still load more, so the timeline waits at its void.
    let reads = timeline.advance(&store, 3);
    assert_eq!(reads.len(), 1);
    assert_eq!(reads[0].amount, 1);
    assert_eq!(timeline.total_offset(), 4);
    assert_eq!(timeline.current_offset(), 4);
    assert!(!timeline.is_empty());
    let reads = timeline.advance(&store, 3);
    assert!(reads.is_empty());
}

#[test]
fn advance_plays_sinks_in_order_and_counts_what_it_read() {
    let mut store = SinkStore::new();
    let mut timeline = Timeline::new(DEFAULT_PRELOAD_THRESHOLD, DEFAULT_WINDOW, 2);
    let first = add_sink(&mut store, Some(4));
    let second = add_sink(&mut store, Some(2));
    let third = add_sink(&mut store, Some(6));
    timeline.set_sinks(&mut store, vec![first, second, third], 0);
    write_to(&mut store, first, 0, &[1., 2., 3., 4.]);
    seal(&mut store, first);
    write_to(&mut store, second, 0, &[5., 6.]);
    seal(&mut store, second);
    write_to(&mut store, third, 0, &[7., 8., 9., 10., 11., 12.]);

    let reads = timeline.advance(&store, 3);
    assert_eq!(reads.len(), 1);
    assert_eq!(timeline.total_offset(), 3);

    let reads = timeline.advance(&store, 5);
    let read: Vec<(SinkId, usize, usize)> = reads.iter().map(|r| (r.sink_id, r.offset, r.amount)).collect();
    // The current sink from where it stands, every later sink from its start.
    assert_eq!(read, vec![(first, 3, 1), (second, 0, 2), (third, 0, 2)]);
    assert_eq!(timeline.total_offset(), 8, "the total offset grows by what was read");
    assert_eq!(timeline.current_sink(), Some(third), "the sinks played to their end are gone");
    assert_eq!(timeline.current_offset(), 2);
}
