use turntable::output::Stream;

#[test]
fn preload_cache_keeps_latest_samples() {
    let mut stream = Stream::new(4);
    stream.push_preload(&[1, 2, 3]);
    assert_eq!(stream.preload_cache(), vec![1, 2, 3]);
    stream.push_preload(&[4, 5, 6]);
    assert_eq!(stream.preload_cache(), vec![3, 4, 5, 6]);
    stream.push_preload(&[7, 8, 9, 10, 11]);
    assert_eq!(stream.preload_cache(), vec![8, 9, 10, 11]);
}

#[test]
fn preload_cache_of_size_zero_is_empty() {
    let mut stream = Stream::new(0);
    stream.push_preload(&[1.0f32, 2.0]);
    assert!(stream.preload_cache().is_empty());
}
