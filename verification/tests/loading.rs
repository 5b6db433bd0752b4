use turntable::loading::{LoadableNetworkStream, ReadResult, SeekFrom, MIN_CHUNK_SIZE};

fn loaded_stream() -> LoadableNetworkStream {
    let mut stream = LoadableNetworkStream::new("https://example.com/a.mp3".to_string());
    stream.setup(true, Some(10));
    stream.finish_load(4, &[0, 1, 2, 3, 4]);
    stream
}

#[test]
fn preload_amounts() {
    let mut stream = LoadableNetworkStream::new("https://example.com/a.mp3".to_string());
    // The length is unknown, so a minimum chunk is asked for.
    assert_eq!(stream.preload_amount(10), Some(MIN_CHUNK_SIZE));
    stream.setup(true, Some(100));
    assert_eq!(stream.preload_amount(10), Some(100));
    assert_eq!(stream.load_range(100), (0, 99, true));
    stream.finish_load(99, &[7; 100]);
    // Everything is loaded.
    assert_eq!(stream.preload_amount(10), None);
}

#[test]
fn reads_from_loaded_bytes() {
    let mut stream = loaded_stream();
    let mut buf = [9u8; 3];
    assert_eq!(stream.read(&mut buf), ReadResult::More(3));
    assert_eq!(buf, [0, 1, 2]);
    let mut buf = [9u8; 3];
    assert_eq!(stream.read(&mut buf), ReadResult::End(2));
    assert_eq!(buf, [3, 4, 9]);
    assert_eq!(stream.absolute_read_offset(), 5);
}

#[test]
fn seeking_within_and_outside_loaded_bytes() {
    let mut stream = loaded_stream();
    assert_eq!(stream.seek(SeekFrom::Start(2)), 2);
    assert_eq!(stream.loaded_length(), 5);
    assert_eq!(stream.absolute_read_offset(), 2);

    assert_eq!(stream.seek(SeekFrom::Current(-1)), 1);
    assert_eq!(stream.absolute_read_offset(), 1);

    // Beyond the loaded bytes: they are dropped and loading starts over there.
    assert_eq!(stream.seek(SeekFrom::Start(8)), 8);
    assert_eq!(stream.loaded_length(), 0);
    assert_eq!(stream.load_range(5), (8, 9, true));

    // Past the end: the position is kept within the length.
    assert_eq!(stream.seek(SeekFrom::End(5)), 10);
}
