use turntable::introspection::Introspect;
use std::collections::VecDeque;

use turntable::buffer::{BufferReadEnd, MultiRangeBuffer, RangeBuffer};
use turntable::ext::{assign_slice, assign_slice_with_offset, VecDequeExt};

#[test]
fn buffer_test_intersecting_or_adjacent() {
    let mut first = RangeBuffer::new(0);
    let mut second = RangeBuffer::new(5);

    first.write(&[1., 2., 3., 4., 5.]);
    second.write(&[6., 7., 8., 9., 10.]);

    assert!(
        first.is_intersecting_or_adjacent(&second),
        "first should intersect with second"
    );
    assert!(
        second.is_intersecting_or_adjacent(&first),
        "second should intersect with first"
    );

    // With a gap
    let mut first = RangeBuffer::new(0);
    let mut second = RangeBuffer::new(6);

    first.write(&[1., 2., 3., 4., 5.]);
    second.write(&[6., 7., 8., 9., 10.]);

    assert!(
        !first.is_intersecting_or_adjacent(&second),
        "first should not intersect with second"
    );
    assert!(
        !second.is_intersecting_or_adjacent(&first),
        "second should not intersect with first"
    );
}

#[test]
fn buffer_test_merge_with() {
    let end_result = [1., 2., 3., 4., 5., 6., 7., 8., 9., 10.];

    let mut first = RangeBuffer::new(0);
    let mut second = RangeBuffer::new(5);

    first.write(&[1., 2., 3., 4., 5.]);
    second.write(&[6., 7., 8., 9., 10.]);

    let mut merged = first.merge_with(second);
    assert_eq!(
        merged.consume_to_vec(),
        end_result,
        "first should be merged with second"
    );

    let mut first = RangeBuffer::new(0);
    let mut second = RangeBuffer::new(5);

    first.write(&[1., 2., 3., 4., 5.]);
    second.write(&[6., 7., 8., 9., 10.]);

    let mut merged = second.merge_with(first);
    assert_eq!(
        merged.consume_to_vec(),
        end_result,
        "second should be merged with first"
    );

    // Check with an intersecting range
    let mut first = RangeBuffer::new(0);
    let mut second = RangeBuffer::new(5);

    first.write(&[1., 2., 3., 4., 5., 6., 7.]);
    second.write(&[6., 7., 8., 9., 10.]);

    let mut merged = second.merge_with(first);
    assert_eq!(
        merged.consume_to_vec(),
        end_result,
        "second should be merged with first with intersection of 2"
    );
}

#[test]
fn buffer_test_retain_range() {
    // Two channels, L and R.
    let chunk_size = 2;
    let absolute_offset = 6;

    let mut buffer = RangeBuffer::new(absolute_offset);

    //             L   R   L   R   L   R   L   R   L   R
    buffer.write(&[1., 2., 3., 4., 5., 6., 7., 8., 9., 10.]);

    let get_samples = |buffer: &RangeBuffer<f32>| {
        let mut buf = vec![0.; 2];

        // Get the fifth and sixth sample
        buffer.read(absolute_offset + 4, &mut buf);
        buf
    };

    let expected_samples = get_samples(&buffer);
    assert_eq!(&expected_samples, &[5., 6.], "sample is correct");

    // Specifies sample 4. (even, R). Should get normalized to 3. (odd, L).
    let odd_start_offset = absolute_offset + 3;
    // Specifies sample 7. (odd, L). Should get normalized to 8. (even, R).
    let even_end_offset = absolute_offset + 6;

    buffer.retain_range(odd_start_offset, even_end_offset, chunk_size);

    assert_eq!(
        get_samples(&buffer),
        expected_samples,
        "received samples are correct"
    );
    assert_eq!(
        buffer.offset(),
        odd_start_offset - 1,
        "offset is changed accordingly"
    );
    assert_eq!(
        buffer.consume_to_vec(),
        //   L   R   L   R   L   R
        vec![3., 4., 5., 6., 7., 8.],
        "samples within window are retained"
    );

    // Check the overflowing, and check that it handles off-by-one offset.
    let absolute_offset = absolute_offset + 1;
    let mut buffer = RangeBuffer::new(absolute_offset);

    //             R   L   R   L   R   L   R   L   R   L
    buffer.write(&[1., 2., 3., 4., 5., 6., 7., 8., 9., 10.]);

    let start = absolute_offset - 1;
    let end = absolute_offset + 10;

    buffer.retain_range(start, end, chunk_size);

    assert_eq!(
        buffer.offset(),
        absolute_offset + 1,
        "offset is changed accordingly"
    );
    assert_eq!(
        buffer.consume_to_vec(),
        //   L   R   L   R   L   R   L   R
        vec![2., 3., 4., 5., 6., 7., 8., 9.],
        "overflowing end is handled correctly"
    );
}

#[test]
fn buffer_test_is_within() {
    let mut buffer = RangeBuffer::new(0);
    buffer.write(&[1., 2., 3., 4., 5., 6., 7., 8., 9., 10.]);

    // Remember, offset starts at 0.
    assert!(buffer.is_within(0), "start is within");
    assert!(buffer.is_within(4), "middle is within");
    assert!(buffer.is_within(9), "end is within");
}

#[test]
fn buffer_test_merge_multi_ranges() {
    let mut buffer = MultiRangeBuffer::new(None);

    buffer.write(0, &[1., 2., 3., 4., 5., 6., 7., 8., 9., 10.]);
    buffer.write(5, &[0., 0., 0.]);
    buffer.write(9, &[1., 1., 1.]);
    assert_eq!(
        buffer.consume_to_vec(),
        vec![vec![1., 2., 3., 4., 5., 0., 0., 0.], vec![1., 1., 1.]],
        "ranges are correctly merged"
    );
}

#[test]
fn buffer_test_read() {
    let offset = 20;
    let mut buffer = RangeBuffer::new(offset);

    buffer.write(&[1., 2., 3., 4., 5.]);

    // Read the 5 written samples
    let mut buf = vec![0.; 10];
    let amount = buffer.read(offset, &mut buf);

    assert_eq!(&buf[..amount], &[1., 2., 3., 4., 5.], "buf is correct");
    assert_eq!(amount, 5, "amount read is correct");

    // Read at offset
    let mut buf = vec![0.; 10];
    let amount = buffer.read(offset + 3, &mut buf);

    assert_eq!(&buf[..amount], &[4., 5.], "buf is correct");
    assert_eq!(amount, 2, "amount read is correct");
}

#[test]
fn test_read_multi() {
    let mut buffer = MultiRangeBuffer::new(Some(29));

    buffer.write(0, &[1., 2., 3., 4., 5., 6., 7., 8., 9., 10.]);
    buffer.write(20, &[1., 2., 3., 4., 5., 6., 7., 8., 9., 10.]);

    // Reading from the first range
    let mut buf = vec![0.; 6];
    let result = buffer.read(7, &mut buf);

    assert_eq!(result.amount, 3, "amount read is correct");
    assert_eq!(result.end, BufferReadEnd::Gap, "result end is correct");
    assert_eq!(buf, vec![8., 9., 10., 0., 0., 0.], "buf is read correctly");

    // Reading from the second range
    let mut buf = vec![0.; 6];
    let result = buffer.read(22, &mut buf);

    assert_eq!(result.amount, 6, "amount read in second range is correct");
    assert_eq!(result.end, BufferReadEnd::More, "result end is correct");
    assert_eq!(
        buf,
        vec![3., 4., 5., 6., 7., 8.],
        "buf is read correctly from second range"
    );

    // Reading to the end of the buffer
    let mut buf = vec![0.; 3];
    let result = buffer.read(27, &mut buf);

    assert_eq!(result.amount, 3, "amount read is correct");
    assert_eq!(result.end, BufferReadEnd::End, "result end is correct");
    assert_eq!(buf, vec![8., 9., 10.], "buf is read correctly");
}

#[test]
fn buffer_test_distance_from_void() {
    let mut buffer = MultiRangeBuffer::new(None);

    buffer.write(0, &[1., 2., 3., 4., 5., 6., 7., 8., 9., 10.]);
    buffer.write(20, &[1., 2., 3., 4., 5., 6., 7., 8., 9., 10.]);

    let in_middle = buffer.distance_from_void(0);
    let at_end = buffer.distance_from_void(25);

    assert_eq!(
        in_middle.distance, 10,
        "distance from void in first range is correct"
    );
    assert!(!in_middle.is_end, "void after first range is not end");

    assert_eq!(
        at_end.distance, 5,
        "distance from void in second range is correct"
    );
    assert!(
        at_end.is_end,
        "void after second range is the end/last void"
    );

    let at_last_sample = buffer.distance_from_void(29);
    assert!(at_last_sample.is_end, "void after last sample is the end");
}

#[test]
fn buffer_test_retain_window() {
    let mut buffer = MultiRangeBuffer::new(None);

    //                L   R   L   R   L   R   L   R   L   R
    buffer.write(0, &[1., 2., 3., 4., 5., 6., 7., 8., 9., 10.]);
    //                 R    L    R    L    R    L    R    L    R    L
    buffer.write(11, &[20., 21., 22., 23., 24., 25., 26., 27., 28., 29.]);

    // 10 is a gap
    buffer.retain_window(10, 3, 2);

    assert_eq!(
        buffer.consume_to_vec(),
        //        L   R   L   R          L    R
        vec![vec![7., 8., 9., 10.], vec![21., 22.]],
        "ranges are correctly retained"
    );
}

#[test]
fn buffer_test_assign_slice() {
    let mut buf = vec![0.; 10];

    let amount = assign_slice(&[1., 2., 3., 4.], &mut buf);

    assert_eq!(amount, 4, "amount is correct");
    assert_eq!(
        buf,
        &[1.0, 2.0, 3.0, 4.0, 0.0, 0.0, 0.0, 0.0, 0.0, 0.0,],
        "buf is assigned correctly"
    );
}

#[test]
fn buffer_test_assign_slice_with_offset() {
    let mut buf = vec![0.; 10];

    let amount = assign_slice_with_offset(2, &[1., 2., 3., 4.], &mut buf);
    assert_eq!(amount, 4, "amount is correct");

    let amount = assign_slice_with_offset(6, &[1., 2., 3., 4., 5.], &mut buf);
    assert_eq!(amount, 4, "amount is correct");

    let amount = assign_slice_with_offset(10, &[1., 2., 3.], &mut buf);
    assert_eq!(amount, 0, "amount is correct");

    assert_eq!(
        &buf,
        &[0.0, 0.0, 1.0, 2.0, 3.0, 4.0, 1.0, 2.0, 3.0, 4.0,],
        "buf is assigned correctly"
    );
}

#[test]
fn util_test_assign_slice() {
    let mut buf = vec![0.; 10];

    let amount = assign_slice(&[1., 2., 3., 4.], &mut buf);

    assert_eq!(amount, 4, "amount is correct");
    assert_eq!(
        buf,
        &[1.0, 2.0, 3.0, 4.0, 0.0, 0.0, 0.0, 0.0, 0.0, 0.0,],
        "buf is assigned correctly"
    );
}

#[test]
fn util_test_assign_slice_with_offset() {
    let mut buf = vec![0.; 10];

    let amount = assign_slice_with_offset(2, &[1., 2., 3., 4.], &mut buf);
    assert_eq!(amount, 4, "amount is correct");

    let amount = assign_slice_with_offset(6, &[1., 2., 3., 4., 5.], &mut buf);
    assert_eq!(amount, 4, "amount is correct");

    let amount = assign_slice_with_offset(10, &[1., 2., 3.], &mut buf);
    assert_eq!(amount, 0, "amount is correct");

    assert_eq!(
        &buf,
        &[0.0, 0.0, 1.0, 2.0, 3.0, 4.0, 1.0, 2.0, 3.0, 4.0,],
        "buf is assigned correctly"
    );
}

#[test]
fn test_range_as_slices() {
    let mut deque = VecDeque::new();

    deque.push_back(0);
    deque.push_back(1);
    deque.push_back(2);

    assert_eq!(deque.range_as_slices(1..), (&[1, 2][..], &[][..]));
    assert_eq!(deque.range_as_slices(1..2), (&[1][..], &[][..]));

    deque.push_front(-1);
    deque.push_front(-2);

    assert_eq!(deque.range_as_slices(1..), (&[-1][..], &[0, 1, 2][..]));
    assert_eq!(deque.range_as_slices(1..4), (&[-1][..], &[0, 1][..]));
    assert_eq!(deque.range_as_slices(2..), (&[][..], &[0, 1, 2][..]));
    assert_eq!(deque.range_as_slices(..2), (&[-2, -1][..], &[][..]));
}

#[test]
fn read_after_write_returns_samples() {
    let mut buffer = MultiRangeBuffer::new(None);
    buffer.write(0, &[1, 2, 3, 4, 5, 6]);
    buffer.write(10, &[7, 8]);
    // The new range overlaps the first one and touches the second.
    buffer.write(4, &[9, 9, 9, 9, 9, 9]);
    let mut buf = [0; 6];
    let read = buffer.read(4, &mut buf);
    assert_eq!(read.amount, 6);
    assert_eq!(buf, [9, 9, 9, 9, 9, 9]);
    let mut all = [0; 12];
    let read = buffer.read(0, &mut all);
    assert_eq!(read.amount, 12);
    assert_eq!(all, [1, 2, 3, 4, 9, 9, 9, 9, 9, 9, 7, 8]);
}

#[test]
fn write_at_an_existing_start_overwrites() {
    let mut buffer = MultiRangeBuffer::new(None);
    buffer.write(0, &[1, 2, 3]);
    buffer.write(0, &[4, 5]);
    let mut out = [0; 2];
    let read = buffer.read(0, &mut out);
    assert_eq!(read.amount, 2);
    assert_eq!(out, [4, 5]);
}

#[test]
fn write_over_a_later_range_keeps_the_samples() {
    let mut buffer = MultiRangeBuffer::new(None);
    buffer.write(0, &[1, 2]);
    buffer.write(4, &[5, 6, 7, 8]);
    buffer.write(2, &[0, 0, 0, 0]);
    let mut out = [0; 8];
    let read = buffer.read(0, &mut out);
    assert_eq!(read.amount, 8);
    assert_eq!(out, [1, 2, 0, 0, 0, 0, 7, 8]);
}

#[test]
fn writing_nothing_changes_nothing() {
    let mut buffer = MultiRangeBuffer::new(None);
    buffer.write(3, &[1, 2]);
    buffer.write(8, &[]);
    assert_eq!(buffer.distance_from_void(8).distance, 0);
    assert_eq!(buffer.consume_to_vec(), vec![vec![1, 2]]);
}

#[test]
fn read_ending_inside_a_range_is_more() {
    let mut buffer = MultiRangeBuffer::new(None);
    buffer.write(0, &[1., 2., 3., 4., 5., 6., 7., 8., 9., 10.]);
    let mut buf = [0.0f32; 9];
    let read = buffer.read(0, &mut buf);
    assert_eq!(read.amount, 9);
    assert_eq!(buf, [1., 2., 3., 4., 5., 6., 7., 8., 9.]);
    assert_eq!(read.end, BufferReadEnd::More);

    let mut buf = [0.0f32; 10];
    let read = buffer.read(0, &mut buf);
    assert_eq!(read.end, BufferReadEnd::Gap);
}

#[test]
fn distance_from_an_unknown_end_is_the_largest() {
    let unknown = MultiRangeBuffer::<f32>::new(None);
    assert_eq!(unknown.distance_from_end(5), usize::MAX);
    let known = MultiRangeBuffer::<f32>::new(Some(29));
    assert_eq!(known.distance_from_end(27), 2);
    assert_eq!(known.distance_from_end(30), 0);
}

#[test]
fn retain_window_keeps_a_range_inside_the_window() {
    let mut buffer = MultiRangeBuffer::new(None);
    buffer.write(10, &[1., 2., 3., 4.]);
    buffer.retain_window(12, 6, 2);
    assert_eq!(buffer.distance_from_void(10).distance, 4);
    let mut buf = [0.0f32; 4];
    let read = buffer.read(10, &mut buf);
    assert_eq!(read.amount, 4);
    assert_eq!(buf, [1., 2., 3., 4.]);
}

#[test]
fn retain_window_drops_ranges_outside_the_window() {
    let mut buffer = MultiRangeBuffer::new(None);
    buffer.write(0, &[1, 2]);
    buffer.write(100, &[3, 4]);
    buffer.retain_window(50, 10, 2);
    assert!(buffer.consume_to_vec().is_empty());
}

#[test]
fn retain_range_with_single_samples_keeps_the_whole_window() {
    let mut range = RangeBuffer::new(4);
    range.write(&[1, 2, 3]);
    range.retain_range(0, 10, 1);
    assert_eq!(range.offset(), 4);
    assert_eq!(range.consume_to_vec(), vec![1, 2, 3]);
}

#[test]
fn retain_range_empties_a_range_without_a_whole_chunk() {
    let mut range = RangeBuffer::new(4);
    range.write(&[7]);
    range.retain_range(0, 10, 3);
    // Emptied at the start of the chunk that holds its offset.
    assert_eq!(range.offset(), 3);
    assert!(range.consume_to_vec().is_empty());
}

#[test]
fn retain_window_drops_a_range_left_without_a_whole_chunk() {
    let mut buffer = MultiRangeBuffer::new(None);
    buffer.write(4, &[7]);
    buffer.write(9, &[1, 2, 3, 4, 5, 6]);
    buffer.retain_window(10, 10, 3);
    let ranges = buffer.consume_to_vec();
    assert_eq!(ranges, vec![vec![1, 2, 3, 4, 5, 6]]);
}

#[test]
fn retain_window_keeps_whole_chunks_at_their_positions() {
    let mut buffer = MultiRangeBuffer::new(None);
    buffer.write(3, &[1, 2, 3, 4, 5, 6, 7, 8, 9]);
    // The window reaches from 10 to 14; of the whole chunks 3..=5, 6..=8 and 9..=11
    // only the last meets it.
    buffer.retain_window(12, 2, 3);
    let mut buf = [0u8; 6];
    let read = buffer.read(9, &mut buf);
    assert_eq!(read.amount, 3);
    assert_eq!(&buf[..3], &[7, 8, 9]);
    assert_eq!(buffer.consume_to_vec(), vec![vec![7, 8, 9]]);
}

#[test]
fn retain_range_keeps_no_partial_chunk() {
    let mut range = RangeBuffer::new(0);
    range.write(&[1, 2]);
    range.retain_range(0, 10, 3);
    assert!(range.consume_to_vec().is_empty());

    let mut range = RangeBuffer::new(1);
    range.write(&[1, 2, 3, 4, 5, 6, 7]);
    // Positions 1 to 7: of the chunks 0..=2, 3..=5 and 6..=8 only the middle one is whole.
    range.retain_range(0, 100, 3);
    assert_eq!(range.offset(), 3);
    assert_eq!(range.consume_to_vec(), vec![3, 4, 5]);
}

#[test]
fn introspecting_a_list_describes_each_range_in_order() {
    let mut first = RangeBuffer::new(2);
    first.write(&[1, 2, 3]);
    let mut second = RangeBuffer::new(10);
    second.write(&[4]);
    let described: Vec<turntable::buffer::RangeInstrospection> = vec![first, second].introspect();
    let pairs: Vec<(usize, usize)> = described.iter().map(|r| (r.offset, r.length)).collect();
    assert_eq!(pairs, vec![(2, 3), (10, 1)]);
}
