use turntable::interleave::{interleave_samples, uninterleave_samples};

#[test]
fn test_uninterleave_samples() {
    let samples = vec![1., 2., 3., 4., 5., 6.];
    let result = uninterleave_samples(samples, 2);

    assert_eq!(result, vec![vec![1., 3., 5.], vec![2., 4., 6.]])
}

#[test]
fn test_interleave_samples() {
    let samples = vec![vec![1., 3., 5.], vec![2., 4., 6.]];
    let result = interleave_samples(samples);

    assert_eq!(result, vec![1., 2., 3., 4., 5., 6.]);
}

#[test]
fn uninterleave_drops_incomplete_frame() {
    let result = uninterleave_samples(vec![1, 2, 3, 4, 5], 2);
    assert_eq!(result, vec![vec![1, 3], vec![2, 4]]);
}

#[test]
fn uninterleave_more_channels_than_samples() {
    let result = uninterleave_samples(vec![1, 2], 3);
    assert_eq!(result, vec![Vec::<i32>::new(), Vec::new(), Vec::new()]);
}

#[test]
fn interleave_of_nothing_is_empty() {
    let result: Vec<i32> = interleave_samples(Vec::new());
    assert!(result.is_empty());
}

#[test]
fn interleave_undoes_uninterleave() {
    let samples = vec![10, 20, 30, 11, 21, 31];
    let channels = uninterleave_samples(samples.clone(), 3);
    assert_eq!(interleave_samples(channels), samples);
}

#[test]
fn uninterleave_undoes_interleave() {
    let channels = vec![vec![1, 2, 3, 4], vec![5, 6, 7, 8], vec![9, 10, 11, 12]];
    let samples = interleave_samples(channels.clone());
    assert_eq!(samples, vec![1, 5, 9, 2, 6, 10, 3, 7, 11, 4, 8, 12]);
    assert_eq!(uninterleave_samples(samples, 3), channels);
}
