use vstd::prelude::*;

use vstd::arithmetic::div_mod::{
    lemma_div_multiples_vanish_fancy, lemma_div_pos_is_pos, lemma_fundamental_div_mod, lemma_mod_multiples_vanish,
    lemma_mod_pos_bound, lemma_small_mod,
};

verus! {

/// The channels of interleaved samples: channel `c` holds sample `c` of each
/// whole frame of `channels` samples.
pub open spec fn uninterleaved<T>(samples: Seq<T>, channels: int) -> Seq<Seq<T>> {
    Seq::new(
        channels as nat,
        |c: int| Seq::new((samples.len() as int / channels) as nat, |k: int| samples[k * channels + c]),
    )
}

/// Interleaved channels: frame `k` holds sample `k` of each channel, in the order of the channels.
pub open spec fn interleaved<T>(channels: Seq<Seq<T>>) -> Seq<T> {
    let n = channels.len() as int;
    if n == 0 {
        Seq::empty()
    } else {
        Seq::new((channels[0].len() * n) as nat, |i: int| channels[i % n][i / n])
    }
}

/// The contents of each channel.
pub open spec fn channel_views<T>(channels: Seq<Vec<T>>) -> Seq<Seq<T>> {
    channels.map_values(|channel: Vec<T>| channel@)
}

/// Position `i` of interleaved samples is sample `i / n` of channel `i % n`.
proof fn lemma_split_index(i: int, n: int, frames: int)
    requires
        0 <= i < frames * n,
        n > 0,
    ensures
        0 <= i % n < n,
        0 <= i / n < frames,
        i == (i / n) * n + i % n,
{
    lemma_fundamental_div_mod(i, n);
    lemma_mod_pos_bound(i, n);
    lemma_div_pos_is_pos(i, n);
    assert(n * (i / n) == (i / n) * n) by (nonlinear_arith);
    assert(i / n < frames) by (nonlinear_arith)
        requires
            (i / n) * n <= i,
            i < frames * n,
            n > 0,
    ;
}

/// Sample `k` of channel `c` lies at `k * n + c`, which splits back into `k` and `c`.
proof fn lemma_join_index(k: int, c: int, n: int)
    requires
        0 <= c < n,
        0 <= k,
    ensures
        (k * n + c) / n == k,
        (k * n + c) % n == c,
{
    assert(k * n == n * k) by (nonlinear_arith);
    lemma_div_multiples_vanish_fancy(k, c, n);
    lemma_mod_multiples_vanish(k, c, n);
    lemma_small_mod(c as nat, n as nat);
}

/// Interleaving the channels of samples that are whole frames gives the samples back.
pub proof fn lemma_interleave_undoes_uninterleave<T>(samples: Seq<T>, channels: int)
    requires
        channels > 0,
        samples.len() as int % channels == 0,
    ensures
        interleaved(uninterleaved(samples, channels)) == samples,
{
    let n = channels;
    let frames = samples.len() as int / n;
    let split = uninterleaved(samples, n);
    lemma_fundamental_div_mod(samples.len() as int, n);
    assert(frames * n == samples.len()) by (nonlinear_arith)
        requires
            samples.len() as int == n * frames + 0,
    ;
    assert(split[0].len() == frames);
    let joined = interleaved(split);
    assert forall|i: int| 0 <= i < samples.len() implies joined[i] == samples[i] by {
        lemma_split_index(i, n, frames);
    }
    assert(joined =~= samples);
}

/// Uninterleaving interleaved channels of one length gives the channels back.
pub proof fn lemma_uninterleave_undoes_interleave<T>(channels: Seq<Seq<T>>)
    requires
        channels.len() > 0,
        forall|c: int| 0 <= c < channels.len() ==> (#[trigger] channels[c]).len() == channels[0].len(),
    ensures
        uninterleaved(interleaved(channels), channels.len() as int) == channels,
{
    let n = channels.len() as int;
    let frames = channels[0].len() as int;
    let joined = interleaved(channels);
    assert(frames * n == n * frames + 0) by (nonlinear_arith);
    lemma_div_multiples_vanish_fancy(frames, 0, n);
    assert(joined.len() as int / n == frames);
    let split = uninterleaved(joined, n);
    assert forall|c: int| 0 <= c < n implies (#[trigger] split[c]) =~= channels[c] by {
        assert forall|k: int| 0 <= k < frames implies split[c][k] == channels[c][k] by {
            lemma_join_index(k, c, n);
            assert(k * n + c < frames * n) by (nonlinear_arith)
                requires
                    0 <= k < frames,
                    0 <= c < n,
            ;
            assert(0 <= k * n) by (nonlinear_arith)
                requires
                    0 <= k,
                    n > 0,
            ;
        }
    }
    assert(split =~= channels);
}

proof fn lemma_frame_index(k: int, frames: int, channels: int, c: int, n: int)
    requires
        0 <= k < frames,
        0 <= c < channels,
        frames == n / channels,
        channels > 0,
        n >= 0,
    ensures
        0 <= k * channels + c < n,
        k * channels + c < (k + 1) * channels,
{
    assert(k * channels + c < (k + 1) * channels) by (nonlinear_arith)
        requires
            c < channels,
    ;
    assert((k + 1) * channels <= frames * channels) by (nonlinear_arith)
        requires
            k + 1 <= frames,
            channels > 0,
    ;
    assert(frames * channels <= n) by (nonlinear_arith)
        requires
            frames == n / channels,
            channels > 0,
            n >= 0,
    ;
    assert(0 <= k * channels) by (nonlinear_arith)
        requires
            k >= 0,
            channels > 0,
    ;
}

/// Uninterleaves a chunk of samples into a vector where each sub-vector is a channel.
/// Samples of an incomplete last frame are dropped.
pub fn uninterleave_samples<T: Copy>(samples: Vec<T>, channels: usize) -> (result: Vec<Vec<T>>)
    requires
        channels > 0,
    ensures
        result@.len() == channels,
        forall|c: int| 0 <= c < channels ==> (#[trigger] result@[c])@.len() == samples@.len() as int / channels as int,
        forall|c: int, k: int|
            0 <= c < channels && 0 <= k < samples@.len() as int / channels as int ==> #[trigger] result@[c]@[k]
                == samples@[k * channels + c],
        channel_views(result@) == uninterleaved(samples@, channels as int),
{
    let frames = samples.len() / channels;
    let mut result: Vec<Vec<T>> = Vec::new();
    let mut c: usize = 0;
    while c < channels
        invariant
            c <= channels,
            channels > 0,
            samples@.len() <= usize::MAX,
            frames == samples@.len() as int / channels as int,
            result@.len() == c,
            forall|i: int| 0 <= i < c ==> (#[trigger] result@[i])@.len() == frames,
            forall|i: int, k: int|
                0 <= i < c && 0 <= k < frames ==> #[trigger] result@[i]@[k] == samples@[k * channels + i],
        decreases channels - c,
    {
        let mut channel: Vec<T> = Vec::new();
        let mut k: usize = 0;
        let mut position: usize = c;
        while k < frames
            invariant
                k <= frames,
                c < channels,
                samples@.len() <= usize::MAX,
                frames == samples@.len() as int / channels as int,
                k < frames ==> position == k * channels + c,
                channel@.len() == k,
                forall|j: int| 0 <= j < k ==> channel@[j] == samples@[j * channels + c],
            decreases frames - k,
        {
            proof {
                lemma_frame_index(k as int, frames as int, channels as int, c as int, samples@.len() as int);
            }
            channel.push(samples[position]);
            if k + 1 < frames {
                proof {
                    lemma_frame_index(k + 1, frames as int, channels as int, c as int, samples@.len() as int);
                    assert((k + 1) * channels == k * channels + channels) by (nonlinear_arith);
                    assert(position == k * channels + c);
                    assert(position + channels < samples@.len());
                }
                position = position + channels;
            }
            k = k + 1;
        }
        result.push(channel);
        c = c + 1;
    }
    proof {
        let expected = uninterleaved(samples@, channels as int);
        assert forall|i: int| 0 <= i < channels implies channel_views(result@)[i] =~= expected[i] by {
            assert(channel_views(result@)[i] == result@[i]@);
        }
        assert(channel_views(result@) =~= expected);
    }
    result
}

/// Interleaves vectors of channels into a single vector of samples.
pub fn interleave_samples<T: Copy>(samples: Vec<Vec<T>>) -> (result: Vec<T>)
    requires
        forall|c: int| 0 <= c < samples@.len() ==> (#[trigger] samples@[c])@.len() == samples@[0]@.len(),
    ensures
        samples@.len() == 0 ==> result@.len() == 0,
        samples@.len() > 0 ==> result@.len() == samples@[0]@.len() * samples@.len(),
        forall|k: int, c: int|
            0 <= c < samples@.len() && 0 <= k < samples@[0]@.len() ==> result@[k * samples@.len() + c]
                == #[trigger] samples@[c]@[k],
        result@ == interleaved(channel_views(samples@)),
{
    if samples.len() == 0 {
        return Vec::new();
    }
    let channel_count = samples.len();
    let channel_len = samples[0].len();
    let mut result: Vec<T> = Vec::new();
    let mut k: usize = 0;
    while k < channel_len
        invariant
            k <= channel_len,
            channel_count == samples@.len(),
            channel_count > 0,
            channel_len == samples@[0]@.len(),
            forall|c: int| 0 <= c < samples@.len() ==> (#[trigger] samples@[c])@.len() == channel_len,
            result@.len() == k * channel_count,
            forall|j: int, c: int|
                0 <= c < channel_count && 0 <= j < k ==> result@[j * channel_count + c]
                    == #[trigger] samples@[c]@[j],
        decreases channel_len - k,
    {
        let mut c: usize = 0;
        while c < channel_count
            invariant
                c <= channel_count,
                k < channel_len,
                channel_count == samples@.len(),
                channel_count > 0,
                forall|i: int| 0 <= i < samples@.len() ==> (#[trigger] samples@[i])@.len() == channel_len,
                result@.len() == k * channel_count + c,
                forall|j: int, i: int|
                    0 <= i < channel_count && 0 <= j < k ==> result@[j * channel_count + i]
                        == #[trigger] samples@[i]@[j],
                forall|i: int| 0 <= i < c ==> result@[k * channel_count + i] == (#[trigger] samples@[i])@[k as int],
            decreases channel_count - c,
        {
            let ghost before = result@;
            result.push(samples[c][k]);
            proof {
                assert forall|j: int, i: int|
                    0 <= i < channel_count && 0 <= j < k implies result@[j * channel_count + i]
                        == #[trigger] samples@[i]@[j] by {
                    assert(j * channel_count + i < k * channel_count) by (nonlinear_arith)
                        requires
                            0 <= i < channel_count,
                            0 <= j < k,
                    ;
                    assert(0 <= j * channel_count) by (nonlinear_arith)
                        requires
                            0 <= j,
                            channel_count > 0,
                    ;
                    assert(result@[j * channel_count + i] == before[j * channel_count + i]);
                }
                assert forall|i: int| 0 <= i < c + 1 implies result@[k * channel_count + i]
                    == (#[trigger] samples@[i])@[k as int] by {
                    if i < c {
                        assert(result@[k * channel_count + i] == before[k * channel_count + i]);
                    }
                }
            }
            c = c + 1;
        }
        proof {
            assert((k + 1) * channel_count == k * channel_count + channel_count) by (nonlinear_arith);
            assert forall|j: int, i: int|
                0 <= i < channel_count && 0 <= j < k + 1 implies result@[j * channel_count + i]
                    == #[trigger] samples@[i]@[j] by {
                if j == k {
                }
            }
        }
        k = k + 1;
    }
    proof {
        let views = channel_views(samples@);
        assert(views.len() == channel_count && views[0] == samples@[0]@);
        assert forall|i: int| 0 <= i < result@.len() implies result@[i] == interleaved(views)[i] by {
            lemma_split_index(i, channel_count as int, channel_len as int);
            let k = i / channel_count as int;
            let c = i % channel_count as int;
            assert(result@[k * channel_count + c] == samples@[c]@[k]);
            assert(views[c] == samples@[c]@);
        }
        assert(result@ =~= interleaved(views));
    }
    result
}

} // verus!
