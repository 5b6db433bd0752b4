use vstd::prelude::*;

use crate::id::IdType;

verus! {

#[derive(Debug)]
pub struct EncoderIntrospection {
    /// The name of this encoder
    pub name: String,
    /// Size of the data currently stored in the encoder in bytes
    pub size: usize,
}

#[derive(Debug)]
pub struct ConsumerPairIntrospection {
    pub id: IdType,
    pub encoder: EncoderIntrospection,
}

/// The last `size` samples of `samples`, or all of them if there are fewer.
pub open spec fn last_samples<T>(samples: Seq<T>, size: int) -> Seq<T> {
    if samples.len() > size {
        samples.skip(samples.len() - size)
    } else {
        samples
    }
}

/// The destination of a player's samples: it keeps a preloaded cache of the
/// latest samples, used to instantly fill a new consumer, so that there isn't a
/// delay before a consumer returns data.
pub struct Stream<T> {
    /// How many samples the preload cache keeps.
    preload_size: usize,
    preload_cache: Vec<T>,
}

impl<T: Copy> Stream<T> {
    pub closed spec fn spec_preload_size(&self) -> usize {
        self.preload_size
    }

    pub closed spec fn spec_preload_cache(&self) -> Seq<T> {
        self.preload_cache@
    }

    /// Creates a stream whose preload cache keeps the latest `preload_size` samples.
    pub fn new(preload_size: usize) -> (stream: Self)
        ensures
            stream.spec_preload_size() == preload_size,
            stream.spec_preload_cache() == Seq::<T>::empty(),
    {
        Stream { preload_size, preload_cache: Vec::new() }
    }

    /// Pushes samples to the preload cache, dropping the oldest ones that no longer fit.
    pub fn push_preload(&mut self, samples: &[T])
        ensures
            final(self).spec_preload_cache() == last_samples(
                old(self).spec_preload_cache() + samples@,
                old(self).spec_preload_size() as int,
            ),
            final(self).spec_preload_size() == old(self).spec_preload_size(),
    {
        let ghost all = self.preload_cache@ + samples@;
        let total = self.preload_cache.len() as u128 + samples.len() as u128;
        let size = self.preload_size as u128;
        let overflowing = if total > size { total - size } else { 0 };

        let mut cache: Vec<T> = Vec::new();
        let mut index: u128 = overflowing;
        while index < total
            invariant
                overflowing <= index <= total,
                total == all.len(),
                all == self.preload_cache@ + samples@,
                cache@ == all.subrange(overflowing as int, index as int),
            decreases total - index,
        {
            let sample = if index < self.preload_cache.len() as u128 {
                self.preload_cache[index as usize]
            } else {
                samples[(index - self.preload_cache.len() as u128) as usize]
            };
            cache.push(sample);
            index = index + 1;
            assert(cache@ =~= all.subrange(overflowing as int, index as int));
        }
        assert(all.subrange(overflowing as int, total as int) =~= last_samples(all, size as int));
        self.preload_cache = cache;
    }

    /// Returns a copy of the preload cache, the oldest sample first.
    pub fn preload_cache(&self) -> (cache: Vec<T>)
        ensures
            cache@ == self.spec_preload_cache(),
    {
        let mut cache: Vec<T> = Vec::new();
        let mut index: usize = 0;
        while index < self.preload_cache.len()
            invariant
                index <= self.preload_cache@.len(),
                cache@ == self.preload_cache@.take(index as int),
            decreases self.preload_cache@.len() - index,
        {
            cache.push(self.preload_cache[index]);
            index = index + 1;
            assert(cache@ =~= self.preload_cache@.take(index as int));
        }
        assert(self.preload_cache@.take(self.preload_cache@.len() as int) =~= self.preload_cache@);
        cache
    }
}

/// The preload cache never holds more than its size, and always holds the most recent samples.
pub proof fn lemma_preload_cache_bounded<T>(cache: Seq<T>, samples: Seq<T>, size: int)
    requires
        size >= 0,
    ensures
        last_samples(cache + samples, size).len() <= size,
        samples.len() <= size ==> last_samples(cache + samples, size).skip(
            last_samples(cache + samples, size).len() - samples.len(),
        ) == samples,
{
    let all = cache + samples;
    let kept = last_samples(all, size);
    if all.len() > size {
        assert(kept.len() == size);
    } else {
        assert(kept == all);
    }
    if samples.len() <= size {
        assert(kept.skip(kept.len() - samples.len()) =~= samples);
    }
}

} // verus!
