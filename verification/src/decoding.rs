use vstd::prelude::*;

verus! {

/// The progress of decoding packets of an audio track until enough samples are
/// decoded. The decoder feeds it what each packet decoded to, or that the
/// stream ended; it says when to stop.
pub struct DecodeProgress<T> {
    samples: Vec<T>,
    last_samples_written_was_zero: bool,
    end_reached: bool,
}

impl<T: Copy> DecodeProgress<T> {
    pub closed spec fn spec_samples(&self) -> Seq<T> {
        self.samples@
    }

    pub closed spec fn spec_end_reached(&self) -> bool {
        self.end_reached
    }

    pub closed spec fn spec_last_was_empty(&self) -> bool {
        self.last_samples_written_was_zero
    }

    pub fn new() -> (progress: Self)
        ensures
            progress.spec_samples() == Seq::<T>::empty(),
            !progress.spec_end_reached(),
            !progress.spec_last_was_empty(),
    {
        DecodeProgress { samples: Vec::new(), last_samples_written_was_zero: false, end_reached: false }
    }

    /// Returns true while fewer samples than requested are decoded.
    pub fn wants_more(&self, amount: usize) -> (more: bool)
        ensures
            more == (self.spec_samples().len() < amount),
    {
        self.samples.len() < amount
    }

    /// The stream ended: decoding stops at its end.
    pub fn end_of_stream(&mut self)
        ensures
            final(self).spec_end_reached(),
            final(self).spec_samples() == old(self).spec_samples(),
            final(self).spec_last_was_empty() == old(self).spec_last_was_empty(),
    {
        self.end_reached = true;
    }

    /// Adds the samples a packet decoded to. Returns false when decoding has to
    /// stop at the end of the stream: the packet before yielded nothing and
    /// nothing was decoded so far, which guards against decoders that keep
    /// returning no samples at the end.
    pub fn decoded(&mut self, decoded: &[T]) -> (go_on: bool)
        ensures
            old(self).spec_last_was_empty() && old(self).spec_samples().len() == 0 ==> {
                &&& !go_on
                &&& final(self).spec_end_reached()
                &&& final(self).spec_samples() == old(self).spec_samples()
                &&& final(self).spec_last_was_empty() == old(self).spec_last_was_empty()
            },
            !(old(self).spec_last_was_empty() && old(self).spec_samples().len() == 0) ==> {
                &&& go_on
                &&& final(self).spec_end_reached() == old(self).spec_end_reached()
                &&& final(self).spec_samples() == old(self).spec_samples() + decoded@
                &&& final(self).spec_last_was_empty() == (final(self).spec_samples().len() == 0)
            },
    {
        if self.last_samples_written_was_zero && self.samples.len() == 0 {
            self.end_reached = true;
            return false;
        }
        let mut index: usize = 0;
        let ghost before = self.samples@;
        while index < decoded.len()
            invariant
                index <= decoded@.len(),
                self.samples@ == before + decoded@.take(index as int),
                self.end_reached == old(self).spec_end_reached(),
            decreases decoded@.len() - index,
        {
            self.samples.push(decoded[index]);
            index = index + 1;
            assert(self.samples@ =~= before + decoded@.take(index as int));
        }
        assert(decoded@.take(decoded@.len() as int) =~= decoded@);
        self.last_samples_written_was_zero = self.samples.len() == 0;
        true
    }

    /// Returns the decoded samples and whether the end of the stream was reached.
    pub fn finish(self) -> (result: (Vec<T>, bool))
        ensures
            result.0@ == self.spec_samples(),
            result.1 == self.spec_end_reached(),
    {
        (self.samples, self.end_reached)
    }
}

/// Where the samples to write start in what was decoded from `seeked_offset`,
/// when they were asked for from `offset`: the seek difference is skipped, to
/// avoid artifacts.
pub fn seek_difference(offset: usize, seeked_offset: usize) -> (start: usize)
    ensures
        start == if offset >= seeked_offset { offset - seeked_offset } else { 0 },
{
    offset.saturating_sub(seeked_offset)
}

} // verus!
