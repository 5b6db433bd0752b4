use std::collections::VecDeque;
use vstd::prelude::*;
use vstd::arithmetic::div_mod::{lemma_fundamental_div_mod, lemma_mod_bound, lemma_mod_multiples_basic};

use crate::ext::{assign_slice, assign_slice_with_offset, min_int, VecDequeExt};
use crate::introspection::Introspect;
use crate::buffer_laws::{
    chunk_samples, held_in, holds_at, lemma_retain_window_invents_nothing, lemma_retain_window_keeps_window, lemma_retained_keeps_chunk,
};

verus! {

/// `x - y`, or 0 where that would be negative.
pub open spec fn sat_sub(x: int, y: int) -> int {
    if x >= y { x - y } else { 0 }
}

pub open spec fn max_int(a: int, b: int) -> int {
    if a >= b { a } else { b }
}

/// The abstract contents of a [RangeBuffer]: the absolute offset of its
/// first sample and the samples it holds.
pub struct RangeView<T> {
    pub offset: int,
    pub data: Seq<T>,
}

impl<T> RangeView<T> {
    /// The absolute offsets of the range can be computed without overflow.
    pub open spec fn fits(self) -> bool {
        0 <= self.offset && self.offset + self.len() < usize::MAX
    }

    pub open spec fn len(self) -> int {
        self.data.len() as int
    }

    /// The absolute offset of the last sample. An empty range reports its own offset.
    pub open spec fn end(self) -> int {
        self.offset + sat_sub(self.len(), 1)
    }

    pub open spec fn within(self, offset: int) -> bool {
        self.offset <= offset <= self.end()
    }

    /// The two ranges overlap or touch each other.
    pub open spec fn touches(self, other: RangeView<T>) -> bool {
        sat_sub(other.offset, 1) <= self.end() && sat_sub(self.offset, 1) <= other.end()
    }

    /// `self` followed by `second`: `self` is cut where `second` starts.
    pub open spec fn joined(self, second: RangeView<T>) -> RangeView<T> {
        let intersection = sat_sub(self.end() + 1, second.offset);
        RangeView {
            offset: self.offset,
            data: self.data.take(sat_sub(self.len(), intersection)) + second.data,
        }
    }

    /// The range that results from merging two touching ranges: the one with
    /// the lower offset (the other one on a tie) comes first.
    pub open spec fn merged(self, other: RangeView<T>) -> RangeView<T> {
        if self.offset < other.offset {
            self.joined(other)
        } else {
            other.joined(self)
        }
    }

    /// The amount of samples a read of `requested` samples at `offset` yields.
    pub open spec fn read_amount(self, offset: int, requested: int) -> int {
        let relative_start = sat_sub(offset, self.offset);
        let available = sat_sub(self.len(), relative_start);
        min_int(requested, available)
    }

    /// The samples a read at `offset` yields, for a destination of `requested` samples.
    pub open spec fn read_samples(self, offset: int, requested: int) -> Seq<T> {
        let relative_start = sat_sub(offset, self.offset);
        self.data.subrange(relative_start, relative_start + self.read_amount(offset, requested))
    }

    /// The index of the first whole chunk of `chunk_size` samples within the range.
    pub open spec fn first_chunk(self, chunk_size: int) -> int {
        self.offset / chunk_size + if self.offset % chunk_size == 0 { 0int } else { 1int }
    }

    /// The range holds a sample between `start` and `end`, both included.
    pub open spec fn overlaps(self, start: int, end: int) -> bool {
        self.offset <= end && start <= self.end()
    }

    /// One past the index of the last whole chunk of `chunk_size` samples within the range.
    pub open spec fn chunks_end(self, chunk_size: int) -> int {
        (self.offset + self.len()) / chunk_size
    }

    /// The first chunk that `retain` keeps: the chunk that holds `start`, or
    /// the first whole chunk of the range if that is later.
    pub open spec fn retain_start(self, start: int, chunk_size: int) -> int {
        max_int(start / chunk_size, self.first_chunk(chunk_size))
    }

    /// One past the last chunk that `retain` keeps: the chunk that holds `end`,
    /// or the last whole chunk of the range if that is earlier.
    pub open spec fn retain_end(self, end: int, chunk_size: int) -> int {
        min_int(end / chunk_size + 1, self.chunks_end(chunk_size))
    }

    /// The range after keeping only the whole chunks of `chunk_size` samples
    /// that meet the window between `start` and `end`. A range that has no
    /// such chunk is emptied, at the start of the chunk that holds its offset.
    pub open spec fn retained(self, start: int, end: int, chunk_size: int) -> RangeView<T> {
        let first = self.retain_start(start, chunk_size);
        let after = self.retain_end(end, chunk_size);
        if first < after {
            RangeView {
                offset: first * chunk_size,
                data: self.data.subrange(first * chunk_size - self.offset, after * chunk_size - self.offset),
            }
        } else {
            RangeView { offset: (self.offset / chunk_size) * chunk_size, data: Seq::empty() }
        }
    }
}

/// A buffer that stores a single range of data. Used in [MultiRangeBuffer].
pub struct RangeBuffer<T> {
    /// The offset in samples of the start of the buffer.
    offset: usize,
    /// The samples in the buffer.
    data: VecDeque<T>,
}

impl<T> View for RangeBuffer<T> {
    type V = RangeView<T>;

    closed spec fn view(&self) -> RangeView<T> {
        RangeView { offset: self.offset as int, data: self.data@ }
    }
}

impl<T> RangeBuffer<T> {
    /// Creates an empty range at the given offset.
    pub fn new(offset: usize) -> (range: Self)
        requires
            offset < usize::MAX,
        ensures
            range@ == (RangeView::<T> { offset: offset as int, data: Seq::empty() }),
            range@.fits(),
    {
        RangeBuffer { offset, data: VecDeque::new() }
    }

    /// Appends samples to the end of the range.
    pub fn write(&mut self, buf: &[T])
        where T: Copy
        requires
            old(self)@.offset + old(self)@.len() + buf@.len() < usize::MAX,
        ensures
            final(self)@ == (RangeView { offset: old(self)@.offset, data: old(self)@.data + buf@ }),
            final(self)@.fits(),
    {
        let mut data = VecDeque::new();
        std::mem::swap(&mut data, &mut self.data);
        let ghost start = data@;
        let mut i: usize = 0;
        while i < buf.len()
            invariant
                i <= buf@.len(),
                data@ == start + buf@.take(i as int),
            decreases buf@.len() - i,
        {
            data.push_back(buf[i]);
            i = i + 1;
            assert(data@ =~= start + buf@.take(i as int));
        }
        assert(buf@.take(buf@.len() as int) =~= buf@);
        self.data = data;
    }

    /// Reads samples to the provided slice at the given absolute offset.
    /// An offset before the range reads from its start.
    pub fn read(&self, offset: usize, buf: &mut [T]) -> (amount: usize)
        where T: Copy
        requires
            self@.fits(),
            offset <= self@.offset + self@.len(),
        ensures
            amount == self@.read_amount(offset as int, old(buf)@.len() as int),
            final(buf)@ == self@.read_samples(offset as int, old(buf)@.len() as int)
                + old(buf)@.skip(amount as int),
    {
        let length = self.data.len();
        let relative_start = if offset >= self.offset { offset - self.offset } else { 0 };
        let available = length - relative_start;
        let requested = buf.len();
        let amount_to_read = if requested <= available { requested } else { available };
        let relative_end = relative_start + amount_to_read;
        let (first, second) = self.data.range_as_slices(relative_start..relative_end);
        let ghost before = buf@;
        let first_amount = assign_slice(first, buf);
        assign_slice_with_offset(first_amount, second, buf);
        proof {
            let part = self@.read_samples(offset as int, before.len() as int);
            assert(first@ + second@ =~= part);
            assert(buf@ =~= part + before.skip(amount_to_read as int));
        }
        amount_to_read
    }

    /// Clears all samples outside the given window.
    /// The window's start and end are widened or narrowed to whole chunks of
    /// `chunk_size` samples, as far as the range reaches; a range that holds no
    /// whole chunk meeting the window is emptied.
    pub fn retain_range(&mut self, start: usize, end: usize, chunk_size: usize)
        requires
            old(self)@.fits(),
            chunk_size > 0,
        ensures
            final(self)@ == old(self)@.retained(start as int, end as int, chunk_size as int),
            final(self)@.fits(),
            final(self)@.offset % chunk_size as int == 0,
            final(self)@.len() % chunk_size as int == 0,
            final(self)@.len() > 0 ==> old(self)@.offset <= final(self)@.offset && final(self)@.data == old(self)@.data.subrange(
                final(self)@.offset - old(self)@.offset,
                final(self)@.offset + final(self)@.len() - old(self)@.offset,
            ),
            forall|chunk: int|
                old(self)@.offset <= chunk * chunk_size && chunk * chunk_size + chunk_size <= old(self)@.offset
                    + old(self)@.len() && chunk * chunk_size <= end && start < chunk * chunk_size + chunk_size
                    ==> holds_at(final(self)@, chunk * chunk_size, #[trigger] chunk_samples(old(self)@, chunk, chunk_size as int)),
    {
        let ghost old_view = self@;
        proof {
            lemma_retained_within(old_view, start as int, end as int, chunk_size as int);
            assert forall|chunk: int|
                old_view.offset <= chunk * chunk_size && chunk * chunk_size + chunk_size <= old_view.offset + old_view.len()
                    && chunk * chunk_size <= end && start < chunk * chunk_size + chunk_size
                implies holds_at(
                old_view.retained(start as int, end as int, chunk_size as int),
                chunk * chunk_size,
                #[trigger] chunk_samples(old_view, chunk, chunk_size as int),
            ) by {
                lemma_retained_keeps_chunk(old_view, start as int, end as int, chunk_size as int, chunk);
            }
        }
        let total_length = self.data.len();
        let absolute_start = self.offset;
        let absolute_after = absolute_start + total_length;
        let first_whole_chunk = absolute_start / chunk_size + if absolute_start % chunk_size == 0 { 0 } else { 1 };
        let whole_chunks_end = absolute_after / chunk_size;
        let start_chunk = start / chunk_size;
        let first = if start_chunk >= first_whole_chunk {
            start_chunk
        } else {
            first_whole_chunk
        };
        let end_chunk = end / chunk_size;
        let after = if end_chunk < whole_chunks_end {
            end_chunk + 1
        } else {
            whole_chunks_end
        };
        if first >= after {
            proof {
                let c = chunk_size as int;
                let o = absolute_start as int;
                lemma_fundamental_div_mod(o, c);
                lemma_mod_bound(o, c);
                assert((o / c) * c <= o) by (nonlinear_arith)
                    requires o == c * (o / c) + o % c, o % c >= 0;
            }
            self.offset = absolute_start / chunk_size * chunk_size;
            self.data = VecDeque::new();
            return;
        }
        proof {
            let c = chunk_size as int;
            let o = absolute_start as int;
            let a = first_whole_chunk as int;
            let z = absolute_after as int;
            lemma_fundamental_div_mod(o, c);
            lemma_mod_bound(o, c);
            lemma_fundamental_div_mod(z, c);
            lemma_mod_bound(z, c);
            if o % c == 0 {
                assert(a * c == o) by (nonlinear_arith)
                    requires a == o / c, o == c * (o / c);
            } else {
                assert(a * c >= o) by (nonlinear_arith)
                    requires a == o / c + 1, o == c * (o / c) + o % c, o % c < c;
            }
            let f = first as int;
            let e = after as int;
            assert(f * c >= o && f * c < e * c && e * c <= z) by (nonlinear_arith)
                requires
                    f >= a,
                    a * c >= o,
                    f < e,
                    e <= z / c,
                    z == c * (z / c) + z % c,
                    z % c >= 0,
                    c > 0;
        }
        let first_sample = first * chunk_size;
        let after_sample = after * chunk_size;
        let mut data = VecDeque::new();
        std::mem::swap(&mut data, &mut self.data);
        let mut kept = data.split_off(first_sample - absolute_start);
        kept.truncate(after_sample - first_sample);
        assert(kept@ =~= old_view.data.subrange(
            first_sample - absolute_start,
            after_sample - absolute_start,
        ));
        self.offset = first_sample;
        self.data = kept;
    }

    /// Drops the samples before `bound`, which the range holds.
    fn trim_to(&mut self, bound: usize)
        requires
            old(self)@.fits(),
            old(self)@.offset < bound <= old(self)@.end(),
        ensures
            final(self)@ == (RangeView { offset: bound as int, data: old(self)@.data.skip(bound - old(self)@.offset) }),
            final(self)@.fits(),
    {
        let ghost before = self@;
        let mut data = VecDeque::new();
        std::mem::swap(&mut data, &mut self.data);
        let kept = data.split_off(bound - self.offset);
        assert(kept@ =~= before.data.skip(bound - before.offset));
        self.data = kept;
        self.offset = bound;
    }

    /// Returns the amount of samples in the buffer so far.
    pub fn length(&self) -> (length: usize)
        ensures
            length == self@.len(),
    {
        self.data.len()
    }

    /// Returns the absolute offset of the first sample.
    pub fn offset(&self) -> (offset: usize)
        ensures
            offset == self@.offset,
    {
        self.offset
    }

    /// Returns the start and end of the range.
    pub fn range(&self) -> (bounds: (usize, usize))
        requires
            self@.fits(),
        ensures
            bounds.0 == self@.offset,
            bounds.1 == self@.end(),
    {
        let offset = self.offset;
        (offset, offset + self.length().saturating_sub(1))
    }

    /// Returns true if the given offset is within the range of this buffer.
    pub fn is_within(&self, offset: usize) -> (within: bool)
        requires
            self@.fits(),
        ensures
            within == self@.within(offset as int),
    {
        let (start, end) = self.range();
        offset >= start && offset <= end
    }

    /// Returns true if the given range is intersecting or adjacent to this range.
    pub fn is_intersecting_or_adjacent(&self, other: &Self) -> (touching: bool)
        requires
            self@.fits(),
            other@.fits(),
        ensures
            touching == self@.touches(other@),
    {
        let (start, end) = self.range();
        let (other_start, other_end) = other.range();

        other_start.saturating_sub(1) <= end && start.saturating_sub(1) <= other_end
    }

    /// Merges two intersecting or adjacent ranges, then returns the new merged range.
    pub fn merge_with(self, other: Self) -> (merged: Self)
        requires
            self@.fits(),
            other@.fits(),
            self@.touches(other@),
        ensures
            merged@ == self@.merged(other@),
            merged@.fits(),
    {
        let (mut first, second) = if self.offset < other.offset {
            (self, other)
        } else {
            (other, self)
        };
        let ghost first_view = first@;
        let ghost second_view = second@;

        let (start, end) = first.range();
        let (other_start, _) = second.range();

        let intersection = (end + 1).saturating_sub(other_start);
        let keep = first.data.len().saturating_sub(intersection);

        let mut data = VecDeque::new();
        std::mem::swap(&mut data, &mut first.data);
        data.truncate(keep);
        let mut second_data = second.data;
        data.append(&mut second_data);
        proof {
            let j = first_view.joined(second_view);
            assert(data@ =~= j.data);
            // The joined range ends where the second one ends.
            assert(j.offset + j.len() <= second_view.offset + second_view.len());
        }
        RangeBuffer { offset: start, data }
    }

    /// Removes and returns all samples, leaving the range empty.
    pub fn consume_to_vec(&mut self) -> (samples: Vec<T>)
        ensures
            samples@ == old(self)@.data,
            final(self)@ == (RangeView::<T> { offset: old(self)@.offset, data: Seq::empty() }),
    {
        let mut data = VecDeque::new();
        std::mem::swap(&mut data, &mut self.data);
        let ghost all = data@;
        let mut samples = Vec::new();
        while data.len() > 0
            invariant
                samples@ + data@ == all,
            decreases data@.len(),
        {
            let sample = data.pop_front();
            match sample {
                Some(s) => {
                    samples.push(s);
                },
                None => {},
            }
            assert(samples@ + data@ =~= all);
        }
        assert(samples@ =~= all);
        samples
    }
}


/// Every range fits, and the ranges are ordered with a gap between any two of them.
pub open spec fn ranges_separated<T>(ranges: Seq<RangeView<T>>) -> bool {
    &&& forall|i: int| 0 <= i < ranges.len() ==> #[trigger] ranges[i].fits()
    &&& forall|i: int, j: int|
        0 <= i < j < ranges.len() ==> #[trigger] ranges[i].end() + 1 < #[trigger] ranges[j].offset
}

proof fn lemma_separated_push<T>(ranges: Seq<RangeView<T>>, current: RangeView<T>, next: RangeView<T>)
    requires
        ranges_separated(ranges.push(current)),
        next.fits(),
        current.offset < next.offset,
        !current.touches(next),
    ensures
        ranges_separated(ranges.push(current).push(next)),
{
    let all = ranges.push(current).push(next);
    assert(ranges.push(current)[ranges.len() as int] == current);
    assert(current.fits());
    assert(current.end() + 1 < next.offset);
    assert forall|i: int, j: int| 0 <= i < j < all.len() implies #[trigger] all[i].end() + 1 < #[trigger] all[j].offset by {
        if j == all.len() - 1 && i < all.len() - 2 {
            assert(all[i] == ranges.push(current)[i]);
            assert(ranges.push(current)[i].end() + 1 < ranges.push(current)[all.len() - 2].offset);
        } else if j < all.len() - 1 {
            assert(all[i] == ranges.push(current)[i]);
            assert(all[j] == ranges.push(current)[j]);
        }
    }
    assert forall|i: int| 0 <= i < all.len() implies #[trigger] all[i].fits() by {
        if i < all.len() - 1 {
            assert(all[i] == ranges.push(current)[i]);
        }
    }
}

proof fn lemma_separated_replace_last<T>(ranges: Seq<RangeView<T>>, current: RangeView<T>, replacement: RangeView<T>)
    requires
        ranges_separated(ranges.push(current)),
        replacement.fits(),
        replacement.offset == current.offset,
    ensures
        ranges_separated(ranges.push(replacement)),
{
    let before = ranges.push(current);
    let after = ranges.push(replacement);
    assert forall|i: int, j: int| 0 <= i < j < after.len() implies #[trigger] after[i].end() + 1 < #[trigger] after[j].offset by {
        assert(after[i] == before[i]);
        assert(before[i].end() + 1 < before[j].offset);
    }
    assert forall|i: int| 0 <= i < after.len() implies #[trigger] after[i].fits() by {
        if i < after.len() - 1 {
            assert(after[i] == before[i]);
        }
    }
}

/// Every range fits, and the offsets strictly increase.
pub open spec fn ranges_ascending<T>(ranges: Seq<RangeView<T>>) -> bool {
    &&& forall|i: int| 0 <= i < ranges.len() ==> #[trigger] ranges[i].fits()
    &&& forall|i: int, j: int|
        0 <= i < j < ranges.len() ==> #[trigger] ranges[i].offset < #[trigger] ranges[j].offset
}

/// The result of merging, from left to right, every range that touches the
/// range merged so far.
pub open spec fn merge_all<T>(ranges: Seq<RangeView<T>>) -> Seq<RangeView<T>>
    decreases ranges.len(),
{
    if ranges.len() == 0 {
        Seq::empty()
    } else if ranges.len() == 1 {
        ranges
    } else {
        let merged = merge_all(ranges.drop_last());
        let current = merged.last();
        let next = ranges.last();
        if current.touches(next) {
            merged.drop_last().push(current.merged(next))
        } else {
            merged.push(next)
        }
    }
}

/// The index of the range that holds `offset`, or -1.
pub open spec fn index_within<T>(ranges: Seq<RangeView<T>>, offset: int) -> int {
    if exists|i: int| 0 <= i < ranges.len() && #[trigger] ranges[i].within(offset) {
        choose|i: int| 0 <= i < ranges.len() && #[trigger] ranges[i].within(offset)
    } else {
        -1
    }
}

/// Reading `samples.len()` samples at `offset` from the ranges yields `samples`.
pub open spec fn reads_back<T>(ranges: Seq<RangeView<T>>, offset: int, samples: Seq<T>) -> bool {
    let found = index_within(ranges, offset);
    &&& found >= 0
    &&& ranges[found].read_amount(offset, samples.len() as int) == samples.len()
    &&& ranges[found].read_samples(offset, samples.len() as int) == samples
}

/// No range is empty.
pub open spec fn ranges_filled<T>(ranges: Seq<RangeView<T>>) -> bool {
    forall|i: int| 0 <= i < ranges.len() ==> (#[trigger] ranges[i]).len() > 0
}

/// The number of ranges, from the start, that begin before `offset`: where a
/// range that starts at `offset` goes among ascending ranges.
pub open spec fn split_position<T>(ranges: Seq<RangeView<T>>, offset: int) -> int
    decreases ranges.len(),
{
    if ranges.len() == 0 {
        0
    } else if ranges.last().offset < offset {
        ranges.len() as int
    } else {
        split_position(ranges.drop_last(), offset)
    }
}

/// The ranges without their samples before `bound`: a range that ends before
/// `bound` is dropped, and a range that holds `bound` now starts there.
pub open spec fn trimmed_after<T>(ranges: Seq<RangeView<T>>, bound: int) -> Seq<RangeView<T>>
    decreases ranges.len(),
{
    if ranges.len() == 0 {
        Seq::empty()
    } else {
        let earlier = trimmed_after(ranges.drop_last(), bound);
        let last = ranges.last();
        if last.offset >= bound {
            earlier.push(last)
        } else if last.end() >= bound {
            earlier.push(RangeView { offset: bound, data: last.data.skip(bound - last.offset) })
        } else {
            earlier
        }
    }
}

/// The ranges before merging when `samples` are written at `offset`: a new
/// range of the samples is put after the ranges that start before `offset`,
/// and the samples it covers are cut from the ranges after it. Merging then
/// cuts the range before it where the samples start. Writing nothing changes nothing.
pub open spec fn written<T>(ranges: Seq<RangeView<T>>, offset: int, samples: Seq<T>) -> Seq<RangeView<T>> {
    if samples.len() == 0 {
        ranges
    } else {
        let position = split_position(ranges, offset);
        ranges.take(position) + seq![RangeView { offset, data: samples }] + trimmed_after(
            ranges.skip(position),
            offset + samples.len(),
        )
    }
}

/// Before `split_position`, the ranges start before `offset`; from it on, at or after it.
pub proof fn lemma_split_position<T>(ranges: Seq<RangeView<T>>, offset: int)
    requires
        ranges_separated(ranges),
    ensures
        0 <= split_position(ranges, offset) <= ranges.len(),
        forall|i: int| 0 <= i < split_position(ranges, offset) ==> (#[trigger] ranges[i]).offset < offset,
        forall|i: int| split_position(ranges, offset) <= i < ranges.len() ==> (#[trigger] ranges[i]).offset >= offset,
    decreases ranges.len(),
{
    if ranges.len() > 0 {
        let prefix = ranges.drop_last();
        let n = ranges.len() - 1;
        assert(ranges_separated(prefix)) by {
            assert forall|i: int, j: int| 0 <= i < j < prefix.len() implies #[trigger] prefix[i].end() + 1
                < #[trigger] prefix[j].offset by {
                assert(prefix[i] == ranges[i] && prefix[j] == ranges[j]);
            }
            assert forall|i: int| 0 <= i < prefix.len() implies (#[trigger] prefix[i]).fits() by {
                assert(prefix[i] == ranges[i]);
            }
        }
        lemma_split_position(prefix, offset);
        assert(ranges.last() == ranges[n]);
        if ranges.last().offset < offset {
            assert forall|i: int| 0 <= i < ranges.len() implies (#[trigger] ranges[i]).offset < offset by {
                if i < n {
                    assert(ranges[i].end() + 1 < ranges[n].offset);
                    assert(ranges[i].offset <= ranges[i].end());
                }
            }
        } else {
            assert forall|i: int| 0 <= i < split_position(ranges, offset) implies (#[trigger] ranges[i]).offset
                < offset by {
                assert(ranges[i] == prefix[i]);
            }
            assert forall|i: int| split_position(ranges, offset) <= i < ranges.len() implies (
            #[trigger] ranges[i]).offset >= offset by {
                if i < n {
                    assert(ranges[i] == prefix[i]);
                }
            }
        }
    }
}

/// Trimming separated, filled ranges that all start at or after `low` yields
/// ascending, filled ranges that start at or after `bound`.
pub proof fn lemma_trimmed_after<T>(ranges: Seq<RangeView<T>>, bound: int)
    requires
        ranges_separated(ranges),
        ranges_filled(ranges),
        0 <= bound,
    ensures
        ranges_ascending(trimmed_after(ranges, bound)),
        ranges_filled(trimmed_after(ranges, bound)),
        forall|k: int| 0 <= k < trimmed_after(ranges, bound).len() ==> (#[trigger] trimmed_after(ranges, bound)[k]).offset >= bound,
        ranges.len() > 0 ==> forall|k: int|
            0 <= k < trimmed_after(ranges, bound).len() ==> (#[trigger] trimmed_after(ranges, bound)[k]).offset
                <= ranges.last().end(),
        ranges.len() > 0 && ranges.last().end() < bound ==> trimmed_after(ranges, bound).len() == 0,
    decreases ranges.len(),
{
    if ranges.len() > 0 {
        let prefix = ranges.drop_last();
        let n = ranges.len() - 1;
        let last = ranges.last();
        assert(last == ranges[n]);
        assert(last.fits() && last.len() > 0);
        assert(ranges_separated(prefix)) by {
            assert forall|i: int, j: int| 0 <= i < j < prefix.len() implies #[trigger] prefix[i].end() + 1
                < #[trigger] prefix[j].offset by {
                assert(prefix[i] == ranges[i] && prefix[j] == ranges[j]);
            }
            assert forall|i: int| 0 <= i < prefix.len() implies (#[trigger] prefix[i]).fits() by {
                assert(prefix[i] == ranges[i]);
            }
        }
        assert(ranges_filled(prefix)) by {
            assert forall|i: int| 0 <= i < prefix.len() implies (#[trigger] prefix[i]).len() > 0 by {
                assert(prefix[i] == ranges[i]);
            }
        }
        lemma_trimmed_after(prefix, bound);
        let earlier = trimmed_after(prefix, bound);
        let result = trimmed_after(ranges, bound);
        if n > 0 {
            assert(prefix.last() == ranges[n - 1]);
            assert(ranges[n - 1].end() + 1 < ranges[n].offset);
        }
        if last.offset >= bound || last.end() >= bound {
            let pushed = if last.offset >= bound {
                last
            } else {
                RangeView { offset: bound, data: last.data.skip(bound - last.offset) }
            };
            assert(result == earlier.push(pushed));
            assert(pushed.len() > 0 && pushed.fits());
            if last.offset < bound {
                if n > 0 {
                    assert(prefix.last().end() < bound);
                }
                assert(earlier.len() == 0);
            }
            assert forall|k: int| 0 <= k < result.len() implies (#[trigger] result[k]).offset <= last.end() by {
                if k < earlier.len() {
                    assert(result[k] == earlier[k]);
                }
            }
            assert forall|k: int| 0 <= k < result.len() implies (#[trigger] result[k]).offset >= bound by {
                if k < earlier.len() {
                    assert(result[k] == earlier[k]);
                }
            }
            assert forall|k: int| 0 <= k < result.len() implies (#[trigger] result[k]).len() > 0 && result[k].fits() by {
                if k < earlier.len() {
                    assert(result[k] == earlier[k]);
                }
            }
            assert forall|a: int, b: int| 0 <= a < b < result.len() implies (#[trigger] result[a]).offset
                < (#[trigger] result[b]).offset by {
                assert(result[a] == earlier[a]);
                if b < earlier.len() {
                    assert(result[b] == earlier[b]);
                } else {
                    assert(earlier[a].offset <= prefix.last().end());
                }
            }
        } else {
            assert(result == earlier);
            if n > 0 {
                assert forall|k: int| 0 <= k < result.len() implies (#[trigger] result[k]).offset <= last.end() by {
                    assert(earlier[k].offset <= prefix.last().end());
                }
                if last.end() < bound {
                    assert(prefix.last().end() < bound);
                }
            }
        }
    }
}

/// The ranges that writing `samples` at `offset` yields before merging are
/// ascending and filled; the range of the samples comes right after the
/// ranges that start before it, and every range after it starts after the samples.
pub proof fn lemma_written_ascending<T>(ranges: Seq<RangeView<T>>, offset: int, samples: Seq<T>)
    requires
        ranges_separated(ranges),
        ranges_filled(ranges),
        0 <= offset,
        offset + samples.len() < usize::MAX,
        samples.len() > 0,
    ensures
        ({
            let w = written(ranges, offset, samples);
            let p = split_position(ranges, offset);
            &&& ranges_ascending(w)
            &&& ranges_filled(w)
            &&& 0 <= p < w.len()
            &&& w[p] == (RangeView { offset, data: samples })
            &&& w.take(p) == ranges.take(p)
            &&& forall|i: int| p < i < w.len() ==> (#[trigger] w[i]).offset >= offset + samples.len()
        }),
{
    lemma_split_position(ranges, offset);
    let p = split_position(ranges, offset);
    let bound = offset + samples.len();
    let rest = ranges.skip(p);
    assert(ranges_separated(rest)) by {
        assert forall|i: int, j: int| 0 <= i < j < rest.len() implies #[trigger] rest[i].end() + 1
            < #[trigger] rest[j].offset by {
            assert(rest[i] == ranges[i + p] && rest[j] == ranges[j + p]);
        }
        assert forall|i: int| 0 <= i < rest.len() implies (#[trigger] rest[i]).fits() by {
            assert(rest[i] == ranges[i + p]);
        }
    }
    assert(ranges_filled(rest)) by {
        assert forall|i: int| 0 <= i < rest.len() implies (#[trigger] rest[i]).len() > 0 by {
            assert(rest[i] == ranges[i + p]);
        }
    }
    lemma_trimmed_after(rest, bound);
    let t = trimmed_after(rest, bound);
    let inserted = RangeView { offset, data: samples };
    let w = written(ranges, offset, samples);
    assert(w == ranges.take(p) + seq![inserted] + t);
    assert(w.take(p) =~= ranges.take(p));
    assert(w[p] == inserted);
    assert forall|i: int| 0 <= i < w.len() implies (#[trigger] w[i]).fits() && w[i].len() > 0 by {
        if i < p {
            assert(w[i] == ranges[i]);
        } else if i > p {
            assert(w[i] == t[i - p - 1]);
        }
    }
    assert forall|i: int| p < i < w.len() implies (#[trigger] w[i]).offset >= bound by {
        assert(w[i] == t[i - p - 1]);
    }
    assert forall|a: int, b: int| 0 <= a < b < w.len() implies (#[trigger] w[a]).offset < (#[trigger] w[b]).offset by {
        if b < p {
            assert(w[a] == ranges[a] && w[b] == ranges[b]);
            assert(ranges[a].end() + 1 < ranges[b].offset);
        } else if b == p {
            assert(w[a] == ranges[a]);
        } else if a < p {
            assert(w[a] == ranges[a]);
        } else if a > p {
            assert(w[a] == t[a - p - 1] && w[b] == t[b - p - 1]);
        }
    }
}

/// The ranges that hold a sample between `start` and `end`, each cut to the
/// chunks between them; a range that is left without samples is dropped.
pub open spec fn retained_all<T>(ranges: Seq<RangeView<T>>, start: int, end: int, chunk_size: int) -> Seq<RangeView<T>>
    decreases ranges.len(),
{
    if ranges.len() == 0 {
        Seq::empty()
    } else {
        let earlier = retained_all(ranges.drop_last(), start, end, chunk_size);
        let last = ranges.last();
        if last.overlaps(start, end) && last.retained(start, end, chunk_size).len() > 0 {
            earlier.push(last.retained(start, end, chunk_size))
        } else {
            earlier
        }
    }
}

/// The chunks can be formed for every range that `retain_window` cuts: there
/// is a chunk size wherever a range meets the window.
pub open spec fn can_retain_all<T>(ranges: Seq<RangeView<T>>, start: int, end: int, chunk_size: int) -> bool {
    forall|i: int| 0 <= i < ranges.len() && #[trigger] ranges[i].overlaps(start, end) ==> chunk_size > 0
}

/// Cutting a range to whole chunks keeps a piece of it in place: what is left
/// starts on a chunk boundary and is made of whole chunks; where it holds
/// samples, it lies within the range and holds the range's samples at their positions.
pub proof fn lemma_retained_within<T>(range: RangeView<T>, start: int, end: int, chunk_size: int)
    requires
        range.fits(),
        chunk_size > 0,
    ensures
        ({
            let kept = range.retained(start, end, chunk_size);
            &&& kept.offset % chunk_size == 0
            &&& kept.len() % chunk_size == 0
            &&& kept.len() > 0 ==> {
                &&& range.offset <= kept.offset
                &&& kept.offset + kept.len() <= range.offset + range.len()
                &&& kept.data == range.data.subrange(kept.offset - range.offset, kept.offset + kept.len() - range.offset)
            }
        }),
{
    let c = chunk_size;
    let o = range.offset;
    let z = range.offset + range.len();
    let a = range.first_chunk(c);
    lemma_fundamental_div_mod(o, c);
    lemma_mod_bound(o, c);
    lemma_fundamental_div_mod(z, c);
    lemma_mod_bound(z, c);
    if o % c == 0 {
        assert(a * c == o) by (nonlinear_arith)
            requires a == o / c, o == c * (o / c);
    } else {
        assert(a * c >= o) by (nonlinear_arith)
            requires a == o / c + 1, o == c * (o / c) + o % c, o % c < c;
    }
    let f = range.retain_start(start, c);
    let e = range.retain_end(end, c);
    if f < e {
        assert(f * c >= o && f * c < e * c && e * c <= z) by (nonlinear_arith)
            requires
                f >= a,
                a * c >= o,
                f < e,
                e <= z / c,
                z == c * (z / c) + z % c,
                z % c >= 0,
                c > 0;
        lemma_mod_multiples_basic(f, c);
        lemma_mod_multiples_basic(e - f, c);
        assert((e - f) * c == e * c - f * c) by (nonlinear_arith);
    } else {
        lemma_mod_multiples_basic(o / c, c);
    }
}

proof fn lemma_retained_ascending<T>(ranges: Seq<RangeView<T>>, start: int, end: int, chunk_size: int)
    requires
        ranges_separated(ranges),
        can_retain_all(ranges, start, end, chunk_size),
    ensures
        ranges_ascending(retained_all(ranges, start, end, chunk_size)),
        ranges_filled(retained_all(ranges, start, end, chunk_size)),
        ranges.len() > 0 ==> forall|j: int|
            0 <= j < retained_all(ranges, start, end, chunk_size).len()
                ==> #[trigger] retained_all(ranges, start, end, chunk_size)[j].offset
                    <= ranges.last().offset + ranges.last().len(),
    decreases ranges.len(),
{
    if ranges.len() > 0 {
        let prefix = ranges.drop_last();
        let last = ranges.last();
        let n = ranges.len() - 1;
        assert(ranges_separated(prefix)) by {
            assert forall|i: int, j: int| 0 <= i < j < prefix.len() implies #[trigger] prefix[i].end() + 1 < #[trigger] prefix[j].offset by {
                assert(prefix[i] == ranges[i] && prefix[j] == ranges[j]);
            }
            assert forall|i: int| 0 <= i < prefix.len() implies #[trigger] prefix[i].fits() by {
                assert(prefix[i] == ranges[i]);
            }
        }
        assert(can_retain_all(prefix, start, end, chunk_size)) by {
            assert forall|i: int| 0 <= i < prefix.len() && #[trigger] prefix[i].overlaps(start, end) implies chunk_size
                > 0 by {
                assert(prefix[i] == ranges[i]);
            }
        }
        lemma_retained_ascending(prefix, start, end, chunk_size);
        let earlier = retained_all(prefix, start, end, chunk_size);
        let result = retained_all(ranges, start, end, chunk_size);
        assert(ranges[n] == last);
        assert(last.fits());
        if n > 0 {
            assert(prefix.last() == ranges[n - 1]);
            assert(ranges[n - 1].end() + 1 < ranges[n].offset);
            assert(ranges[n - 1].fits());
        }
        if last.overlaps(start, end) && last.retained(start, end, chunk_size).len() > 0 {
            let kept = last.retained(start, end, chunk_size);
            assert(chunk_size > 0);
            lemma_retained_within(last, start, end, chunk_size);
            assert(result == earlier.push(kept));
            assert forall|i: int, j: int| 0 <= i < j < result.len() implies #[trigger] result[i].offset < #[trigger] result[j].offset by {
                if j == result.len() - 1 {
                    assert(result[i] == earlier[i]);
                    assert(earlier[i].offset <= prefix.last().offset + prefix.last().len());
                } else {
                    assert(result[i] == earlier[i] && result[j] == earlier[j]);
                }
            }
            assert forall|i: int| 0 <= i < result.len() implies #[trigger] result[i].fits() && result[i].len() > 0 by {
                if i < result.len() - 1 {
                    assert(result[i] == earlier[i]);
                }
            }
            assert forall|j: int| 0 <= j < result.len() implies #[trigger] result[j].offset <= last.offset + last.len() by {
                if j < result.len() - 1 {
                    assert(result[j] == earlier[j]);
                }
            }
        } else {
            assert(result == earlier);
        }
    }
}

proof fn lemma_index_within_unique<T>(ranges: Seq<RangeView<T>>, offset: int, i: int)
    requires
        ranges_separated(ranges),
        0 <= i < ranges.len(),
        ranges[i].within(offset),
    ensures
        index_within(ranges, offset) == i,
{
    let chosen = index_within(ranges, offset);
    assert(ranges[chosen].within(offset));
    if chosen < i {
        assert(ranges[chosen].end() + 1 < ranges[i].offset);
    } else if chosen > i {
        assert(ranges[i].end() + 1 < ranges[chosen].offset);
    }
}

/// Merging ranges that are all filled yields ranges that are all filled.
pub proof fn lemma_merge_filled<T>(ranges: Seq<RangeView<T>>)
    requires
        ranges_filled(ranges),
    ensures
        ranges_filled(merge_all(ranges)),
    decreases ranges.len(),
{
    if ranges.len() >= 2 {
        let prefix = ranges.drop_last();
        assert forall|i: int| 0 <= i < prefix.len() implies (#[trigger] prefix[i]).len() > 0 by {
            assert(prefix[i] == ranges[i]);
        }
        lemma_merge_filled(prefix);
        let merged = merge_all(prefix);
        let result = merge_all(ranges);
        assert(ranges.last() == ranges[ranges.len() - 1]);
        assert forall|i: int| 0 <= i < result.len() implies (#[trigger] result[i]).len() > 0 by {
            if i < result.len() - 1 {
                assert(result[i] == merged[i]);
            }
        }
    }
}

/// Merging ranges that are already separated leaves them as they are.
pub proof fn lemma_merge_separated<T>(ranges: Seq<RangeView<T>>)
    requires
        ranges_separated(ranges),
    ensures
        merge_all(ranges) == ranges,
    decreases ranges.len(),
{
    if ranges.len() >= 2 {
        let prefix = ranges.drop_last();
        let n = ranges.len() - 1;
        assert(ranges_separated(prefix)) by {
            assert forall|i: int, j: int| 0 <= i < j < prefix.len() implies #[trigger] prefix[i].end() + 1
                < #[trigger] prefix[j].offset by {
                assert(prefix[i] == ranges[i] && prefix[j] == ranges[j]);
            }
            assert forall|i: int| 0 <= i < prefix.len() implies (#[trigger] prefix[i]).fits() by {
                assert(prefix[i] == ranges[i]);
            }
        }
        lemma_merge_separated(prefix);
        assert(prefix.last() == ranges[n - 1]);
        assert(ranges[n - 1].end() + 1 < ranges[n].offset);
        assert(!ranges[n - 1].touches(ranges[n]));
        assert(prefix.push(ranges.last()) =~= ranges);
    }
}

/// A buffer that stores multiple ranges of samples.
/// This is needed for seeking, because it has to be possible to write and read samples at any offset.
pub struct MultiRangeBuffer<T> {
    ranges: Vec<RangeBuffer<T>>,
    /// The amount of samples that is expected to be written to the buffer.
    expected_length: Option<usize>,
}

/// Describes the end of a read operation.
#[derive(Debug, Clone, Copy, PartialEq, Eq, Structural)]
pub enum BufferReadEnd {
    /// There is more data to read after the requested amount.
    More,
    /// There is a gap between ranges after the requested amount.
    Gap,
    /// The end of the buffer has been reached.
    End,
}

#[derive(Debug, Clone, Copy)]
pub struct BufferRead {
    /// The amount of samples read.
    pub amount: usize,
    /// The end of the read operation.
    pub end: BufferReadEnd,
}

#[derive(Debug, Clone, Copy)]
pub struct BufferVoidDistance {
    /// The distance from the void in the buffer.
    pub distance: usize,
    /// Determines if the void is the end of the buffer.
    pub is_end: bool,
}

pub open spec fn views<T>(ranges: Seq<RangeBuffer<T>>) -> Seq<RangeView<T>> {
    ranges.map_values(|r: RangeBuffer<T>| r@)
}

impl<T> MultiRangeBuffer<T> {
    /// The stored ranges, in ascending order.
    pub closed spec fn ranges(&self) -> Seq<RangeView<T>> {
        views(self.ranges@)
    }

    /// The amount of samples that is expected to be written, if known.
    pub closed spec fn expected(&self) -> Option<usize> {
        self.expected_length
    }

    #[verifier::type_invariant]
    spec fn separated(self) -> bool {
        ranges_separated(views(self.ranges@)) && ranges_filled(views(self.ranges@))
    }

    pub fn new(expected_length: Option<usize>) -> (buffer: Self)
        ensures
            buffer.ranges() == Seq::<RangeView<T>>::empty(),
            buffer.expected() == expected_length,
            ranges_separated(buffer.ranges()),
            ranges_filled(buffer.ranges()),
    {
        let buffer = MultiRangeBuffer { ranges: Vec::new(), expected_length };
        assert(views(buffer.ranges@) =~= Seq::<RangeView<T>>::empty());
        buffer
    }

    /// Writes samples to the buffer at the given offset, creating a new range if
    /// necessary. Afterwards, reading at the offset gives back the samples. The
    /// range the samples start in ends with them, and the samples they cover
    /// in ranges after them are overwritten.
    pub fn write(&mut self, offset: usize, buf: &[T])
        where T: Copy
        requires
            old(self).write_fits(offset as int, buf@.len() as int),
        ensures
            final(self).ranges() == merge_all(written(old(self).ranges(), offset as int, buf@)),
            final(self).expected() == old(self).expected(),
            ranges_separated(final(self).ranges()),
            ranges_filled(final(self).ranges()),
            buf@.len() > 0 ==> reads_back(final(self).ranges(), offset as int, buf@),
    {
        proof {
            use_type_invariant(&*self);
        }
        if buf.len() == 0 {
            proof {
                lemma_merge_separated(self.ranges());
            }
            return;
        }
        let mut ranges = Vec::new();
        std::mem::swap(&mut ranges, &mut self.ranges);
        let ghost all = views(ranges@);
        proof {
            lemma_split_position(all, offset as int);
            lemma_written_ascending(all, offset as int, buf@);
            crate::buffer_laws::lemma_read_after_write(all, offset as int, buf@);
        }

        let mut position: usize = 0;
        while position < ranges.len() && ranges[position].offset() < offset
            invariant
                position <= ranges@.len(),
                all == views(ranges@),
                forall|k: int| 0 <= k < position ==> #[trigger] all[k].offset < offset,
            decreases ranges@.len() - position,
        {
            position = position + 1;
        }
        proof {
            let p = split_position(all, offset as int);
            if p < position {
                assert(all[p].offset >= offset);
            } else if p > position {
                assert(all[position as int].offset < offset);
            }
        }
        let mut rest = ranges.split_off(position);
        let ghost p = position as int;
        let bound = offset + buf.len();
        let mut range = RangeBuffer::new(offset);
        range.write(buf);
        ranges.push(range);
        let total = rest.len();
        let mut i: usize = 0;
        proof {
            assert(views(ranges@) =~= all.take(p) + seq![RangeView { offset: offset as int, data: buf@ }]
                + trimmed_after(all.subrange(p, p), bound as int));
            assert(views(rest@) =~= all.skip(p));
        }
        while rest.len() > 0
            invariant
                i + rest@.len() == total,
                p + total == all.len(),
                0 <= p <= all.len(),
                bound == offset + buf@.len(),
                ranges_separated(all),
                views(rest@) == all.skip(p + i),
                views(ranges@) == all.take(p) + seq![RangeView { offset: offset as int, data: buf@ }]
                    + trimmed_after(all.subrange(p, p + i), bound as int),
            decreases rest@.len(),
        {
            let ghost before_rest = rest@;
            let ghost before = views(ranges@);
            let mut next = rest.remove(0);
            proof {
                assert(views(before_rest)[0] == next@);
                assert(all.skip(p + i)[0] == all[p + i]);
                assert(next@ == all[p + i]);
                assert(all[p + i].fits());
                assert(rest@ =~= before_rest.skip(1));
                assert(views(rest@) =~= views(before_rest).skip(1));
                assert(views(rest@) =~= all.skip(p + i + 1));
                assert(all.subrange(p, p + i + 1).drop_last() =~= all.subrange(p, p + i));
                assert(all.subrange(p, p + i + 1).last() == all[p + i]);
            }
            let (next_start, next_end) = next.range();
            if next_start >= bound {
                ranges.push(next);
                proof {
                    assert(views(ranges@) =~= before.push(all[p + i]));
                }
            } else if next_end >= bound {
                next.trim_to(bound);
                ranges.push(next);
                proof {
                    assert(views(ranges@) =~= before.push(next@));
                }
            }
            i = i + 1;
        }
        proof {
            assert(all.subrange(p, p + i) =~= all.skip(p));
            assert(views(ranges@) == written(all, offset as int, buf@));
            lemma_merge_filled(views(ranges@));
        }
        self.ranges = Self::merge_ranges(ranges);
    }

    /// The samples written at `offset` fit in the buffer's offsets.
    pub open spec fn write_fits(&self, offset: int, amount: int) -> bool {
        offset + amount < usize::MAX
    }

    /// Reads samples from the buffer at the given offset. Returns a [BufferRead], which describes the result of the read operation.
    /// - If the range has more data after the requested amount (it holds the sample at the read's end), the end is set to `More`
    /// - If the range has a gap after the requested amount, or there isn't any range at all, the end is set to `Gap`
    /// - If the requested amount reaches the expected length, the end is set to `End`
    pub fn read(&self, offset: usize, buf: &mut [T]) -> (result: BufferRead)
        where T: Copy
        requires
            offset + old(buf)@.len() <= usize::MAX,
        ensures
            ({
                let ranges = self.ranges();
                let found = index_within(ranges, offset as int);
                let end_offset = offset + old(buf)@.len();
                let gap_or_more = if found >= 0 && ranges[found].end() >= end_offset {
                    BufferReadEnd::More
                } else {
                    BufferReadEnd::Gap
                };
                &&& found >= 0 ==> ranges[found].len() > 0
                &&& found >= 0 ==> result.amount == ranges[found].read_amount(offset as int, old(buf)@.len() as int)
                &&& found >= 0 ==> final(buf)@ == ranges[found].read_samples(offset as int, old(buf)@.len() as int)
                    + old(buf)@.skip(result.amount as int)
                &&& found < 0 ==> result.amount == 0 && final(buf)@ == old(buf)@
                &&& result.end == match self.expected() {
                    Some(expected) => if end_offset >= expected { BufferReadEnd::End } else { gap_or_more },
                    None => gap_or_more,
                }
            }),
    {
        proof {
            use_type_invariant(self);
        }
        let ghost all = self.ranges();
        proof {
            assert forall|k: int| 0 <= k < self.ranges@.len() implies #[trigger] self.ranges@[k]@.fits() by {
                assert(all[k] == self.ranges@[k]@);
            }
        }
        let end_offset = offset + buf.len();
        let mut i: usize = 0;
        while i < self.ranges.len() && !self.ranges[i].is_within(offset)
            invariant
                i <= self.ranges@.len(),
                all == views(self.ranges@),
                ranges_separated(all),
                forall|k: int| 0 <= k < self.ranges@.len() ==> #[trigger] self.ranges@[k]@.fits(),
                forall|k: int| 0 <= k < i ==> !(#[trigger] all[k]).within(offset as int),
            decreases self.ranges@.len() - i,
        {
            proof {
                assert(all[i as int] == self.ranges@[i as int]@);
                assert(all[i as int].fits());
            }
            i = i + 1;
        }

        let mut amount_read: usize = 0;
        let mut end = BufferReadEnd::More;

        if i < self.ranges.len() {
            let range = &self.ranges[i];
            proof {
                assert(all[i as int] == range@);
                lemma_index_within_unique(all, offset as int, i as int);
            }
            amount_read = range.read(offset, buf);
            let (_, range_end) = range.range();
            if range_end < end_offset {
                end = BufferReadEnd::Gap;
            }
        } else {
            proof {
                assert(index_within(all, offset as int) == -1);
            }
            end = BufferReadEnd::Gap;
        }

        match self.expected_length {
            Some(expected) => {
                if end_offset >= expected {
                    end = BufferReadEnd::End;
                }
            },
            None => {},
        }

        BufferRead { amount: amount_read, end }
    }

    /// Returns the distance in samples from the offset to the first gap or end of the buffer.
    pub fn distance_from_void(&self, offset: usize) -> (distance: BufferVoidDistance)
        ensures
            ({
                let ranges = self.ranges();
                let found = index_within(ranges, offset as int);
                &&& found >= 0 ==> distance.distance == ranges[found].end() + 1 - offset
                    && distance.is_end == (found + 1 >= ranges.len())
                &&& found < 0 ==> distance.distance == 0 && !distance.is_end
            }),
            offset + distance.distance <= usize::MAX,
    {
        proof {
            use_type_invariant(self);
        }
        let ghost all = self.ranges();
        proof {
            assert forall|k: int| 0 <= k < self.ranges@.len() implies #[trigger] self.ranges@[k]@.fits() by {
                assert(all[k] == self.ranges@[k]@);
            }
        }
        let mut i: usize = 0;
        while i < self.ranges.len() && !self.ranges[i].is_within(offset)
            invariant
                i <= self.ranges@.len(),
                all == views(self.ranges@),
                ranges_separated(all),
                forall|k: int| 0 <= k < self.ranges@.len() ==> #[trigger] self.ranges@[k]@.fits(),
                forall|k: int| 0 <= k < i ==> !(#[trigger] all[k]).within(offset as int),
            decreases self.ranges@.len() - i,
        {
            proof {
                assert(all[i as int] == self.ranges@[i as int]@);
                assert(all[i as int].fits());
            }
            i = i + 1;
        }
        if i < self.ranges.len() {
            let range = &self.ranges[i];
            proof {
                assert(all[i as int] == range@);
                lemma_index_within_unique(all, offset as int, i as int);
            }
            proof {
                assert(range@.fits());
            }
            let has_more = i + 1 < self.ranges.len();
            let (_, end) = range.range();
            BufferVoidDistance { distance: end + 1 - offset, is_end: !has_more }
        } else {
            proof {
                assert(index_within(all, offset as int) == -1);
            }
            BufferVoidDistance {
                distance: 0,
                // This should be ignored, we're at the void no matter what.
                is_end: false,
            }
        }
    }

    /// Returns the distance in samples from the offset to the end of the buffer.
    /// If the end is unknown, this number is `usize::MAX`.
    pub fn distance_from_end(&self, offset: usize) -> (distance: usize)
        ensures
            distance == match self.expected() {
                Some(expected) => sat_sub(expected as int, offset as int),
                None => usize::MAX as int,
            },
    {
        match self.expected_length {
            Some(expected) => expected.saturating_sub(offset),
            None => usize::MAX,
        }
    }

    /// Returns the expected length in samples. If length is [None], it is unknown.
    pub fn expected_length(&self) -> (expected: Option<usize>)
        ensures
            expected == self.expected(),
    {
        self.expected_length
    }

    /// Returns true if `retain_window` can keep the chunks within `window` samples around `offset`.
    pub fn can_retain_window(&self, offset: usize, window: usize, chunk_size: usize) -> (possible: bool)
        ensures
            possible == (offset + window <= usize::MAX && can_retain_all(
                self.ranges(),
                sat_sub(offset as int, window as int),
                offset + window,
                chunk_size as int,
            )),
    {
        proof {
            use_type_invariant(self);
        }
        if window > usize::MAX - offset {
            return false;
        }
        if chunk_size > 0 {
            return true;
        }
        let start = offset.saturating_sub(window);
        let end = offset + window;
        let ghost all = self.ranges();
        let mut i: usize = 0;
        while i < self.ranges.len()
            invariant
                i <= self.ranges@.len(),
                all == views(self.ranges@),
                ranges_separated(all),
                start == sat_sub(offset as int, window as int),
                end == offset + window,
                chunk_size == 0,
                forall|k: int| 0 <= k < i ==> !(#[trigger] all[k]).overlaps(start as int, end as int),
            decreases self.ranges@.len() - i,
        {
            let range = &self.ranges[i];
            proof {
                assert(all[i as int] == range@);
                assert(all[i as int].fits());
            }
            let (range_start, range_end) = range.range();
            if range_start <= end && start <= range_end {
                assert(all[i as int].overlaps(start as int, end as int));
                return false;
            }
            i = i + 1;
        }
        true
    }

    /// Clears all samples outside `window` samples around `offset`.
    /// The ranges that hold samples within the window are kept, each cut to the
    /// whole chunks of `chunk_size` samples that meet the window.
    pub fn retain_window(&mut self, offset: usize, window: usize, chunk_size: usize)
        requires
            offset + window <= usize::MAX,
            can_retain_all(old(self).ranges(), sat_sub(offset as int, window as int), offset + window, chunk_size as int),
        ensures
            final(self).ranges() == merge_all(retained_all(
                old(self).ranges(),
                sat_sub(offset as int, window as int),
                offset + window,
                chunk_size as int,
            )),
            final(self).expected() == old(self).expected(),
            ranges_separated(final(self).ranges()),
            ranges_filled(final(self).ranges()),
            forall|k: int|
                0 <= k < final(self).ranges().len() ==> held_in(
                    old(self).ranges(),
                    (#[trigger] final(self).ranges()[k]).offset,
                    final(self).ranges()[k].data,
                ),
            forall|i: int, chunk: int|
                0 <= i < old(self).ranges().len() && chunk_size > 0 && old(self).ranges()[i].offset <= chunk
                    * chunk_size && chunk * chunk_size + chunk_size <= old(self).ranges()[i].offset + old(
                    self,
                ).ranges()[i].len() && chunk * chunk_size <= offset + window && sat_sub(offset as int, window as int)
                    < chunk * chunk_size + chunk_size ==> held_in(
                    final(self).ranges(),
                    chunk * chunk_size,
                    #[trigger] chunk_samples(old(self).ranges()[i], chunk, chunk_size as int),
                ),
    {
        proof {
            use_type_invariant(&*self);
        }
        let ghost before = self.ranges();
        let mut ranges = Vec::new();
        std::mem::swap(&mut ranges, &mut self.ranges);
        let ghost all = views(ranges@);

        let start = offset.saturating_sub(window);
        let end = offset + window;

        let total = ranges.len();
        let mut kept: Vec<RangeBuffer<T>> = Vec::new();
        let mut i: usize = 0;
        while ranges.len() > 0
            invariant
                i + ranges@.len() == total,
                total == all.len(),
                views(ranges@) == all.skip(i as int),
                views(kept@) == retained_all(all.take(i as int), start as int, end as int, chunk_size as int),
                ranges_separated(all),
                can_retain_all(all, start as int, end as int, chunk_size as int),
            decreases ranges@.len(),
        {
            let ghost before = ranges@;
            let mut range = ranges.remove(0);
            proof {
                assert(all.skip(i as int)[0] == all[i as int]);
                assert(views(before)[0] == range@);
                assert(range@ == all[i as int]);
                assert(all[i as int].fits());
                assert(ranges@ =~= before.skip(1));
                assert(views(ranges@) =~= views(before).skip(1));
                assert(views(ranges@) =~= all.skip(i + 1));
                assert(all.take(i + 1).drop_last() =~= all.take(i as int));
                assert(all.take(i + 1).last() == all[i as int]);
            }
            let (range_start, range_end) = range.range();
            if range_start <= end && start <= range_end {
                let ghost prior = views(kept@);
                assert(all[i as int].overlaps(start as int, end as int));
                range.retain_range(start, end, chunk_size);
                if range.length() > 0 {
                    kept.push(range);
                    proof {
                        assert(views(kept@) =~= prior.push(range@));
                    }
                }
            }
            i = i + 1;
        }
        proof {
            assert(all.take(i as int) =~= all);
            lemma_retained_ascending(all, start as int, end as int, chunk_size as int);
        }
        self.ranges = Self::merge_ranges(kept);
        proof {
            let lo = start as int;
            let hi = end as int;
            let c = chunk_size as int;
            assert(all == before);
            assert(before == old(self).ranges());
            assert(lo == sat_sub(offset as int, window as int));
            assert(hi == offset + window);
            assert forall|k: int| 0 <= k < self.ranges().len() implies held_in(
                all,
                (#[trigger] self.ranges()[k]).offset,
                self.ranges()[k].data,
            ) by {
                lemma_retain_window_invents_nothing(all, lo, hi, c, k);
            }
            assert forall|i: int, chunk: int|
                0 <= i < all.len() && c > 0 && all[i].offset <= chunk * c && chunk * c + c <= all[i].offset
                    + all[i].len() && chunk * c <= hi && lo < chunk * c + c implies held_in(
                self.ranges(),
                chunk * c,
                #[trigger] chunk_samples(all[i], chunk, c),
            ) by {
                lemma_retain_window_keeps_window(all, lo, hi, c, i, chunk);
            }
        }
    }

    /// Removes all ranges and returns their samples, in order.
    pub fn consume_to_vec(&mut self) -> (samples: Vec<Vec<T>>)
        ensures
            samples@.len() == old(self).ranges().len(),
            forall|i: int| 0 <= i < samples@.len() ==> #[trigger] samples@[i]@ == old(self).ranges()[i].data,
            final(self).ranges() == Seq::<RangeView<T>>::empty(),
            final(self).expected() == old(self).expected(),
            ranges_separated(final(self).ranges()),
            ranges_filled(final(self).ranges()),
    {
        let mut ranges = Vec::new();
        std::mem::swap(&mut ranges, &mut self.ranges);
        let ghost all = views(ranges@);
        let total = ranges.len();
        let mut samples: Vec<Vec<T>> = Vec::new();
        let mut i: usize = 0;
        while ranges.len() > 0
            invariant
                i + ranges@.len() == total,
                total == all.len(),
                views(ranges@) == all.skip(i as int),
                samples@.len() == i,
                forall|k: int| 0 <= k < i ==> #[trigger] samples@[k]@ == all[k].data,
            decreases ranges@.len(),
        {
            let ghost before = ranges@;
            let mut range = ranges.remove(0);
            proof {
                assert(all.skip(i as int)[0] == all[i as int]);
                assert(views(before)[0] == range@);
                assert(ranges@ =~= before.skip(1));
                assert(views(ranges@) =~= views(before).skip(1));
                assert(views(ranges@) =~= all.skip(i + 1));
            }
            samples.push(range.consume_to_vec());
            i = i + 1;
        }
        proof {
            assert(views(self.ranges@) =~= Seq::<RangeView<T>>::empty());
        }
        samples
    }

    /// Merges all ranges that are intersecting or adjacent to each other.
    fn merge_ranges(ranges: Vec<RangeBuffer<T>>) -> (merged: Vec<RangeBuffer<T>>)
        requires
            ranges_ascending(views(ranges@)),
            ranges_filled(views(ranges@)),
        ensures
            views(merged@) == merge_all(views(ranges@)),
            ranges_separated(views(merged@)),
            ranges_filled(views(merged@)),
    {
        proof {
            lemma_merge_filled(views(ranges@));
        }
        let ghost all = views(ranges@);
        if ranges.len() == 0 {
            let empty = Vec::new();
            assert(views(empty@) =~= merge_all(all));
            return empty;
        }
        let total = ranges.len();
        let mut rest = ranges;
        let mut merged: Vec<RangeBuffer<T>> = Vec::new();
        let mut current = rest.remove(0);
        let mut k: usize = 1;
        proof {
            assert(all.take(1) =~= seq![all[0]]);
            assert(views(merged@).push(current@) =~= merge_all(all.take(1)));
            assert(views(rest@) =~= all.skip(1));
        }
        while rest.len() > 0
            invariant
                1 <= k <= all.len(),
                k + rest@.len() == all.len(),
                all.len() == total,
                ranges_ascending(all),
                views(rest@) == all.skip(k as int),
                views(merged@).push(current@) == merge_all(all.take(k as int)),
                ranges_separated(views(merged@).push(current@)),
                current@.offset <= all[k - 1].offset,
            decreases rest@.len(),
        {
            let ghost old_rest = rest;
            let next = rest.remove(0);
            let ghost before = views(merged@).push(current@);
            proof {
                assert(all.skip(k as int)[0] == all[k as int]);
                assert(views(old_rest@)[0] == old_rest@[0]@);
                assert(next@ == all[k as int]);
                assert(all.take(k + 1).drop_last() =~= all.take(k as int));
                assert(all.take(k + 1).last() == all[k as int]);
                assert(rest@ =~= old_rest@.skip(1));
                assert(views(rest@) =~= views(old_rest@).skip(1));
                assert(views(rest@) =~= all.skip(k + 1));
                assert(before.last() == current@);
                assert(before.drop_last() =~= views(merged@));
            }
            assert(current@.offset < next@.offset);
            if current.is_intersecting_or_adjacent(&next) {
                current = current.merge_with(next);
                proof {
                    lemma_separated_replace_last(views(merged@), before.last(), current@);
                    assert(views(merged@).push(current@) =~= merge_all(all.take(k + 1)));
                }
            } else {
                let ghost prior = views(merged@);
                merged.push(current);
                current = next;
                proof {
                    lemma_separated_push(prior, before.last(), current@);
                    assert(views(merged@) =~= prior.push(before.last()));
                    assert(views(merged@).push(current@) =~= merge_all(all.take(k + 1)));
                }
            }
            k = k + 1;
        }
        let ghost prior = views(merged@);
        let ghost last = current@;
        merged.push(current);
        proof {
            assert(all.take(k as int) =~= all);
            assert(views(merged@) =~= prior.push(last));
        }
        merged
    }
}

#[derive(Debug)]
pub struct RangeInstrospection {
    pub offset: usize,
    pub length: usize,
}

#[derive(Debug)]
pub struct MultiRangeBufferIntrospection {
    pub ranges: Vec<RangeInstrospection>,
    pub expected_length: Option<usize>,
    /// The size of the buffer in bytes
    pub current_size: usize,
}

impl<T> Introspect<RangeInstrospection> for RangeBuffer<T> {
    fn introspect(&self) -> (result: RangeInstrospection)
        ensures
            result.offset == self@.offset,
            result.length == self@.len(),
    {
        RangeInstrospection { offset: self.offset, length: self.length() }
    }
}

/// The amount of samples held by all ranges.
pub open spec fn total_length<T>(ranges: Seq<RangeView<T>>) -> int
    decreases ranges.len(),
{
    if ranges.len() == 0 {
        0
    } else {
        total_length(ranges.drop_last()) + ranges.last().len()
    }
}

impl<T> Introspect<MultiRangeBufferIntrospection> for MultiRangeBuffer<T> {
    /// Describes the ranges; the size in bytes saturates at `usize::MAX`.
    fn introspect(&self) -> (result: MultiRangeBufferIntrospection)
        ensures
            result.ranges@.len() == self.ranges().len(),
            forall|i: int| 0 <= i < result.ranges@.len() ==> {
                &&& (#[trigger] result.ranges@[i]).offset == self.ranges()[i].offset
                &&& result.ranges@[i].length == self.ranges()[i].len()
            },
            result.expected_length == self.expected(),
            result.current_size == min_int(
                total_length(self.ranges()) * vstd::layout::size_of::<T>() as int,
                usize::MAX as int,
            ),
    {
        let ghost all = self.ranges();
        let sample_size = core::mem::size_of::<T>();
        assert(sample_size as int == vstd::layout::size_of::<T>());
        let mut ranges: Vec<RangeInstrospection> = Vec::new();
        let mut samples: usize = 0;
        let mut saturated = false;
        let mut i: usize = 0;
        while i < self.ranges.len()
            invariant
                i <= self.ranges@.len(),
                all == views(self.ranges@),
                ranges@.len() == i,
                forall|k: int| 0 <= k < i ==> {
                    &&& (#[trigger] ranges@[k]).offset == all[k].offset
                    &&& ranges@[k].length == all[k].len()
                },
                saturated ==> total_length(all.take(i as int)) > usize::MAX,
                !saturated ==> samples == total_length(all.take(i as int)),
            decreases self.ranges@.len() - i,
        {
            let range = &self.ranges[i];
            let described = range.introspect();
            proof {
                assert(all[i as int] == range@);
                assert(all.take(i + 1).drop_last() =~= all.take(i as int));
                assert(all.take(i + 1).last() == all[i as int]);
            }
            if !saturated {
                match samples.checked_add(described.length) {
                    Some(sum) => {
                        samples = sum;
                    },
                    None => {
                        saturated = true;
                    },
                }
            }
            ranges.push(described);
            i = i + 1;
        }
        proof {
            assert(all.take(i as int) =~= all);
        }
        let current_size = if sample_size == 0 {
            0
        } else if saturated {
            usize::MAX
        } else {
            match samples.checked_mul(sample_size) {
                Some(size) => size,
                None => usize::MAX,
            }
        };
        proof {
            if saturated && sample_size > 0 {
                let t = total_length(all);
                let z = sample_size as int;
                assert(t * z >= t) by (nonlinear_arith)
                    requires z >= 1, t >= 0;
            }
        }
        MultiRangeBufferIntrospection { ranges, current_size, expected_length: self.expected_length }
    }
}

} // verus!
